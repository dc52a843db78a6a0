//! The mapping from pipeline outcomes to client-visible HTTP responses.
//!
//! A successful pipeline run is returned verbatim as an HTML page; every
//! failure collapses to one fixed plaintext response, so no internal detail
//! ever leaks to the client.

use vstd::prelude::*;

use crate::error::PipelineError;

verus! {

/// A client-visible HTTP response: a status code, the value of the
/// `Content-Type` header, and the body.
pub struct HttpResponse {
    pub status: u16,
    pub content_type: String,
    pub body: String,
}

/// The response owed to a successful pipeline run that produced `art`.
pub open spec fn is_success_response(r: HttpResponse, art: Seq<char>) -> bool {
    &&& r.status == 200
    &&& r.content_type@ == "text/html; charset=utf-8"@
    &&& r.body@ == art
}

/// The one fixed response owed to every failed pipeline run.
pub open spec fn is_failure_response(r: HttpResponse) -> bool {
    &&& r.status == 500
    &&& r.content_type@ == "text/plain; charset=utf-8"@
    &&& r.body@ == "Something went wrong"@
}

/// Maps the outcome of the pipeline to the response sent to the client.
///
/// Success returns the ASCII-art document as HTML; any failure returns the
/// fixed plaintext body, whatever the underlying error was.
pub fn respond(outcome: Result<String, PipelineError>) -> (r: HttpResponse)
    ensures
        outcome matches Ok(art) ==> is_success_response(r, art@),
        outcome is Err ==> is_failure_response(r),
{
    match outcome {
        Ok(art) => HttpResponse {
            status: 200,
            content_type: String::from_str("text/html; charset=utf-8"),
            body: art,
        },
        Err(_) => HttpResponse {
            status: 500,
            content_type: String::from_str("text/plain; charset=utf-8"),
            body: String::from_str("Something went wrong"),
        },
    }
}

/// Failure mapping is uniform: any two failed pipeline runs produce
/// byte-identical client-visible responses, whichever two errors caused
/// them; they differ only in server-side logs.
pub proof fn lemma_failure_responses_identical(r1: HttpResponse, r2: HttpResponse)
    requires
        is_failure_response(r1),
        is_failure_response(r2),
    ensures
        r1.status == r2.status,
        r1.content_type@ == r2.content_type@,
        r1.body@ == r2.body@,
{
}

} // verus!
