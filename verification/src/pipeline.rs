//! The request pipeline's decisions.
//!
//! The service makes at most two outbound calls per request: a metadata
//! lookup (in the metadata-then-download configuration) and the image
//! download itself. The calls are made by the surrounding program; this
//! module takes each call's outcome as a plain value and decides everything
//! else: the status check, the choice of image address, image decoding,
//! ASCII conversion, and the final response.

use vstd::prelude::*;

use crate::error::PipelineError;
use crate::metadata;
use crate::response::{self, HttpResponse};

verus! {

/// What one outbound HTTP call came back with: a status and a body, or a
/// network-level failure (timeout, DNS, connection refused) that produced
/// neither.
pub enum FetchOutcome {
    Success { status: u16, body: Vec<u8> },
    NetworkFailure,
}

/// A successful HTTP status: the 2xx range.
pub open spec fn is_2xx(status: u16) -> bool {
    200 <= status <= 299
}

/// Whether the downloaded bytes decode as an image. Relied on below to be a
/// function of the bytes alone.
pub uninterp spec fn image_decodes(bytes: Seq<u8>) -> bool;

/// The pixel width of the image the downloaded bytes decode to. Relied on
/// below to be a function of the bytes alone; meaningful only where
/// `image_decodes` holds.
pub uninterp spec fn image_width_of(bytes: Seq<u8>) -> u32;

/// The pixel height of the image the downloaded bytes decode to. Relied on
/// below to be a function of the bytes alone; meaningful only where
/// `image_decodes` holds.
pub uninterp spec fn image_height_of(bytes: Seq<u8>) -> u32;

/// The ASCII-art HTML document rendered from the downloaded bytes, with the
/// fixed HTML conversion configuration. Relied on below to be a function of
/// the bytes alone; meaningful only where `image_decodes` holds and the
/// decoded pixel grid is not empty.
pub uninterp spec fn ascii_html_of(bytes: Seq<u8>) -> Seq<char>;

/// Relies on `image::load_from_memory`, which decodes the bytes by guessing
/// their format and depends on the bytes alone; hands back the decoded
/// image's pixel dimensions.
#[verifier::external_body]
fn decode_dims(bytes: &Vec<u8>) -> (r: Option<(u32, u32)>)
    ensures
        r matches Some(d) ==> image_decodes(bytes@) && d.0 == image_width_of(bytes@) && d.1
            == image_height_of(bytes@),
        r is None ==> !image_decodes(bytes@),
{
    match image::load_from_memory(bytes) {
        Ok(img) => Some((img.width(), img.height())),
        Err(_) => None,
    }
}

/// Relies on `image::load_from_memory` (as in `decode_dims`) and on
/// `artem::convert` with the fixed HTML-file target, which renders any
/// decoded image whose pixel grid is not empty and depends on the image and
/// that fixed configuration alone. An image with zero width or height is
/// excluded here — the converter's column sizing would divide by zero — and
/// the callers report it as a conversion failure instead. The HTML target
/// always emits the document's skeleton around the glyphs, so the result is
/// never empty.
#[verifier::external_body]
fn render_ascii_html(bytes: &Vec<u8>) -> (r: String)
    requires
        image_decodes(bytes@),
        image_width_of(bytes@) > 0,
        image_height_of(bytes@) > 0,
    ensures
        r@ == ascii_html_of(bytes@),
        r@.len() > 0,
{
    let img = image::load_from_memory(bytes).unwrap();
    artem::convert(
        img,
        &artem::config::ConfigBuilder::new().target(artem::config::TargetType::HtmlFile).build(),
    )
}

/// Turns the outcome of the image download into ASCII-art HTML.
///
/// A network failure and a non-2xx status are hard failures of their own
/// kinds; otherwise the body must decode as an image, which is then rendered
/// with the fixed HTML configuration. A decoded image the converter cannot
/// render — one with an empty pixel grid — is a conversion failure.
pub fn cat_art_from_fetch(fetch: FetchOutcome) -> (r: Result<String, PipelineError>)
    ensures
        fetch is NetworkFailure ==> r == Result::<String, PipelineError>::Err(
            PipelineError::Network,
        ),
        fetch matches FetchOutcome::Success { status, body } ==> {
            &&& !is_2xx(status) ==> r == Result::<String, PipelineError>::Err(
                PipelineError::UpstreamStatus(status),
            )
            &&& is_2xx(status) && !image_decodes(body@) ==> r == Result::<
                String,
                PipelineError,
            >::Err(PipelineError::Decode)
            &&& is_2xx(status) && image_decodes(body@) && (image_width_of(body@) == 0
                || image_height_of(body@) == 0) ==> r == Result::<String, PipelineError>::Err(
                PipelineError::Conversion,
            )
            &&& is_2xx(status) && image_decodes(body@) && image_width_of(body@) > 0
                && image_height_of(body@) > 0 ==> (r matches Ok(html) && html@ == ascii_html_of(
                body@,
            ) && html@.len() > 0)
        },
{
    match fetch {
        FetchOutcome::NetworkFailure => Err(PipelineError::Network),
        FetchOutcome::Success { status, body } => {
            if status < 200 || status > 299 {
                return Err(PipelineError::UpstreamStatus(status));
            }
            match decode_dims(&body) {
                None => Err(PipelineError::Decode),
                Some((w, h)) => {
                    if w == 0 || h == 0 {
                        Err(PipelineError::Conversion)
                    } else {
                        Ok(render_ascii_html(&body))
                    }
                },
            }
        },
    }
}

/// Picks the image to download, given the outcome of the metadata lookup.
///
/// A network failure and a non-2xx status are hard failures of their own
/// kinds; otherwise the body must be a metadata document, it must list at
/// least one image, and the last listed image's address is chosen.
pub fn cat_image_url_from_fetch(fetch: FetchOutcome) -> (r: Result<Vec<u8>, PipelineError>)
    ensures
        fetch is NetworkFailure ==> r == Result::<Vec<u8>, PipelineError>::Err(
            PipelineError::Network,
        ),
        fetch matches FetchOutcome::Success { status, body } ==> {
            &&& !is_2xx(status) ==> r == Result::<Vec<u8>, PipelineError>::Err(
                PipelineError::UpstreamStatus(status),
            )
            &&& is_2xx(status) ==> match metadata::metadata_urls(body@) {
                None => r == Result::<Vec<u8>, PipelineError>::Err(
                    PipelineError::InvalidMetadata,
                ),
                Some(urls) => if urls.len() == 0 {
                    r == Result::<Vec<u8>, PipelineError>::Err(PipelineError::EmptyResult)
                } else {
                    r matches Ok(u) && u@ == urls.last()
                },
            }
        },
{
    match fetch {
        FetchOutcome::NetworkFailure => Err(PipelineError::Network),
        FetchOutcome::Success { status, body } => {
            if status < 200 || status > 299 {
                return Err(PipelineError::UpstreamStatus(status));
            }
            let mut urls = match metadata::parse_metadata(body.as_slice()) {
                Some(us) => us,
                None => {
                    return Err(PipelineError::InvalidMetadata);
                },
            };
            match urls.pop() {
                Some(u) => Ok(u),
                None => Err(PipelineError::EmptyResult),
            }
        },
    }
}

/// Whether the whole pipeline is owed a success for this download outcome:
/// a 2xx status whose body decodes as an image the converter can render.
pub open spec fn fetch_succeeds(fetch: FetchOutcome) -> bool {
    fetch matches FetchOutcome::Success { status, body } && is_2xx(status) && image_decodes(
        body@,
    ) && image_width_of(body@) > 0 && image_height_of(body@) > 0
}

/// The document a successful pipeline run serves for this download outcome.
pub open spec fn fetch_art(fetch: FetchOutcome) -> Seq<char> {
    match fetch {
        FetchOutcome::Success { status, body } => ascii_html_of(body@),
        FetchOutcome::NetworkFailure => Seq::empty(),
    }
}

/// Handles one request end-to-end in the direct-download configuration,
/// given the outcome of the one outbound call: a 2xx download that decodes
/// as an image is answered with the ASCII-art HTML and status 200, and any
/// failure with the one fixed plaintext 500 response.
pub fn handle_request(fetch: FetchOutcome) -> (r: HttpResponse)
    ensures
        fetch_succeeds(fetch) ==> response::is_success_response(r, fetch_art(fetch))
            && r.body@.len() > 0,
        !fetch_succeeds(fetch) ==> response::is_failure_response(r),
{
    response::respond(cat_art_from_fetch(fetch))
}

} // verus!
