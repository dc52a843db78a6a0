//! The error taxonomy of the service.
//!
//! Every failure of the request pipeline is one of the variants below; the
//! response mapping collapses all of them to one uniform client-visible
//! failure, so the variants matter only for server-side logs.

use vstd::prelude::*;

verus! {

/// A failure of one stage of the request pipeline.
#[derive(Clone, Copy, Debug, PartialEq, Eq, Structural)]
pub enum PipelineError {
    /// An outbound call could not complete (timeout, DNS, connection refused).
    Network,
    /// An outbound call returned a non-2xx HTTP status.
    UpstreamStatus(u16),
    /// The metadata lookup returned a document this service cannot read.
    InvalidMetadata,
    /// The metadata lookup returned zero candidate images.
    EmptyResult,
    /// The downloaded bytes are not a valid image.
    Decode,
    /// The ASCII transform failed on a validly decoded image.
    Conversion,
}

impl PipelineError {
    /// The server-side log line for this failure. The client never sees it.
    pub fn message(&self) -> (r: String)
        ensures
            self is Network ==> r@ == "outbound call could not complete"@,
            self is UpstreamStatus ==> r@ == "outbound call returned a non-2xx status"@,
            self is InvalidMetadata ==> r@ == "image metadata could not be parsed"@,
            self is EmptyResult ==> r@ == "image metadata listed no images"@,
            self is Decode ==> r@ == "downloaded bytes are not a valid image"@,
            self is Conversion ==> r@ == "ASCII conversion failed"@,
    {
        match self {
            PipelineError::Network => String::from_str("outbound call could not complete"),
            PipelineError::UpstreamStatus(_) => String::from_str(
                "outbound call returned a non-2xx status",
            ),
            PipelineError::InvalidMetadata => String::from_str(
                "image metadata could not be parsed",
            ),
            PipelineError::EmptyResult => String::from_str("image metadata listed no images"),
            PipelineError::Decode => String::from_str("downloaded bytes are not a valid image"),
            PipelineError::Conversion => String::from_str("ASCII conversion failed"),
        }
    }
}

/// A failure of the startup configuration check: a required credential is
/// absent, so the process must abort before it binds its listening port.
#[derive(Clone, Copy, Debug, PartialEq, Eq, Structural)]
pub enum StartupError {
    /// The crash-reporting credential is not set.
    MissingCrashCredential,
    /// The tracing-backend credential is not set.
    MissingTracingCredential,
}

impl StartupError {
    /// The startup failure message printed before the process aborts.
    pub fn message(&self) -> (r: String)
        ensures
            self is MissingCrashCredential ==> r@
                == "the crash-reporting credential must be set"@,
            self is MissingTracingCredential ==> r@
                == "the tracing-backend credential must be set"@,
    {
        match self {
            StartupError::MissingCrashCredential => String::from_str(
                "the crash-reporting credential must be set",
            ),
            StartupError::MissingTracingCredential => String::from_str(
                "the tracing-backend credential must be set",
            ),
        }
    }
}

} // verus!
