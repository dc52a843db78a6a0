//! The startup configuration contract.
//!
//! The process needs a crash-reporting credential and a tracing-backend
//! credential; without either it must abort before binding its listening
//! port. The logging filter is optional and defaults to `info`.

use vstd::prelude::*;

use crate::error::StartupError;

verus! {

/// Everything the service needs before it may bind its port, gathered into
/// one explicit object rather than ambient global state.
#[derive(Debug)]
pub struct StartupConfig {
    /// The logging-filter specification.
    pub log_filter: String,
    /// The crash-reporting service credential.
    pub crash_dsn: String,
    /// The tracing-backend credential.
    pub tracing_key: String,
}

/// Checks the startup environment, given as plain optional values.
///
/// The crash-reporting credential is checked first, then the tracing
/// credential; a missing one aborts startup. A missing logging filter is not
/// an error: it defaults to `info`.
pub fn build_startup_config(
    log_filter: Option<String>,
    crash_dsn: Option<String>,
    tracing_key: Option<String>,
) -> (r: Result<StartupConfig, StartupError>)
    ensures
        crash_dsn is None ==> r == Result::<StartupConfig, StartupError>::Err(
            StartupError::MissingCrashCredential,
        ),
        crash_dsn is Some && tracing_key is None ==> r == Result::<
            StartupConfig,
            StartupError,
        >::Err(StartupError::MissingTracingCredential),
        crash_dsn is Some && tracing_key is Some ==> (r matches Ok(c) && {
            &&& c.crash_dsn@ == crash_dsn->0@
            &&& c.tracing_key@ == tracing_key->0@
            &&& c.log_filter@ == if log_filter is Some {
                log_filter->0@
            } else {
                "info"@
            }
        }),
{
    let dsn = match crash_dsn {
        Some(d) => d,
        None => {
            return Err(StartupError::MissingCrashCredential);
        },
    };
    let key = match tracing_key {
        Some(k) => k,
        None => {
            return Err(StartupError::MissingTracingCredential);
        },
    };
    let filter = match log_filter {
        Some(f) => f,
        None => String::from_str("info"),
    };
    Ok(StartupConfig { log_filter: filter, crash_dsn: dsn, tracing_key: key })
}

} // verus!
