use catscii::error::StartupError;
use catscii::startup::build_startup_config;

#[test]
fn missing_crash_credential_aborts_startup() {
    let r = build_startup_config(
        Some(String::from("debug")),
        None,
        Some(String::from("SECRET-REDACTED")),
    );
    assert_eq!(r.unwrap_err(), StartupError::MissingCrashCredential);
}

#[test]
fn missing_both_credentials_reports_the_crash_one_first() {
    let r = build_startup_config(None, None, None);
    assert_eq!(r.unwrap_err(), StartupError::MissingCrashCredential);
}

#[test]
fn missing_tracing_credential_aborts_startup() {
    let r = build_startup_config(None, Some(String::from("SECRET-REDACTED")), None);
    assert_eq!(r.unwrap_err(), StartupError::MissingTracingCredential);
}

#[test]
fn complete_environment_starts_up() {
    let r = build_startup_config(
        Some(String::from("warn")),
        Some(String::from("SECRET-REDACTED")),
        Some(String::from("SECRET-REDACTED")),
    );
    let c = r.unwrap();
    assert_eq!(c.log_filter, "warn");
    assert_eq!(c.crash_dsn, "SECRET-REDACTED");
    assert_eq!(c.tracing_key, "SECRET-REDACTED");
}

#[test]
fn log_filter_defaults_to_info() {
    let r = build_startup_config(
        None,
        Some(String::from("SECRET-REDACTED")),
        Some(String::from("SECRET-REDACTED")),
    );
    assert_eq!(r.unwrap().log_filter, "info");
}

#[test]
fn startup_error_messages_name_the_missing_credential() {
    assert_eq!(
        StartupError::MissingCrashCredential.message(),
        "the crash-reporting credential must be set"
    );
    assert_eq!(
        StartupError::MissingTracingCredential.message(),
        "the tracing-backend credential must be set"
    );
}
