use ragloom::observability::{EnvConfig, LogFormat, ObservabilityConfig};
use ragloom::RagloomErrorKind;

#[test]
fn log_format_defaults_to_pretty() {
    let env = EnvConfig { log_format: None, log_filter: None };
    let cfg = ObservabilityConfig::from_env(env);
    assert_eq!(cfg.format, LogFormat::Pretty);
}

#[test]
fn log_filter_defaults_to_info() {
    let env = EnvConfig { log_format: None, log_filter: None };
    let cfg = ObservabilityConfig::from_env(env);
    assert_eq!(cfg.filter_directives, "info".to_string());
}

#[test]
fn accepts_json_format() {
    let env = EnvConfig { log_format: Some("json".to_string()), log_filter: None };
    let cfg = ObservabilityConfig::from_env(env);
    assert_eq!(cfg.format, LogFormat::Json);
}

#[test]
fn rejects_unknown_format() {
    let env = EnvConfig { log_format: Some("wat".to_string()), log_filter: None };
    let err = ObservabilityConfig::try_from_env(env).expect_err("expected error");
    assert_eq!(err.kind, RagloomErrorKind::Config);
    assert!(err.message().contains("RAGLOOM_LOG_FORMAT"));
}

#[test]
fn filter_directives_are_trimmed() {
    let env = EnvConfig { log_format: Some("json".to_string()), log_filter: Some("  debug ".to_string()) };
    let cfg = ObservabilityConfig::try_from_env(env).expect("config");
    assert_eq!(cfg.format, LogFormat::Json);
    assert_eq!(cfg.filter_directives, "debug");
}

#[test]
fn blank_filter_is_rejected() {
    let env = EnvConfig { log_format: None, log_filter: Some("   ".to_string()) };
    let err = ObservabilityConfig::try_from_env(env).expect_err("blank filter");
    assert_eq!(err.kind, RagloomErrorKind::Config);
    assert_eq!(err.contexts, vec!["RAGLOOM_LOG is empty".to_string()]);
}

#[test]
fn padded_format_is_rejected() {
    let env = EnvConfig { log_format: Some(" json ".to_string()), log_filter: None };
    let err = ObservabilityConfig::try_from_env(env).expect_err("padded format");
    assert_eq!(err.message(), "config: invalid RAGLOOM_LOG_FORMAT:  json  (expected: pretty|json)");
}

#[test]
fn blank_filter_falls_back_to_info() {
    let env = EnvConfig { log_format: None, log_filter: Some("   ".to_string()) };
    let cfg = ObservabilityConfig::from_env(env);
    assert_eq!(cfg.filter_directives, "info");
}

#[test]
fn unknown_format_falls_back_to_pretty_when_infallible() {
    let env = EnvConfig { log_format: Some("xml".to_string()), log_filter: None };
    let cfg = ObservabilityConfig::from_env(env);
    assert_eq!(cfg.format, LogFormat::Pretty);
}
