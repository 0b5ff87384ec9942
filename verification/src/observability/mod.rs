//! Logging configuration read from the environment.
use vstd::prelude::*;
use crate::error::{RagloomError, RagloomErrorKind};
use crate::text::{owned, str_eq, trim_owned, trimmed};

verus! {

/// Log output format.
#[derive(Debug, Copy, Clone, Eq, PartialEq, Structural)]
pub enum LogFormat {
    Pretty,
    Json,
}

/// The environment variables that configure logging.
#[derive(Debug, Clone)]
pub struct EnvConfig {
    pub log_format: Option<String>,
    pub log_filter: Option<String>,
}

impl Default for EnvConfig {
    fn default() -> (e: Self)
        ensures
            e.log_format is None,
            e.log_filter is None,
    {
        EnvConfig { log_format: None, log_filter: None }
    }
}

/// Logging configuration.
#[derive(Debug, Clone, Eq, PartialEq)]
pub struct ObservabilityConfig {
    pub format: LogFormat,
    pub filter_directives: String,
}

/// The filter directives in effect: the configured ones (default `info`),
/// trimmed.
pub open spec fn effective_filter(env: EnvConfig) -> Seq<char> {
    filter_value(env.log_filter)
}

pub open spec fn filter_value(f: Option<String>) -> Seq<char> {
    match f {
        Some(f) => trimmed(f@),
        None => "info"@,
    }
}

/// Whether the environment selects a known format (or none).
pub open spec fn format_known(env: EnvConfig) -> bool {
    format_value_known(env.log_format)
}

pub open spec fn format_value_known(f: Option<String>) -> bool {
    match f {
        None => true,
        Some(f) => f@ == "pretty"@ || f@ == "json"@,
    }
}

pub open spec fn format_of(env: EnvConfig) -> LogFormat {
    format_value(env.log_format)
}

pub open spec fn format_value(f: Option<String>) -> LogFormat {
    match f {
        Some(f) => if f@ == "json"@ { LogFormat::Json } else { LogFormat::Pretty },
        None => LogFormat::Pretty,
    }
}

fn parse_format(f: &Option<String>) -> (r: Result<LogFormat, RagloomError>)
    ensures
        r matches Ok(x) ==> x == format_value(*f),
        r is Ok <==> format_value_known(*f),
        r matches Err(e) ==> e.kind == RagloomErrorKind::Config && e.contexts@.len() == 1
            && e.contexts@[0]@ == "invalid RAGLOOM_LOG_FORMAT: "@ + f->Some_0@ + " (expected: pretty|json)"@,
{
    match f {
        None => Ok(LogFormat::Pretty),
        Some(f) => {
            if str_eq(f.as_str(), "pretty") {
                proof {
                    reveal_strlit("pretty");
                    reveal_strlit("json");
                    assert("pretty"@[0] != "json"@[0]);
                }
                Ok(LogFormat::Pretty)
            } else if str_eq(f.as_str(), "json") {
                Ok(LogFormat::Json)
            } else {
                let mut m = String::new();
                m.push_str("invalid RAGLOOM_LOG_FORMAT: ");
                m.push_str(f.as_str());
                m.push_str(" (expected: pretty|json)");
                proof {
                    assert(Seq::<char>::empty() + "invalid RAGLOOM_LOG_FORMAT: "@ =~= "invalid RAGLOOM_LOG_FORMAT: "@);
                }
                Err(RagloomError::from_kind(RagloomErrorKind::Config).with_context(m))
            }
        },
    }
}

fn filter_of(f: &Option<String>) -> (r: String)
    ensures
        r@ == filter_value(*f),
{
    match f {
        Some(f) => trim_owned(f.as_str()),
        None => owned("info"),
    }
}

impl ObservabilityConfig {
    /// Reads the configuration: an unknown format or blank filter directives
    /// are `Config` errors.
    pub fn try_from_env(env: EnvConfig) -> (r: Result<Self, RagloomError>)
        ensures
            r is Ok <==> format_known(env) && effective_filter(env).len() > 0,
            r matches Ok(c) ==> c.format == format_of(env) && c.filter_directives@ == effective_filter(env),
            r matches Err(e) ==> e.kind == RagloomErrorKind::Config && e.contexts@.len() == 1
                && (!format_known(env) ==> e.contexts@[0]@ == "invalid RAGLOOM_LOG_FORMAT: "@ + env.log_format->Some_0@
                    + " (expected: pretty|json)"@)
                && (format_known(env) ==> e.contexts@[0]@ == "RAGLOOM_LOG is empty"@),
    {
        let format = match parse_format(&env.log_format) {
            Ok(x) => x,
            Err(e) => return Err(e),
        };
        let filter_directives = filter_of(&env.log_filter);
        if filter_directives.as_str().is_empty() {
            return Err(RagloomError::from_kind(RagloomErrorKind::Config).with_context(owned("RAGLOOM_LOG is empty")));
        }
        Ok(ObservabilityConfig { format, filter_directives })
    }

    /// Reads the configuration, falling back to pretty `info` logging when
    /// the environment is invalid.
    pub fn from_env(env: EnvConfig) -> (c: Self)
        ensures
            format_known(env) && effective_filter(env).len() > 0 ==> c.format == format_of(env)
                && c.filter_directives@ == effective_filter(env),
            !(format_known(env) && effective_filter(env).len() > 0) ==> c.format == LogFormat::Pretty
                && c.filter_directives@ == "info"@,
    {
        match ObservabilityConfig::try_from_env(env) {
            Ok(c) => c,
            Err(_) => ObservabilityConfig { format: LogFormat::Pretty, filter_directives: owned("info") },
        }
    }
}

} // verus!
