//! Logging configuration: its vocabulary and how its settings are read
//! from text.

use vstd::prelude::*;
use vstd::string::*;
use crate::text::{is_word, normalize, normalized};

verus! {

/// The error of installing a second global subscriber; carried through.
#[verifier::external_type_specification]
#[verifier::external_body]
pub struct ExSetGlobalDefaultError(tracing::subscriber::SetGlobalDefaultError);

#[derive(Debug, Clone, Copy, PartialEq, Eq, Structural)]
pub enum LogFormat {
    Json,
    Pretty,
}

#[derive(Debug, Clone, PartialEq, Eq)]
pub struct LoggingConfig {
    pub level: String,
    pub format: LogFormat,
    pub include_target: bool,
}

impl Default for LoggingConfig {
    fn default() -> (cfg: Self)
        ensures
            cfg.level@ == "info"@,
            cfg.format == LogFormat::Pretty,
            cfg.include_target,
    {
        LoggingConfig { level: "info".to_string(), format: LogFormat::Pretty, include_target: true }
    }
}

#[derive(Debug)]
pub enum LoggingInitError {
    AlreadyInitialized(tracing::subscriber::SetGlobalDefaultError),
}

pub open spec fn log_format_spec(raw: Seq<char>) -> Option<LogFormat> {
    if normalized(raw) == "json"@ {
        Some(LogFormat::Json)
    } else if normalized(raw) == "pretty"@ {
        Some(LogFormat::Pretty)
    } else {
        None
    }
}

/// Reads a log format: `json` or `pretty`, without regard to case or to
/// surrounding white space.
pub fn parse_log_format(raw: &str) -> (r: Option<LogFormat>)
    ensures
        r == log_format_spec(raw@),
{
    let norm = normalize(raw);
    if is_word(&norm, "json") {
        Some(LogFormat::Json)
    } else if is_word(&norm, "pretty") {
        Some(LogFormat::Pretty)
    } else {
        None
    }
}

pub open spec fn bool_spec(raw: Seq<char>) -> Option<bool> {
    let n = normalized(raw);
    if n == "1"@ || n == "true"@ || n == "yes"@ || n == "on"@ {
        Some(true)
    } else if n == "0"@ || n == "false"@ || n == "no"@ || n == "off"@ {
        Some(false)
    } else {
        None
    }
}

/// Reads a switch: `1`, `true`, `yes` and `on` are on; `0`, `false`, `no`
/// and `off` are off; without regard to case or to surrounding white space.
pub fn parse_bool(raw: &str) -> (r: Option<bool>)
    ensures
        r == bool_spec(raw@),
{
    let norm = normalize(raw);
    if is_word(&norm, "1") || is_word(&norm, "true") || is_word(&norm, "yes") || is_word(
        &norm,
        "on",
    ) {
        Some(true)
    } else if is_word(&norm, "0") || is_word(&norm, "false") || is_word(&norm, "no") || is_word(
        &norm,
        "off",
    ) {
        Some(false)
    } else {
        None
    }
}

} // verus!
