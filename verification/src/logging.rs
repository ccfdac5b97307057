//! What a logging configuration asks of the logger.
use vstd::prelude::*;
use crate::config::LoggingConfig;
use crate::text::{str_equal, to_lowercase, lower_text};

verus! {

broadcast use vstd::string::group_string_axioms;

/// The most detailed level of records that are let through.
#[derive(Debug, Clone, Copy, PartialEq, Eq, Structural)]
pub enum LogLevel {
    Off,
    Error,
    Warn,
    Info,
    Debug,
    Trace,
}

/// The level a lower-case name stands for; unknown names mean `Info`.
pub open spec fn level_named(s: Seq<char>) -> LogLevel {
    if s == "trace"@ {
        LogLevel::Trace
    } else if s == "debug"@ {
        LogLevel::Debug
    } else if s == "info"@ {
        LogLevel::Info
    } else if s == "warn"@ {
        LogLevel::Warn
    } else if s == "error"@ {
        LogLevel::Error
    } else if s == "off"@ {
        LogLevel::Off
    } else {
        LogLevel::Info
    }
}

/// The level a configured name stands for, whatever its case.
pub fn parse_level(level: &str) -> (r: LogLevel)
    ensures
        r == level_named(lower_text(level@)),
{
    let l = to_lowercase(level);
    let s = l.as_str();
    if str_equal(s, "trace") {
        LogLevel::Trace
    } else if str_equal(s, "debug") {
        LogLevel::Debug
    } else if str_equal(s, "info") {
        LogLevel::Info
    } else if str_equal(s, "warn") {
        LogLevel::Warn
    } else if str_equal(s, "error") {
        LogLevel::Error
    } else if str_equal(s, "off") {
        LogLevel::Off
    } else {
        LogLevel::Info
    }
}

/// Where records go.
#[derive(Debug, Clone, PartialEq, Eq)]
pub enum LogTarget {
    File(String),
    Stdout,
    Stderr,
}

/// The level and the destination of the logger.
pub struct LoggerSettings {
    pub level: LogLevel,
    pub target: LogTarget,
}

/// The destination an output name and an optional file path ask for: a file
/// for `file` with a path, standard output for `stdout`, and standard error
/// otherwise (also for `file` without a path). The output name is read
/// whatever its case.
pub open spec fn target_spec(output: Seq<char>, file: Option<Seq<char>>, t: LogTarget) -> bool {
    let o = lower_text(output);
    if o == "file"@ {
        match file {
            Some(p) => t matches LogTarget::File(q) && q@ == p,
            None => t is Stderr,
        }
    } else if o == "stdout"@ {
        t is Stdout
    } else {
        t is Stderr
    }
}

/// The logger settings a logging configuration asks for; installing them is
/// left to the caller.
pub fn logger_settings(log_config: &LoggingConfig) -> (r: LoggerSettings)
    ensures
        r.level == level_named(lower_text(log_config.level@)),
        target_spec(
            log_config.output@,
            match log_config.file {
                Some(f) => Some(f@),
                None => None,
            },
            r.target,
        ),
{
    let level = parse_level(log_config.level.as_str());
    let o = to_lowercase(log_config.output.as_str());
    let target = if str_equal(o.as_str(), "file") {
        match &log_config.file {
            Some(p) => LogTarget::File(p.clone()),
            None => LogTarget::Stderr,
        }
    } else if str_equal(o.as_str(), "stdout") {
        LogTarget::Stdout
    } else {
        LogTarget::Stderr
    };
    LoggerSettings { level, target }
}

/// Where the plain logger writes: to the given file when the output name is
/// exactly `file` (case counts here) and a path is set; otherwise (`None`) to
/// the console.
pub fn plain_log_file(log_config: &LoggingConfig) -> (r: Option<String>)
    ensures
        match r {
            Some(p) => log_config.output@ == "file"@ && (log_config.file matches Some(f) && p@ == f@),
            None => log_config.output@ != "file"@ || log_config.file is None,
        },
{
    if str_equal(log_config.output.as_str(), "file") {
        match &log_config.file {
            Some(p) => Some(p.clone()),
            None => None,
        }
    } else {
        None
    }
}

} // verus!
