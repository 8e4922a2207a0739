//! The diagnostic-verbosity rules: which filter a run is configured with,
//! and which records pass a filter. Installing the process-wide logger that
//! honours these rules is the embedding program's job.

use vstd::prelude::*;

verus! {

/// The severity of a diagnostic record, most severe first.
#[derive(Clone, Copy, Debug, PartialEq, Eq, Structural)]
pub enum LogLevel {
    Error,
    Warn,
    Info,
    Debug,
    Trace,
}

/// The position of a level in the severity order: more verbose levels rank
/// higher.
pub open spec fn level_rank(l: LogLevel) -> nat {
    match l {
        LogLevel::Error => 0,
        LogLevel::Warn => 1,
        LogLevel::Info => 2,
        LogLevel::Debug => 3,
        LogLevel::Trace => 4,
    }
}

fn rank_of(l: LogLevel) -> (r: u8)
    ensures
        r as nat == level_rank(l),
{
    match l {
        LogLevel::Error => 0,
        LogLevel::Warn => 1,
        LogLevel::Info => 2,
        LogLevel::Debug => 3,
        LogLevel::Trace => 4,
    }
}

/// Chooses the process-wide log filter: everything up to `Trace` in debug
/// mode, up to `Warn` otherwise. The caller installs a logger that emits a
/// record exactly when `log_enabled` allows it under this filter.
pub fn configure_logging(debug: bool) -> (r: LogLevel)
    ensures
        r == (if debug {
            LogLevel::Trace
        } else {
            LogLevel::Warn
        }),
{
    if debug {
        LogLevel::Trace
    } else {
        LogLevel::Warn
    }
}

/// Whether a record at `level` passes the filter `max`.
pub fn log_enabled(max: LogLevel, level: LogLevel) -> (r: bool)
    ensures
        r == (level_rank(level) <= level_rank(max)),
{
    rank_of(level) <= rank_of(max)
}

} // verus!
