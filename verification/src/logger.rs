//! The leveled filter of the signal-safe logger.
//!
//! The log sink itself is a raw `write` to standard output owned by the
//! process-level shell; what the library decides is which records pass the
//! threshold and which color marks each level.
use vstd::prelude::*;

verus! {

/// A record's severity, least severe first.
#[derive(Clone, Copy, PartialEq, Eq, Structural, Debug)]
pub enum LogLevel {
    Trace,
    Debug,
    Info,
    Warn,
    Error,
}

/// Severity as a number: `Trace` is lowest, `Error` highest.
pub open spec fn spec_level_rank(level: LogLevel) -> int {
    match level {
        LogLevel::Trace => 0,
        LogLevel::Debug => 1,
        LogLevel::Info => 2,
        LogLevel::Warn => 3,
        LogLevel::Error => 4,
    }
}

/// Whether a record of severity `level` passes a sink whose threshold is
/// `threshold`: exactly the records at least as severe.
pub fn level_enabled(level: LogLevel, threshold: LogLevel) -> (r: bool)
    ensures
        r == (spec_level_rank(level) >= spec_level_rank(threshold)),
{
    let rank: u8 = match level {
        LogLevel::Trace => 0,
        LogLevel::Debug => 1,
        LogLevel::Info => 2,
        LogLevel::Warn => 3,
        LogLevel::Error => 4,
    };
    let gate: u8 = match threshold {
        LogLevel::Trace => 0,
        LogLevel::Debug => 1,
        LogLevel::Info => 2,
        LogLevel::Warn => 3,
        LogLevel::Error => 4,
    };
    rank >= gate
}

/// The terminal color escape the sink prefixes to a record of this level.
pub fn color_code(level: LogLevel) -> (s: &'static str)
    ensures
        level is Trace ==> s@ == "\u{1b}[36m"@,
        level is Debug ==> s@ == "\u{1b}[34m"@,
        level is Info ==> s@ == "\u{1b}[32m"@,
        level is Warn ==> s@ == "\u{1b}[33m"@,
        level is Error ==> s@ == "\u{1b}[31m"@,
{
    proof {
        reveal_strlit("\u{1b}[36m");
        reveal_strlit("\u{1b}[34m");
        reveal_strlit("\u{1b}[32m");
        reveal_strlit("\u{1b}[33m");
        reveal_strlit("\u{1b}[31m");
    }
    match level {
        LogLevel::Trace => "\u{1b}[36m",
        LogLevel::Debug => "\u{1b}[34m",
        LogLevel::Info => "\u{1b}[32m",
        LogLevel::Warn => "\u{1b}[33m",
        LogLevel::Error => "\u{1b}[31m",
    }
}

/// The escape that resets the color after a record.
pub fn color_reset() -> (s: &'static str)
    ensures
        s@ == "\u{1b}[0m"@,
{
    proof {
        reveal_strlit("\u{1b}[0m");
    }
    "\u{1b}[0m"
}

} // verus!
