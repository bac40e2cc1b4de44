use vstd::prelude::*;

verus! {

/// Verbosity levels, from quietest to noisiest.
#[derive(Clone, Copy, PartialEq, Eq, Structural, Debug)]
pub enum LogLevel {
    Error,
    Warn,
    Info,
    Debug,
    Trace,
}

/// Maps a count of verbosity flags to a level: zero is errors only,
/// each extra flag raises the level, four or more mean everything.
pub fn parse_log_level(n: u64) -> (r: LogLevel)
    ensures
        r == (if n == 0 {
            LogLevel::Error
        } else if n == 1 {
            LogLevel::Warn
        } else if n == 2 {
            LogLevel::Info
        } else if n == 3 {
            LogLevel::Debug
        } else {
            LogLevel::Trace
        }),
{
    match n {
        0 => LogLevel::Error,
        1 => LogLevel::Warn,
        2 => LogLevel::Info,
        3 => LogLevel::Debug,
        _ => LogLevel::Trace,
    }
}

} // verus!
