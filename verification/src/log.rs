//! Log levels and the filtering decision of the logging sink.  The sink
//! itself prints outside the library; the library only decides what passes.

use vstd::prelude::*;

verus! {

/// Severity of a log line.
#[derive(Debug, Clone, Copy, PartialEq, Eq, Structural)]
pub enum LogLevel {
    Info,
    Warn,
    Error,
}

/// Default log level.
pub const LOG_LEVEL: LogLevel = LogLevel::Info;

/// The rank of a level: higher means more severe.
pub open spec fn level_num(l: LogLevel) -> u8 {
    match l {
        LogLevel::Info => 0,
        LogLevel::Warn => 1,
        LogLevel::Error => 2,
    }
}

impl LogLevel {
    /// The rank of this level.
    fn as_num(&self) -> (r: u8)
        ensures
            r == level_num(*self),
    {
        match self {
            LogLevel::Info => 0,
            LogLevel::Warn => 1,
            LogLevel::Error => 2,
        }
    }
}

/// A logging sink configured with a minimum level.
#[derive(Clone)]
pub struct Log<'a> {
    pub level: &'a LogLevel,
}

impl<'a> Log<'a> {
    /// A sink that passes everything at or above the given level.
    pub fn new(level: &LogLevel) -> (r: Log)
        ensures
            *r.level == *level,
    {
        Log { level }
    }

    /// Whether a line of the given severity passes the configured level.
    pub fn enabled(&self, level: LogLevel) -> (r: bool)
        ensures
            r == (level_num(*self.level) <= level_num(level)),
    {
        self.level.as_num() <= level.as_num()
    }
}

/// The severity of a relay read error: a reset peer is ordinary and logs
/// as information, anything else as an error.
pub fn relay_error_level(reset: bool) -> (r: LogLevel)
    ensures
        r == if reset {
            LogLevel::Info
        } else {
            LogLevel::Error
        },
{
    if reset {
        LogLevel::Info
    } else {
        LogLevel::Error
    }
}

} // verus!
