//! libplacebo log levels, log parameters and log handles.
use vstd::prelude::*;

verus! {

/// Raw libplacebo log level values (`enum pl_log_level`).
pub const PL_LOG_NONE: u32 = 0;
pub const PL_LOG_FATAL: u32 = 1;
pub const PL_LOG_ERR: u32 = 2;
pub const PL_LOG_WARN: u32 = 3;
pub const PL_LOG_INFO: u32 = 4;
pub const PL_LOG_DEBUG: u32 = 5;
pub const PL_LOG_TRACE: u32 = 6;

/// Verbosity of libplacebo's log output, from silent to the most verbose.
#[derive(Debug, Clone, Copy, PartialEq, Eq, Structural, PartialOrd, Ord)]
pub enum LogLevel {
    Quiet,
    Fatal,
    Error,
    Warn,
    Info,
    Debug,
    Trace,
}

/// The raw value that libplacebo uses for a level.
pub open spec fn raw_level(level: LogLevel) -> u32 {
    match level {
        LogLevel::Quiet => PL_LOG_NONE,
        LogLevel::Fatal => PL_LOG_FATAL,
        LogLevel::Error => PL_LOG_ERR,
        LogLevel::Warn => PL_LOG_WARN,
        LogLevel::Info => PL_LOG_INFO,
        LogLevel::Debug => PL_LOG_DEBUG,
        LogLevel::Trace => PL_LOG_TRACE,
    }
}

/// The level that a raw value names, if it names one.
pub open spec fn level_of_raw(raw: u32) -> Option<LogLevel> {
    if raw == PL_LOG_NONE {
        Some(LogLevel::Quiet)
    } else if raw == PL_LOG_FATAL {
        Some(LogLevel::Fatal)
    } else if raw == PL_LOG_ERR {
        Some(LogLevel::Error)
    } else if raw == PL_LOG_WARN {
        Some(LogLevel::Warn)
    } else if raw == PL_LOG_INFO {
        Some(LogLevel::Info)
    } else if raw == PL_LOG_DEBUG {
        Some(LogLevel::Debug)
    } else if raw == PL_LOG_TRACE {
        Some(LogLevel::Trace)
    } else {
        None
    }
}

impl LogLevel {
    /// The most verbose level: every message is logged.
    pub const ALL: LogLevel = LogLevel::Trace;

    /// Converts a raw libplacebo level; `None` for a value that names no level.
    pub fn from_raw(level: u32) -> (r: Option<LogLevel>)
        ensures
            r == level_of_raw(level),
            r.is_some() <==> level <= PL_LOG_TRACE,
    {
        match level {
            PL_LOG_NONE => Some(LogLevel::Quiet),
            PL_LOG_FATAL => Some(LogLevel::Fatal),
            PL_LOG_ERR => Some(LogLevel::Error),
            PL_LOG_WARN => Some(LogLevel::Warn),
            PL_LOG_INFO => Some(LogLevel::Info),
            PL_LOG_DEBUG => Some(LogLevel::Debug),
            PL_LOG_TRACE => Some(LogLevel::Trace),
            _ => None,
        }
    }

    /// The raw libplacebo value of this level.
    pub fn as_raw(self) -> (r: u32)
        ensures
            r == raw_level(self),
    {
        match self {
            LogLevel::Quiet => PL_LOG_NONE,
            LogLevel::Fatal => PL_LOG_FATAL,
            LogLevel::Error => PL_LOG_ERR,
            LogLevel::Warn => PL_LOG_WARN,
            LogLevel::Info => PL_LOG_INFO,
            LogLevel::Debug => PL_LOG_DEBUG,
            LogLevel::Trace => PL_LOG_TRACE,
        }
    }
}

impl Default for LogLevel {
    /// Logging is off unless asked for.
    fn default() -> (r: LogLevel)
        ensures
            r == LogLevel::Quiet,
    {
        LogLevel::Quiet
    }
}

/// Converting a level to its raw value and back gives the level again.
pub proof fn log_level_round_trip(level: LogLevel)
    ensures
        level_of_raw(raw_level(level)) == Some(level),
{
}

/// A raw value that names a level is that level's raw value.
pub proof fn raw_log_level_round_trip(raw: u32)
    ensures
        level_of_raw(raw) matches Some(level) ==> raw_level(level) == raw,
{
}

/// `ALL` is the most verbose level: its raw value is the largest.
pub proof fn log_level_all_is_most_verbose(level: LogLevel)
    ensures
        raw_level(LogLevel::ALL) >= raw_level(level),
        raw_level(LogLevel::ALL) == PL_LOG_TRACE,
{
}

/// How loudly the application reports a libplacebo message.
#[derive(Debug, Clone, Copy, PartialEq, Eq, Structural)]
pub enum Severity {
    Error,
    Warn,
    Info,
    Debug,
    Trace,
}

/// The severity a message of each level is reported with; none for `Quiet`.
pub open spec fn severity_of(level: LogLevel) -> Option<Severity> {
    match level {
        LogLevel::Quiet => None,
        LogLevel::Fatal => Some(Severity::Error),
        LogLevel::Error => Some(Severity::Error),
        LogLevel::Warn => Some(Severity::Warn),
        LogLevel::Info => Some(Severity::Info),
        LogLevel::Debug => Some(Severity::Debug),
        LogLevel::Trace => Some(Severity::Trace),
    }
}

impl LogLevel {
    /// The severity a libplacebo message of this level is reported with:
    /// fatal messages and errors as errors, the others as their own level,
    /// and messages of level `Quiet` not at all.
    pub fn severity(self) -> (r: Option<Severity>)
        ensures
            r == severity_of(self),
    {
        match self {
            LogLevel::Quiet => None,
            LogLevel::Fatal | LogLevel::Error => Some(Severity::Error),
            LogLevel::Warn => Some(Severity::Warn),
            LogLevel::Info => Some(Severity::Info),
            LogLevel::Debug => Some(Severity::Debug),
            LogLevel::Trace => Some(Severity::Trace),
        }
    }
}

/// What a libplacebo log is made with: how verbose it is and where its
/// messages go.
pub struct LogParams<F> {
    pub level: LogLevel,
    pub callback: F,
}

impl<F> LogParams<F> {
    /// The raw level the log is created with (`pl_log_params::log_level`).
    pub fn raw_level(&self) -> (r: u32)
        ensures
            r == raw_level(self.level),
    {
        self.level.as_raw()
    }
}

/// A libplacebo log (`pl_log`); a null handle logs nothing.
#[derive(Debug, Clone, Copy, PartialEq, Eq, Structural)]
pub struct Log {
    /// Address of the `pl_log`.
    pub handle: usize,
}

impl Log {
    /// The log's `pl_log` handle.
    pub fn handle(&self) -> (r: usize)
        ensures
            r == self.handle,
    {
        self.handle
    }

    /// A log for an existing `pl_log` handle.
    pub fn from_raw(handle: usize) -> (r: Log)
        ensures
            r.handle == handle,
    {
        Log { handle }
    }
}

impl Default for Log {
    /// The null log.
    fn default() -> (r: Log)
        ensures
            r.handle == 0,
    {
        Log::from_raw(0)
    }
}

} // verus!
