use vstd::prelude::*;

verus! {

/// Log levels in order of increasing severity.
#[derive(PartialEq, Eq, Structural, Clone, Copy, Debug)]
pub enum LogLevel {
    Trace,
    Debug,
    Info,
    Warning,
    Error,
    Fatal,
}

/// Position of a level in the severity order.
pub open spec fn severity(l: LogLevel) -> int {
    match l {
        LogLevel::Trace => 0,
        LogLevel::Debug => 1,
        LogLevel::Info => 2,
        LogLevel::Warning => 3,
        LogLevel::Error => 4,
        LogLevel::Fatal => 5,
    }
}

impl LogLevel {
    /// Position in the severity order, from 0 (`Trace`) to 5 (`Fatal`).
    pub fn rank(&self) -> (r: u8)
        ensures
            r == severity(*self),
    {
        match self {
            LogLevel::Trace => 0,
            LogLevel::Debug => 1,
            LogLevel::Info => 2,
            LogLevel::Warning => 3,
            LogLevel::Error => 4,
            LogLevel::Fatal => 5,
        }
    }

    /// The level's name as written in a log line.
    pub fn as_str(&self) -> (r: &'static str)
        ensures
            r@ == level_name(*self),
    {
        proof {
            reveal_strlit("TRACE");
            reveal_strlit("DEBUG");
            reveal_strlit("INFO");
            reveal_strlit("WARNING");
            reveal_strlit("ERROR");
            reveal_strlit("FATAL");
        }
        match self {
            LogLevel::Trace => "TRACE",
            LogLevel::Debug => "DEBUG",
            LogLevel::Info => "INFO",
            LogLevel::Warning => "WARNING",
            LogLevel::Error => "ERROR",
            LogLevel::Fatal => "FATAL",
        }
    }
}

/// The name of each level.
pub open spec fn level_name(l: LogLevel) -> Seq<char> {
    match l {
        LogLevel::Trace => "TRACE"@,
        LogLevel::Debug => "DEBUG"@,
        LogLevel::Info => "INFO"@,
        LogLevel::Warning => "WARNING"@,
        LogLevel::Error => "ERROR"@,
        LogLevel::Fatal => "FATAL"@,
    }
}

/// Where log lines go and the least severe level recorded.
pub struct LoggerConfig {
    pub log_file: String,
    pub min_level: LogLevel,
}

impl LoggerConfig {
    /// `logs/debug.log`, from `Debug` up.
    pub fn default() -> (r: Self)
        ensures
            r.log_file@ == "logs/debug.log"@,
            r.min_level == LogLevel::Debug,
    {
        LoggerConfig { log_file: "logs/debug.log".to_owned(), min_level: LogLevel::Debug }
    }

    /// `file_name`, from `Debug` up.
    pub fn with_file_name(file_name: &str) -> (r: Self)
        ensures
            r.log_file@ == file_name@,
            r.min_level == LogLevel::Debug,
    {
        LoggerConfig { log_file: file_name.to_owned(), min_level: LogLevel::Debug }
    }

    /// Whether a line of `level` is recorded: it is at least as severe as
    /// the minimum.
    pub fn allows(&self, level: LogLevel) -> (r: bool)
        ensures
            r == (severity(level) >= severity(self.min_level)),
    {
        level.rank() >= self.min_level.rank()
    }
}

} // verus!
