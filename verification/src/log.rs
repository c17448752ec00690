//! Log entries.
use vstd::prelude::*;
use std::time::SystemTime;

verus! {

/// A point in time of the system clock (`std::time::SystemTime`), carried through
/// unread.
#[verifier::external_type_specification]
#[verifier::external_body]
pub struct ExSystemTime(SystemTime);

/// The present time of the system clock (`SystemTime::now`); nothing is stated of it.
#[verifier::external_body]
fn system_time_now() -> (r: SystemTime) {
    SystemTime::now()
}

/// How serious a log entry is.
#[derive(Debug, Clone, Copy, PartialEq, Eq, Structural)]
pub enum LogLevel {
    Error,
    Warn,
    Info,
    Debug,
}

impl LogLevel {
    /// The name of a level as it is printed.
    pub open spec fn name(self) -> Seq<char> {
        match self {
            LogLevel::Error => "ERROR"@,
            LogLevel::Warn => "WARN"@,
            LogLevel::Info => "INFO"@,
            LogLevel::Debug => "DEBUG"@,
        }
    }

    /// The name of the level: `ERROR`, `WARN`, `INFO` or `DEBUG`.
    pub fn as_str(&self) -> (r: &'static str)
        ensures
            r@ == self.name(),
    {
        match self {
            LogLevel::Error => "ERROR",
            LogLevel::Warn => "WARN",
            LogLevel::Info => "INFO",
            LogLevel::Debug => "DEBUG",
        }
    }
}

/// A log entry: level, message and the time it was made.
pub struct LogEntry {
    log_level: LogLevel,
    message: String,
    timestamp: SystemTime,
}

impl LogEntry {
    /// The level.
    pub closed spec fn level_view(&self) -> LogLevel {
        self.log_level
    }

    /// The message.
    pub closed spec fn message_view(&self) -> Seq<char> {
        self.message@
    }

    /// The time of making.
    pub closed spec fn timestamp_view(&self) -> SystemTime {
        self.timestamp
    }

    /// An `INFO` entry with the message "No message provided", stamped `timestamp`.
    pub fn new_at(timestamp: SystemTime) -> (r: Self)
        ensures
            r.level_view() == LogLevel::Info,
            r.message_view() == "No message provided"@,
            r.timestamp_view() == timestamp,
    {
        LogEntry { log_level: LogLevel::Info, message: "No message provided".to_owned(), timestamp }
    }

    /// An `INFO` entry with the message "No message provided", stamped with the
    /// system clock's reading at the call (`new_at` of that reading).
    pub fn new() -> (r: Self)
        ensures
            r.level_view() == LogLevel::Info,
            r.message_view() == "No message provided"@,
    {
        LogEntry::new_at(system_time_now())
    }

    /// The entry with its level replaced.
    pub fn set_level(self, level: LogLevel) -> (r: Self)
        ensures
            r.level_view() == level,
            r.message_view() == self.message_view(),
            r.timestamp_view() == self.timestamp_view(),
    {
        let mut entry = self;
        entry.log_level = level;
        entry
    }

    /// The entry with its message replaced.
    pub fn set_message(self, msg: String) -> (r: Self)
        ensures
            r.message_view() == msg@,
            r.level_view() == self.level_view(),
            r.timestamp_view() == self.timestamp_view(),
    {
        let mut entry = self;
        entry.message = msg;
        entry
    }

    /// The level.
    pub fn level(&self) -> (r: LogLevel)
        ensures
            r == self.level_view(),
    {
        self.log_level
    }

    /// The message.
    pub fn message(&self) -> (r: &String)
        ensures
            r@ == self.message_view(),
    {
        &self.message
    }

    /// The time of making.
    pub fn timestamp(&self) -> (r: &SystemTime)
        ensures
            *r == self.timestamp_view(),
    {
        &self.timestamp
    }
}


/// Distinct levels have distinct names.
pub proof fn lemma_level_names_distinct(a: LogLevel, b: LogLevel)
    ensures
        a != b ==> a.name() != b.name(),
{
    reveal_strlit("ERROR");
    reveal_strlit("WARN");
    reveal_strlit("INFO");
    reveal_strlit("DEBUG");
    if a != b {
        assert(a.name().len() != b.name().len() || a.name()[0] != b.name()[0]);
    }
}


/// The level a printed name stands for.
pub open spec fn level_of_name(n: Seq<char>) -> Option<LogLevel> {
    if n == "ERROR"@ {
        Some(LogLevel::Error)
    } else if n == "WARN"@ {
        Some(LogLevel::Warn)
    } else if n == "INFO"@ {
        Some(LogLevel::Info)
    } else if n == "DEBUG"@ {
        Some(LogLevel::Debug)
    } else {
        None
    }
}

/// A level's printed name reads back as the level.
pub proof fn lemma_level_name_reads_back(a: LogLevel)
    ensures
        level_of_name(a.name()) == Some(a),
{
    reveal_strlit("ERROR");
    reveal_strlit("WARN");
    reveal_strlit("INFO");
    reveal_strlit("DEBUG");
    assert("ERROR"@.len() == 5 && "ERROR"@[0] == 'E');
    assert("WARN"@.len() == 4 && "WARN"@[0] == 'W');
    assert("INFO"@.len() == 4 && "INFO"@[0] == 'I');
    assert("DEBUG"@.len() == 5 && "DEBUG"@[0] == 'D');
}

} // verus!
