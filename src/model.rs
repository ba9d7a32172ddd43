//! Records, batches, queries, quota policy and the error taxonomy.

use vstd::prelude::*;
use vstd::string::*;
use crate::ext::{new_uuid, now_millis};
use crate::table::KeyedTable;
use crate::text::str_equal;

verus! {

/// Severity of a record.
#[derive(Clone, Copy, Debug, PartialEq, Eq, Structural)]
pub enum LogLevel {
    Debug,
    Info,
    Warn,
    Error,
}

/// The capitalised name of a level, as stored and sent on the wire.
pub open spec fn level_name(l: LogLevel) -> Seq<char> {
    match l {
        LogLevel::Debug => "Debug"@,
        LogLevel::Info => "Info"@,
        LogLevel::Warn => "Warn"@,
        LogLevel::Error => "Error"@,
    }
}

/// The level whose name is `s`, if any.
pub open spec fn level_named(s: Seq<char>) -> Option<LogLevel> {
    if s == "Debug"@ {
        Some(LogLevel::Debug)
    } else if s == "Info"@ {
        Some(LogLevel::Info)
    } else if s == "Warn"@ {
        Some(LogLevel::Warn)
    } else if s == "Error"@ {
        Some(LogLevel::Error)
    } else {
        None
    }
}

impl LogLevel {
    /// The level's name: `"Debug"`, `"Info"`, `"Warn"` or `"Error"`.
    pub fn name(&self) -> (r: &'static str)
        ensures
            r@ == level_name(*self),
    {
        match self {
            LogLevel::Debug => "Debug",
            LogLevel::Info => "Info",
            LogLevel::Warn => "Warn",
            LogLevel::Error => "Error",
        }
    }

    /// Reads a level from its name; any other text gives `None`.
    pub fn parse(s: &str) -> (r: Option<LogLevel>)
        ensures
            r == level_named(s@),
    {
        if str_equal(s, "Debug") {
            Some(LogLevel::Debug)
        } else if str_equal(s, "Info") {
            Some(LogLevel::Info)
        } else if str_equal(s, "Warn") {
            Some(LogLevel::Warn)
        } else if str_equal(s, "Error") {
            Some(LogLevel::Error)
        } else {
            None
        }
    }
}

/// String attributes of a record; keys are distinct.
pub type Attributes = KeyedTable<String>;

/// One log record. `timestamp` is in milliseconds since the Unix epoch, UTC.
#[derive(Debug)]
pub struct LogEntry {
    pub id: String,
    pub app_name: String,
    pub level: LogLevel,
    pub timestamp: i64,
    pub message: String,
    pub attributes: Attributes,
}

impl LogEntry {
    /// A record stamped with a fresh identifier and the current time.
    pub fn new(app_name: String, level: LogLevel, message: String, attributes: Attributes) -> (r:
        LogEntry)
        ensures
            r.app_name == app_name,
            r.level == level,
            r.message == message,
            r.attributes == attributes,
            r.id@.len() == 36,
    {
        LogEntry {
            id: new_uuid(),
            app_name,
            level,
            timestamp: now_millis(),
            message,
            attributes,
        }
    }
}

/// A group of records sent together, under one identifier.
#[derive(Debug)]
pub struct LogBatch {
    pub logs: Vec<LogEntry>,
    pub batch_id: String,
}

impl LogBatch {
    /// A batch of `logs`, in their order, under a fresh identifier.
    pub fn new(logs: Vec<LogEntry>) -> (r: LogBatch)
        ensures
            r.logs@ == logs@,
            r.batch_id@.len() == 36,
    {
        LogBatch { logs, batch_id: new_uuid() }
    }
}

/// A filter over stored records. Each present field is a condition; `from`
/// and `to` bound the timestamp inclusively; `limit` defaults to 100.
#[derive(Debug)]
pub struct SearchQuery {
    pub app_name: Option<String>,
    pub level: Option<LogLevel>,
    pub from: Option<i64>,
    pub to: Option<i64>,
    pub attributes: Option<Attributes>,
    pub limit: Option<usize>,
}

/// Rate ceiling of one application, in records per second.
#[derive(Debug)]
pub struct QuotaConfig {
    pub app_name: String,
    pub logs_per_second: u64,
}

/// Failures that the services report to their callers.
#[derive(Debug)]
pub enum LogSystemError {
    RateLimitExceeded(String),
    StorageError(String),
    NetworkError(String),
}

/// The human-readable text of an error.
pub open spec fn error_text(e: LogSystemError) -> Seq<char> {
    match e {
        LogSystemError::RateLimitExceeded(d) => "Rate limit exceeded: "@ + d@,
        LogSystemError::StorageError(d) => "Storage error: "@ + d@,
        LogSystemError::NetworkError(d) => "Network error: "@ + d@,
    }
}

impl LogSystemError {
    /// The error's message: its kind, a colon, and its detail.
    pub fn message(&self) -> (r: String)
        ensures
            r@ == error_text(*self),
    {
        match self {
            LogSystemError::RateLimitExceeded(d) => {
                let mut s = String::from_str("Rate limit exceeded: ");
                s.append(d.as_str());
                s
            },
            LogSystemError::StorageError(d) => {
                let mut s = String::from_str("Storage error: ");
                s.append(d.as_str());
                s
            },
            LogSystemError::NetworkError(d) => {
                let mut s = String::from_str("Network error: ");
                s.append(d.as_str());
                s
            },
        }
    }
}

impl LogSystemError {
    /// The HTTP status a service answers with for this error.
    pub fn status_code(&self) -> (r: u16)
        ensures
            self is RateLimitExceeded ==> r == 429,
            self is StorageError ==> r == 500,
            self is NetworkError ==> r == 503,
    {
        match self {
            LogSystemError::RateLimitExceeded(_) => 429,
            LogSystemError::StorageError(_) => 500,
            LogSystemError::NetworkError(_) => 503,
        }
    }
}

} // verus!
