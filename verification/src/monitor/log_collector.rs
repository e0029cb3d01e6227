//! Log entries.
use vstd::prelude::*;

use crate::monitor::labels::Labels;

verus! {

/// Something that happened to a processor.
#[derive(Debug)]
pub struct LogEntry {
    pub timestamp: i64,
    pub level: String,
    pub stage: String,
    pub message: String,
    pub labels: Labels,
}

/// What a log entry says.
pub struct LogRecord {
    pub timestamp: i64,
    pub level: Seq<char>,
    pub stage: Seq<char>,
    pub message: Seq<char>,
    pub labels: Map<Seq<char>, String>,
}

impl View for LogEntry {
    type V = LogRecord;

    open spec fn view(&self) -> LogRecord {
        LogRecord {
            timestamp: self.timestamp,
            level: self.level@,
            stage: self.stage@,
            message: self.message@,
            labels: self.labels@,
        }
    }
}

/// The entries of a level, in their order.
pub open spec fn of_level(logs: Seq<LogRecord>, level: Seq<char>) -> Seq<LogRecord>
    decreases logs.len(),
{
    if logs.len() == 0 {
        Seq::empty()
    } else {
        let before = of_level(logs.drop_last(), level);
        if logs.last().level == level {
            before.push(logs.last())
        } else {
            before
        }
    }
}

} // verus!
