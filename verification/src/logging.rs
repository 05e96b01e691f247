//! Log entries, and the bounded memory of the most recent ones.

use std::collections::VecDeque;
use vstd::prelude::*;

verus! {

/// How an entry is to be read.
#[derive(Clone, Copy, Debug, PartialEq, Eq, Structural)]
pub enum Level {
    Info,
    Success,
    Error,
    Debug,
}

/// The name of a level, as entries carry it.
pub open spec fn level_text(level: Level) -> Seq<char> {
    match level {
        Level::Info => "info"@,
        Level::Success => "success"@,
        Level::Error => "error"@,
        Level::Debug => "debug"@,
    }
}

impl Level {
    pub fn as_str(&self) -> (s: &'static str)
        ensures
            s@ == level_text(*self),
    {
        match self {
            Level::Info => "info",
            Level::Success => "success",
            Level::Error => "error",
            Level::Debug => "debug",
        }
    }
}

/// A message with its level, not yet stamped with a time and a source.
#[derive(Clone, Debug)]
pub struct LogLine {
    pub level: Level,
    pub message: String,
}

/// One entry of the log.
#[derive(Clone, Debug)]
pub struct LogEntry {
    pub timestamp: String,
    pub source: String,
    pub level: String,
    pub message: String,
}

impl LogEntry {
    /// The entry for `line`, from `source`, at the time that `timestamp`
    /// writes.
    pub fn stamp(timestamp: String, source: &str, line: &LogLine) -> (e: LogEntry)
        ensures
            e.timestamp == timestamp,
            e.source@ == source@,
            e.level@ == level_text(line.level),
            e.message@ == line.message@,
    {
        LogEntry {
            timestamp,
            source: source.to_owned(),
            level: line.level.as_str().to_owned(),
            message: line.message.clone(),
        }
    }
}

/// The recent entries after `entry` has come in: it stands first, and
/// where that makes more than `limit` entries, the oldest one leaves.
pub open spec fn remembered(recent: Seq<LogEntry>, entry: LogEntry, limit: int) -> Seq<LogEntry> {
    let all = seq![entry] + recent;
    if all.len() > limit {
        all.drop_last()
    } else {
        all
    }
}

/// Puts `entry` in front of the recent entries, newest first, and drops the
/// oldest one where there are then more than `limit`.
pub fn remember(recent: &mut VecDeque<LogEntry>, entry: LogEntry, limit: usize)
    ensures
        final(recent)@ == remembered(old(recent)@, entry, limit as int),
{
    recent.push_front(entry);
    if recent.len() > limit {
        let _ = recent.pop_back();
    }
}

/// A memory that holds no more than `limit` entries never grows beyond it.
pub proof fn lemma_remembered_bounded(recent: Seq<LogEntry>, entry: LogEntry, limit: int)
    requires
        recent.len() <= limit,
    ensures
        remembered(recent, entry, limit).len() <= limit,
        limit >= 1 ==> remembered(recent, entry, limit)[0] == entry,
        remembered(recent, entry, limit).len() <= recent.len() + 1,
{
}

} // verus!
