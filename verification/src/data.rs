//! The entry: one named interval of the log.

use crate::record::Record;
use crate::time::Timestamp;
use vstd::prelude::*;

verus! {

/// One interval of time spent on a named activity. An entry without an end is
/// still running.
#[derive(Debug, Clone, PartialEq, Eq)]
pub struct Entry {
    pub id: usize,
    pub start: Timestamp,
    pub end: Option<Timestamp>,
    pub name: String,
}

/// The end of an interval as the model has it.
pub open spec fn end_view(end: Option<Timestamp>) -> Option<int> {
    match end {
        Some(t) => Some(t@),
        None => None,
    }
}

impl View for Entry {
    type V = Record;

    open spec fn view(&self) -> Record {
        Record { id: self.id as int, start: self.start@, end: end_view(self.end), label: self.name@ }
    }
}

/// The rows of a vector of entries, as the model has them.
pub open spec fn records(entries: Seq<Entry>) -> Seq<Record> {
    entries.map_values(|e: Entry| e@)
}

impl Entry {
    /// An entry that starts at `start` and is still running. Its id is 0 until
    /// a store assigns one.
    pub fn starting_at(name: String, start: Timestamp) -> (e: Entry)
        ensures
            e@ == (Record { id: 0, start: start@, end: None, label: name@ }),
    {
        Entry { id: 0, start, end: None, name }
    }

    /// An entry that starts now and is still running. Its id is 0 until a
    /// store assigns one.
    pub fn new(name: String) -> (e: Entry)
        ensures
            e.id == 0,
            e.end is None,
            e.name@ == name@,
    {
        let start = Timestamp::now();
        Entry::starting_at(name, start)
    }

    /// A copy of the entry.
    pub fn duplicate(&self) -> (e: Entry)
        ensures
            e == *self,
    {
        Entry { id: self.id, start: self.start, end: self.end, name: self.name.clone() }
    }

    /// The seconds spent on the entry: up to its end, or up to `now` while it
    /// is still running.
    pub fn duration(&self, now: Timestamp) -> (d: i128)
        ensures
            d == self@.elapsed(now@),
    {
        let until: i64 = match self.end {
            Some(t) => t.secs,
            None => now.secs,
        };
        until as i128 - self.start.secs as i128
    }
}

} // verus!
