//! The mathematical model of the log: a row as a `Record`, the table as a
//! `Seq<Record>` in the order in which the rows were added.

use vstd::prelude::*;

verus! {

/// One interval of the log.
pub struct Record {
    pub id: int,
    pub start: int,
    pub end: Option<int>,
    pub label: Seq<char>,
}

impl Record {
    /// The interval does not end before it starts.
    pub open spec fn well_formed(self) -> bool {
        self.end matches Some(e) ==> self.start <= e
    }

    /// The time spent on the interval: up to its end, or up to `now` while it
    /// is still running.
    pub open spec fn elapsed(self, now: int) -> int {
        (match self.end {
            Some(e) => e,
            None => now,
        }) - self.start
    }

    /// The interval starts in `from ..= to`.
    pub open spec fn starts_within(self, from: int, to: int) -> bool {
        from <= self.start <= to
    }

    /// `self` comes before `other` in a listing: by start, then by id.
    pub open spec fn precedes(self, other: Record) -> bool {
        self.start < other.start || (self.start == other.start && self.id < other.id)
    }

    /// The same interval with its end set.
    pub open spec fn ended(self, at: int) -> Record {
        Record { end: Some(at), ..self }
    }

    /// The same interval, ended at `at` if it was still running.
    pub open spec fn closed(self, at: int) -> Record {
        if self.end is None {
            self.ended(at)
        } else {
            self
        }
    }
}

/// The ids grow along the table, so no id occurs twice.
pub open spec fn ids_increase(t: Seq<Record>) -> bool {
    forall|i: int, j: int| 0 <= i < j < t.len() ==> t[i].id < t[j].id
}

/// Some row of the table has this id.
pub open spec fn has_id(t: Seq<Record>, id: int) -> bool {
    exists|i: int| 0 <= i < t.len() && t[i].id == id
}

/// The id that the next row gets: one more than the last, 1 in an empty table.
pub open spec fn next_id(t: Seq<Record>) -> int {
    if t.len() == 0 {
        1
    } else {
        t.last().id + 1
    }
}

/// The table with the end of row `id` set to `at`.
pub open spec fn with_end(t: Seq<Record>, id: int, at: int) -> Seq<Record> {
    t.map_values(
        |r: Record|
            if r.id == id {
                r.ended(at)
            } else {
                r
            },
    )
}

/// The table with row `id` ended at `at`, if that row was still running.
pub open spec fn with_closed(t: Seq<Record>, id: int, at: int) -> Seq<Record> {
    t.map_values(
        |r: Record|
            if r.id == id {
                r.closed(at)
            } else {
                r
            },
    )
}

/// The table with every running row ended at `at`.
pub open spec fn all_closed(t: Seq<Record>, at: int) -> Seq<Record> {
    t.map_values(|r: Record| r.closed(at))
}

/// The table with the row that has the id of `new` replaced by `new`.
pub open spec fn with_row(t: Seq<Record>, new: Record) -> Seq<Record> {
    t.map_values(
        |r: Record|
            if r.id == new.id {
                new
            } else {
                r
            },
    )
}

/// The table with one more row, which gets the next id.
pub open spec fn with_new(t: Seq<Record>, start: int, end: Option<int>, label: Seq<char>) -> Seq<
    Record,
> {
    t.push(Record { id: next_id(t), start, end, label })
}

/// Starting an interval: the row before the new one is ended at the start
/// of the new one if it was still running, then the new row is added.
pub open spec fn with_started(t: Seq<Record>, start: int, end: Option<int>, label: Seq<char>) -> Seq<
    Record,
> {
    with_closed(t, next_id(t) - 1, start).push(Record { id: next_id(t), start, end, label })
}

/// The rows stand in the order of a listing: by start, then by id.
pub open spec fn in_listing_order(rows: Seq<Record>) -> bool {
    forall|i: int, j: int|
        0 <= i < j < rows.len() ==> (#[trigger] rows[i]).precedes(#[trigger] rows[j])
}

/// `rows` lists, by start and then by id, exactly the rows of `t` that start
/// in `from ..= to`.
pub open spec fn answers_range(t: Seq<Record>, from: int, to: int, rows: Seq<Record>) -> bool {
    &&& in_listing_order(rows)
    &&& forall|i: int|
        0 <= i < rows.len() ==> t.contains(#[trigger] rows[i]) && rows[i].starts_within(from, to)
    &&& forall|k: int|
        0 <= k < t.len() && (#[trigger] t[k]).starts_within(from, to) ==> rows.contains(t[k])
}

/// `rows` lists every row of `t`, by start and then by id.
pub open spec fn answers_all(t: Seq<Record>, rows: Seq<Record>) -> bool {
    &&& in_listing_order(rows)
    &&& forall|i: int| 0 <= i < rows.len() ==> t.contains(#[trigger] rows[i])
    &&& forall|k: int| 0 <= k < t.len() ==> rows.contains(#[trigger] t[k])
}

/// `r` is the row of `t` that started last; of those that started together,
/// the one with the highest id.
pub open spec fn is_latest(t: Seq<Record>, r: Record) -> bool {
    &&& t.contains(r)
    &&& forall|k: int| 0 <= k < t.len() ==> #[trigger] t[k] == r || t[k].precedes(r)
}

/// A listing in the order of `precedes` holds no row twice: the order is
/// strict.
pub proof fn lemma_listing_has_no_repeats(rows: Seq<Record>, i: int, j: int)
    requires
        in_listing_order(rows),
        0 <= i < rows.len(),
        0 <= j < rows.len(),
        rows[i] == rows[j],
    ensures
        i == j,
{
    if i < j {
        assert(rows[i].precedes(rows[j]));
    } else if j < i {
        assert(rows[j].precedes(rows[i]));
    }
}

} // verus!
