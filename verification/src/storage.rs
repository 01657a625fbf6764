//! The interval store: the entries of the log in the order in which they were
//! added, with the rule that starting an entry ends the one before it.

use crate::data::{end_view, records, Entry};
use crate::record::{
    all_closed, answers_range, has_id, ids_increase, in_listing_order, is_latest, next_id, with_closed,
    with_end, with_new, with_row, with_started, Record,
};
use crate::time::{answers_asked, day_asked, instants_of, Day, Timestamp};
use vstd::prelude::*;

verus! {

/// Why the store refused an operation.
#[derive(Debug, Clone, Copy, PartialEq, Eq, Structural)]
pub enum StorageError {
    /// No entry has the id that was asked for.
    NotFound,
    /// An entry must have a name.
    EmptyName,
    /// The last entry holds the highest id there is.
    Full,
    /// The rows that were handed in do not have growing ids.
    Corrupt,
    /// The local clock does not show a midnight that bounds today.
    NoSuchLocalTime,
}

/// `rows` lists the rows of `t` that start on the local day `today`: between
/// two instants at which the local clock showed the midnight with which the
/// day begins and the midnight with which the next day begins.
pub open spec fn lists_day(t: Seq<Record>, today: Day, rows: Seq<Record>) -> bool {
    exists|bounds: (Timestamp, Timestamp)|
        #![trigger answers_range(t, bounds.0@, bounds.1@, rows)]
        answers_asked(day_asked(today), Some(bounds)) && answers_range(t, bounds.0@, bounds.1@, rows)
}

/// What a store of entries offers. The view of a store is its table: the rows
/// in the order in which they were added.
pub trait Storage {
    spec fn view(&self) -> Seq<Record>;

    /// The entries that start in `from ..= to`, by start and then by id.
    fn entries(&self, from: Timestamp, to: Timestamp) -> (r: Result<Vec<Entry>, StorageError>)
        requires
            ids_increase(self@),
        ensures
            r matches Ok(found) && answers_range(self@, from@, to@, records(found@)),
    ;

    /// The entries that start today: from one local midnight to the next,
    /// both included. Which day today is, the clock decides.
    fn current_entries(&self) -> (r: Result<Vec<Entry>, StorageError>)
        requires
            ids_increase(self@),
        ensures
            r matches Ok(found) ==> exists|today: Day| #[trigger]
                lists_day(self@, today, records(found@)),
            r matches Err(e) ==> e == StorageError::NoSuchLocalTime,
    ;

    /// The entry with this id.
    fn entrie_by_id(&self, id: usize) -> (r: Result<Entry, StorageError>)
        requires
            ids_increase(self@),
        ensures
            r is Ok <==> has_id(self@, id as int),
            r matches Ok(e) ==> e.id == id && self@.contains(e@),
            r matches Err(e) ==> e == StorageError::NotFound,
    ;

    /// Adds the entry under the next id and ends the entry before it, if that
    /// one was still running, at the start of the new one. Hands back the
    /// entry as it was stored.
    fn add_entry(&mut self, entry: Entry) -> (r: Result<Entry, StorageError>)
        requires
            ids_increase(old(self)@),
        ensures
            ids_increase(final(self)@),
            r is Ok <==> entry.name@.len() > 0 && next_id(old(self)@) <= usize::MAX,
            r matches Ok(e) ==> e@ == (Record { id: next_id(old(self)@), ..entry@ }) && final(self)@
                == with_started(old(self)@, entry.start@, end_view(entry.end), entry.name@),
            r matches Err(e) ==> final(self)@ == old(self)@ && e == (if entry.name@.len() == 0 {
                StorageError::EmptyName
            } else {
                StorageError::Full
            }),
    ;

    /// Overwrites start, end and name of the entry that has the id of `entry`.
    fn update_entry(&mut self, entry: Entry) -> (r: Result<(), StorageError>)
        requires
            ids_increase(old(self)@),
        ensures
            ids_increase(final(self)@),
            r is Ok <==> has_id(old(self)@, entry.id as int),
            r is Ok ==> final(self)@ == with_row(old(self)@, entry@),
            r matches Err(e) ==> e == StorageError::NotFound && final(self)@ == old(self)@,
    ;
}

/// The entries table, held in memory in the order of its ids.
pub struct SqlStorage {
    rows: Vec<Entry>,
}

impl SqlStorage {
    /// A store is well formed when the ids of its table grow.
    pub open spec fn wf(&self) -> bool {
        ids_increase(self@)
    }

    /// A store without entries.
    pub fn memory() -> (s: SqlStorage)
        ensures
            s@ == Seq::<Record>::empty(),
            s.wf(),
    {
        let s = SqlStorage { rows: Vec::new() };
        assert(s@ =~= Seq::<Record>::empty());
        s
    }

    /// The store that holds these rows, which must come with growing ids.
    pub fn from_rows(rows: Vec<Entry>) -> (r: Result<SqlStorage, StorageError>)
        ensures
            r is Ok <==> ids_increase(records(rows@)),
            r matches Ok(s) ==> s@ == records(rows@) && s.wf(),
            r matches Err(e) ==> e == StorageError::Corrupt,
    {
        let ghost t = records(rows@);
        let mut k: usize = 1;
        while k < rows.len()
            invariant
                1 <= k,
                t == records(rows@),
                forall|i: int, j: int| 0 <= i < j < k && j < t.len() ==> t[i].id < t[j].id,
            decreases rows.len() - k,
        {
            if rows[k - 1].id >= rows[k].id {
                assert(!(t[k - 1].id < t[k as int].id));
                return Err(StorageError::Corrupt);
            }
            assert forall|i: int, j: int| 0 <= i < j < k + 1 && j < t.len() implies t[i].id
                < t[j].id by {
                if j == k && i < k - 1 {
                    assert(t[i].id < t[k - 1].id);
                }
            }
            k += 1;
        }
        Ok(SqlStorage { rows })
    }

    /// The rows of the table, in the order of their ids.
    pub fn rows(&self) -> (rows: &Vec<Entry>)
        ensures
            records(rows@) == self@,
    {
        &self.rows
    }

    /// The number of entries.
    pub fn len(&self) -> (n: usize)
        ensures
            n == self@.len(),
    {
        self.rows.len()
    }

    /// The index of the row with this id.
    fn position(&self, id: usize) -> (r: Option<usize>)
        requires
            self.wf(),
        ensures
            r is Some <==> has_id(self@, id as int),
            r matches Some(i) ==> i < self@.len() && self@[i as int].id == id,
    {
        let mut k: usize = 0;
        while k < self.rows.len()
            invariant
                k <= self.rows.len(),
                forall|j: int| 0 <= j < k ==> self@[j].id != id,
            decreases self.rows.len() - k,
        {
            if self.rows[k].id == id {
                return Some(k);
            }
            k += 1;
        }
        None
    }

    /// Adds the entry under the next id, and touches no other entry.
    pub fn insert(&mut self, entry: Entry) -> (r: Result<Entry, StorageError>)
        requires
            old(self).wf(),
        ensures
            final(self).wf(),
            r is Ok <==> entry.name@.len() > 0 && next_id(old(self)@) <= usize::MAX,
            r matches Ok(e) ==> e@ == (Record { id: next_id(old(self)@), ..entry@ }) && final(self)@
                == with_new(old(self)@, entry.start@, end_view(entry.end), entry.name@),
            r matches Err(e) ==> final(self)@ == old(self)@ && e == (if entry.name@.len() == 0 {
                StorageError::EmptyName
            } else {
                StorageError::Full
            }),
    {
        if entry.name.as_str().is_empty() {
            return Err(StorageError::EmptyName);
        }
        let n: usize = self.rows.len();
        let id: usize = if n == 0 {
            1
        } else {
            let last: usize = self.rows[n - 1].id;
            if last == usize::MAX {
                return Err(StorageError::Full);
            }
            last + 1
        };
        let stored = Entry { id, start: entry.start, end: entry.end, name: entry.name };
        let copy = stored.duplicate();
        self.rows.push(stored);
        assert(self@ =~= with_new(old(self)@, entry.start@, end_view(entry.end), entry.name@));
        Ok(copy)
    }

    /// Starts an entry with this name now: the entry before it ends now if it
    /// was still running, and the new entry runs. Hands back the new entry,
    /// whose start is the moment that the clock gave.
    pub fn start_entry(&mut self, name: String) -> (r: Result<Entry, StorageError>)
        requires
            old(self).wf(),
        ensures
            final(self).wf(),
            r is Ok <==> name@.len() > 0 && next_id(old(self)@) <= usize::MAX,
            r matches Ok(e) ==> e.id == next_id(old(self)@) && e.end is None && e.name@ == name@
                && final(self)@ == with_started(old(self)@, e.start@, None, name@),
            r matches Err(e) ==> final(self)@ == old(self)@ && e == (if name@.len() == 0 {
                StorageError::EmptyName
            } else {
                StorageError::Full
            }),
    {
        self.add_entry(Entry::new(name))
    }

    /// Ends the entry with this id at `at`, whether it was running or not.
    pub fn end_entry(&mut self, id: usize, at: Timestamp) -> (r: Result<(), StorageError>)
        requires
            old(self).wf(),
        ensures
            final(self).wf(),
            r is Ok <==> has_id(old(self)@, id as int),
            r is Ok ==> final(self)@ == with_end(old(self)@, id as int, at@),
            r matches Err(e) ==> e == StorageError::NotFound && final(self)@ == old(self)@,
    {
        match self.position(id) {
            None => Err(StorageError::NotFound),
            Some(i) => {
                let row = &self.rows[i];
                let ended = Entry { id: row.id, start: row.start, end: Some(at), name: row.name.clone() };
                self.rows.set(i, ended);
                assert(self@ =~= with_end(old(self)@, id as int, at@));
                Ok(())
            },
        }
    }

    /// Ends the entry with this id at `at` if it is still running. A store
    /// without such an entry stays as it is.
    fn close(&mut self, id: usize, at: Timestamp)
        requires
            old(self).wf(),
        ensures
            final(self).wf(),
            final(self)@ == with_closed(old(self)@, id as int, at@),
    {
        match self.position(id) {
            None => {
                assert(self@ =~= with_closed(old(self)@, id as int, at@));
            },
            Some(i) => {
                let row = &self.rows[i];
                if row.end.is_none() {
                    let ended = Entry {
                        id: row.id,
                        start: row.start,
                        end: Some(at),
                        name: row.name.clone(),
                    };
                    self.rows.set(i, ended);
                }
                assert(self@ =~= with_closed(old(self)@, id as int, at@));
            },
        }
    }

    /// Ends every entry that is still running at `at`.
    pub fn close_open(&mut self, at: Timestamp)
        requires
            old(self).wf(),
        ensures
            final(self).wf(),
            final(self)@ == all_closed(old(self)@, at@),
    {
        let mut k: usize = 0;
        while k < self.rows.len()
            invariant
                k <= self.rows.len(),
                self@.len() == old(self)@.len(),
                forall|j: int| 0 <= j < k ==> self@[j] == old(self)@[j].closed(at@),
                forall|j: int| k <= j < self@.len() ==> self@[j] == old(self)@[j],
            decreases self.rows.len() - k,
        {
            let ghost before = self@;
            let row = &self.rows[k];
            if row.end.is_none() {
                let ended = Entry { id: row.id, start: row.start, end: Some(at), name: row.name.clone() };
                self.rows.set(k, ended);
            }
            assert(self@ =~= before.update(k as int, before[k as int].closed(at@)));
            k += 1;
        }
        assert(self@ =~= all_closed(old(self)@, at@));
    }

    /// The entry that started last; of those that started together, the one
    /// with the highest id.
    pub fn last_entry(&self) -> (r: Option<Entry>)
        requires
            self.wf(),
        ensures
            r is None <==> self@.len() == 0,
            r matches Some(e) ==> is_latest(self@, e@),
    {
        if self.rows.len() == 0 {
            return None;
        }
        let mut best: usize = 0;
        let mut k: usize = 1;
        while k < self.rows.len()
            invariant
                1 <= k <= self.rows.len(),
                best < k,
                self.wf(),
                forall|j: int| 0 <= j < k ==> j == best || self@[j].precedes(self@[best as int]),
            decreases self.rows.len() - k,
        {
            if self.rows[k].start.secs >= self.rows[best].start.secs {
                assert forall|j: int| 0 <= j < k + 1 implies j == k || self@[j].precedes(
                    self@[k as int],
                ) by {
                    if j < k {
                        assert(self@[j].id < self@[k as int].id);
                    }
                }
                best = k;
            }
            k += 1;
        }
        let found = self.rows[best].duplicate();
        assert(self@[best as int] == found@);
        assert forall|j: int| 0 <= j < self@.len() implies #[trigger] self@[j] == found@
            || self@[j].precedes(found@) by {}
        Some(found)
    }

    /// Removes every entry. The next entry gets the id 1 again.
    pub fn clear_all(&mut self)
        ensures
            final(self)@ == Seq::<Record>::empty(),
            final(self).wf(),
    {
        self.rows.clear();
        assert(self@ =~= Seq::<Record>::empty());
    }

    /// The entries that start between the two bounds, where there are bounds.
    pub fn entries_within(&self, bounds: Option<(Timestamp, Timestamp)>) -> (r: Result<
        Vec<Entry>,
        StorageError,
    >)
        requires
            self.wf(),
        ensures
            bounds matches Some(b) ==> (r matches Ok(found) && answers_range(
                self@,
                b.0@,
                b.1@,
                records(found@),
            )),
            bounds is None ==> (r matches Err(e) && e == StorageError::NoSuchLocalTime),
    {
        match bounds {
            Some((from, to)) => self.entries(from, to),
            None => Err(StorageError::NoSuchLocalTime),
        }
    }
}

/// Puts `entry` into a listing, behind every row that does not start later.
/// The rows of the listing have lower ids than `entry`.
fn file_into(found: &mut Vec<Entry>, entry: Entry) -> (p: usize)
    requires
        in_listing_order(records(old(found)@)),
        forall|i: int| 0 <= i < old(found)@.len() ==> records(old(found)@)[i].id < entry@.id,
    ensures
        in_listing_order(records(final(found)@)),
        p <= old(found)@.len(),
        records(final(found)@) == records(old(found)@).insert(p as int, entry@),
{
    let ghost before = records(found@);
    let mut p: usize = found.len();
    while p > 0 && found[p - 1].start.secs > entry.start.secs
        invariant
            p <= found.len(),
            found@ == old(found)@,
            before == records(found@),
            forall|i: int| p <= i < before.len() ==> before[i].start > entry@.start,
        decreases p,
    {
        p -= 1;
    }
    found.insert(p, entry);
    proof {
        let after = records(found@);
        assert(after =~= before.insert(p as int, entry@));
        assert forall|i: int, j: int| 0 <= i < j < after.len() implies (#[trigger] after[i]).precedes(
            #[trigger] after[j],
        ) by {
            let a = if i < p { i } else { i - 1 };
            let b = if j < p { j } else { j - 1 };
            if i != p && j != p {
                assert(before[a].precedes(before[b]));
            } else if j == p {
                assert(before[i].id < entry@.id);
                if i < p - 1 {
                    assert(before[i].precedes(before[p - 1]));
                }
            }
        }
    }
    p
}

/// The rows that answer a range over the first `k` rows of a table have
/// lower ids than row `k`.
proof fn lemma_listed_ids_are_lower(t: Seq<Record>, from: int, to: int, k: int, rows: Seq<Record>)
    requires
        ids_increase(t),
        0 <= k < t.len(),
        answers_range(t.take(k), from, to, rows),
    ensures
        forall|i: int| 0 <= i < rows.len() ==> (#[trigger] rows[i]).id < t[k].id,
{
    assert forall|i: int| 0 <= i < rows.len() implies (#[trigger] rows[i]).id < t[k].id by {
        assert(t.take(k).contains(rows[i]));
        let j = choose|j: int| 0 <= j < k && t.take(k)[j] == rows[i];
        assert(t[j].id < t[k].id);
    }
}

/// A row outside the range leaves the answer as it is.
proof fn lemma_range_skips(t: Seq<Record>, from: int, to: int, k: int, rows: Seq<Record>)
    requires
        0 <= k < t.len(),
        answers_range(t.take(k), from, to, rows),
        !t[k].starts_within(from, to),
    ensures
        answers_range(t.take(k + 1), from, to, rows),
{
    let shorter = t.take(k);
    let longer = t.take(k + 1);
    assert forall|i: int| 0 <= i < rows.len() implies longer.contains(#[trigger] rows[i]) by {
        assert(shorter.contains(rows[i]));
        let j = choose|j: int| 0 <= j < k && shorter[j] == rows[i];
        assert(longer[j] == rows[i]);
    }
    assert forall|j: int|
        0 <= j < longer.len() && (#[trigger] longer[j]).starts_within(from, to) implies rows.contains(
        longer[j],
    ) by {
        assert(shorter[j] == longer[j]);
    }
}

/// A row inside the range joins the answer at the place that keeps the order.
proof fn lemma_range_takes(t: Seq<Record>, from: int, to: int, k: int, rows: Seq<Record>, p: int)
    requires
        0 <= k < t.len(),
        0 <= p <= rows.len(),
        answers_range(t.take(k), from, to, rows),
        t[k].starts_within(from, to),
        in_listing_order(rows.insert(p, t[k])),
    ensures
        answers_range(t.take(k + 1), from, to, rows.insert(p, t[k])),
{
    let shorter = t.take(k);
    let longer = t.take(k + 1);
    let more = rows.insert(p, t[k]);
    assert forall|i: int| 0 <= i < more.len() implies longer.contains(#[trigger] more[i])
        && more[i].starts_within(from, to) by {
        if i == p {
            assert(longer[k] == more[i]);
        } else {
            let a = if i < p { i } else { i - 1 };
            assert(more[i] == rows[a]);
            assert(shorter.contains(rows[a]));
            let j = choose|j: int| 0 <= j < k && shorter[j] == rows[a];
            assert(longer[j] == more[i]);
        }
    }
    assert forall|j: int|
        0 <= j < longer.len() && (#[trigger] longer[j]).starts_within(from, to) implies more.contains(
        longer[j],
    ) by {
        if j == k {
            assert(more[p] == longer[j]);
        } else {
            assert(shorter[j] == longer[j]);
            assert(rows.contains(shorter[j]));
            let a = choose|a: int| 0 <= a < rows.len() && rows[a] == shorter[j];
            let i = if a < p { a } else { a + 1 };
            assert(more[i] == longer[j]);
        }
    }
}

impl Storage for SqlStorage {
    closed spec fn view(&self) -> Seq<Record> {
        records(self.rows@)
    }

    fn entries(&self, from: Timestamp, to: Timestamp) -> (r: Result<Vec<Entry>, StorageError>) {
        let ghost t = self@;
        let mut found: Vec<Entry> = Vec::new();
        let mut k: usize = 0;
        assert(answers_range(t.take(0), from@, to@, records(found@)));
        while k < self.rows.len()
            invariant
                k <= self.rows.len(),
                t == self@,
                ids_increase(t),
                answers_range(t.take(k as int), from@, to@, records(found@)),
            decreases self.rows.len() - k,
        {
            let ghost rows = records(found@);
            let row = &self.rows[k];
            if from.secs <= row.start.secs && row.start.secs <= to.secs {
                proof {
                    lemma_listed_ids_are_lower(t, from@, to@, k as int, rows);
                }
                let p = file_into(&mut found, row.duplicate());
                proof {
                    lemma_range_takes(t, from@, to@, k as int, rows, p as int);
                }
            } else {
                proof {
                    lemma_range_skips(t, from@, to@, k as int, rows);
                }
            }
            k += 1;
        }
        assert(t.take(k as int) =~= t);
        Ok(found)
    }

    fn current_entries(&self) -> (r: Result<Vec<Entry>, StorageError>) {
        let (today, _) = Day::today();
        let bounds = instants_of(today.asks_day());
        let r = self.entries_within(bounds);
        assert(r matches Ok(found) ==> lists_day(self@, today, records(found@))) by {
            if r is Ok {
                let b = bounds->Some_0;
                assert(answers_range(self@, b.0@, b.1@, records(r->Ok_0@)));
            }
        }
        r
    }

    fn entrie_by_id(&self, id: usize) -> (r: Result<Entry, StorageError>) {
        match self.position(id) {
            None => Err(StorageError::NotFound),
            Some(i) => {
                let e = self.rows[i].duplicate();
                assert(self@[i as int] == e@);
                Ok(e)
            },
        }
    }

    fn add_entry(&mut self, entry: Entry) -> (r: Result<Entry, StorageError>) {
        let start = entry.start;
        let stored = self.insert(entry)?;
        // The new id is at least 1, so the one before it can be counted.
        self.close(stored.id - 1, start);
        proof {
            let t = old(self)@;
            let added = with_new(t, entry.start@, end_view(entry.end), entry.name@);
            assert(added.last().id != next_id(t) - 1);
            assert(self@ =~= with_started(t, entry.start@, end_view(entry.end), entry.name@));
        }
        Ok(stored)
    }

    fn update_entry(&mut self, entry: Entry) -> (r: Result<(), StorageError>) {
        match self.position(entry.id) {
            None => Err(StorageError::NotFound),
            Some(i) => {
                self.rows.set(i, entry);
                assert(self@ =~= with_row(old(self)@, entry@));
                Ok(())
            },
        }
    }
}

} // verus!
