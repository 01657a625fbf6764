//! The task log: the same table as the interval store, spoken of as tasks.

use crate::data::{records, Entry};
use crate::record::{
    all_closed, answers_all, answers_range, has_id, ids_increase, is_latest, next_id, with_new, with_row,
    Record,
};
use crate::storage::{SqlStorage, Storage};
use crate::time::Timestamp;
use vstd::prelude::*;

pub mod models;

pub use models::Filter;
pub use models::Query;
pub use models::Task;

verus! {

/// Why the task log refused an operation.
#[derive(Debug, Clone, Copy, PartialEq, Eq, Structural)]
pub enum DbError {
    /// A task must have a title.
    EmptyTitle,
    /// The last task holds the highest id there is.
    Full,
    /// The rows that were handed in have ids that do not grow, or a negative
    /// one.
    Corrupt,
    /// The local clock does not show the bounds of the days asked for.
    NoSuchLocalTime,
    /// No task has the id that was asked for.
    NotFound,
}

/// Every id of the table can be the id of a task.
pub open spec fn ids_fit(t: Seq<Record>) -> bool {
    forall|i: int| 0 <= i < t.len() ==> 0 <= (#[trigger] t[i]).id <= i32::MAX
}

/// `rows` is what a query asks of the table `t`.
pub open spec fn answers(t: Seq<Record>, query: Query, rows: Seq<Record>) -> bool {
    match query {
        Query::All => answers_all(t, rows),
        Query::Last => if t.len() == 0 {
            rows.len() == 0
        } else {
            rows.len() == 1 && is_latest(t, rows[0])
        },
        Query::Between(from, to) => answers_range(t, from@, to@, rows),
    }
}

/// The task log.
pub struct DB {
    store: SqlStorage,
}

/// The entry that holds what the task holds.
fn entry_of(task: Task) -> (e: Entry)
    requires
        task.id >= 0,
    ensures
        e@ == task@,
{
    Entry { id: task.id as usize, start: task.started_at, end: task.finished_at, name: task.title }
}

/// The task that holds what the entry holds.
fn task_of(entry: Entry) -> (t: Task)
    requires
        entry.id <= i32::MAX,
    ensures
        t@ == entry@,
{
    Task { id: entry.id as i32, title: entry.name, started_at: entry.start, finished_at: entry.end }
}

/// The tasks that hold what the entries hold.
fn tasks_of(entries: &Vec<Entry>) -> (tasks: Vec<Task>)
    requires
        ids_fit(records(entries@)),
    ensures
        models::task_records(tasks@) == records(entries@),
{
    let mut tasks: Vec<Task> = Vec::new();
    let mut k: usize = 0;
    while k < entries.len()
        invariant
            k <= entries.len(),
            ids_fit(records(entries@)),
            tasks@.len() == k,
            forall|i: int| 0 <= i < k ==> tasks@[i]@ == entries@[i]@,
        decreases entries.len() - k,
    {
        assert(0 <= records(entries@)[k as int].id <= i32::MAX);
        tasks.push(task_of(entries[k].duplicate()));
        k += 1;
    }
    assert(models::task_records(tasks@) =~= records(entries@));
    tasks
}

impl DB {
    pub closed spec fn view(&self) -> Seq<Record> {
        self.store@
    }

    /// A log is well formed when the ids of its table grow and fit a task.
    pub open spec fn wf(&self) -> bool {
        ids_increase(self@) && ids_fit(self@)
    }

    /// The log that holds these rows, which must come with growing ids, none
    /// of them negative.
    pub fn new(rows: Vec<Task>) -> (r: Result<DB, DbError>)
        ensures
            r is Ok <==> ids_increase(models::task_records(rows@)) && ids_fit(
                models::task_records(rows@),
            ),
            r matches Ok(db) ==> db@ == models::task_records(rows@) && db.wf(),
            r matches Err(e) ==> e == DbError::Corrupt,
    {
        let ghost t = models::task_records(rows@);
        let mut entries: Vec<Entry> = Vec::new();
        let mut k: usize = 0;
        while k < rows.len()
            invariant
                k <= rows.len(),
                t == models::task_records(rows@),
                entries@.len() == k,
                forall|i: int| 0 <= i < k ==> entries@[i]@ == t[i],
            decreases rows.len() - k,
        {
            if rows[k].id < 0 {
                assert(!(0 <= t[k as int].id));
                return Err(DbError::Corrupt);
            }
            entries.push(entry_of(rows[k].duplicate()));
            k += 1;
        }
        assert(records(entries@) =~= t);
        match SqlStorage::from_rows(entries) {
            Ok(store) => Ok(DB { store }),
            Err(_) => Err(DbError::Corrupt),
        }
    }

    /// Every task, in the order of the ids.
    pub fn tasks(&self) -> (tasks: Vec<Task>)
        requires
            self.wf(),
        ensures
            models::task_records(tasks@) == self@,
    {
        tasks_of(self.store.rows())
    }

    /// The tasks that a query asks for.
    pub fn select(&self, query: &Query) -> (tasks: Vec<Task>)
        requires
            self.wf(),
        ensures
            answers(self@, *query, models::task_records(tasks@)),
    {
        let found: Vec<Entry> = match query {
            Query::All => {
                let first = Timestamp { secs: i64::MIN };
                let last = Timestamp { secs: i64::MAX };
                let rows = self.store.rows();
                match self.store.entries(first, last) {
                    Ok(found) => {
                        proof {
                            assert forall|k: int| 0 <= k < self@.len() implies i64::MIN <= (
                            #[trigger] self@[k]).start <= i64::MAX by {
                                assert(self@[k] == rows@[k]@);
                            }
                            lemma_whole_range_is_all(self@, records(found@));
                        }
                        found
                    },
                    Err(_) => Vec::new(),
                }
            },
            Query::Last => {
                let mut found: Vec<Entry> = Vec::new();
                match self.store.last_entry() {
                    Some(e) => {
                        found.push(e);
                        assert(records(found@)[0] == e@);
                    },
                    None => {},
                }
                found
            },
            Query::Between(from, to) => match self.store.entries(*from, *to) {
                Ok(found) => found,
                Err(_) => Vec::new(),
            },
        };
        proof {
            let rows = records(found@);
            assert forall|i: int| 0 <= i < rows.len() implies 0 <= (#[trigger] rows[i]).id
                <= i32::MAX by {
                assert(self@.contains(rows[i]));
            }
        }
        tasks_of(&found)
    }

    /// The tasks that a filter asks for, with its days read in the local time
    /// zone: what a query of the filter asks. "All" and "last" ask no times
    /// and never fail.
    pub fn get_tasks(&self, filter: Filter) -> (r: Result<Vec<Task>, DbError>)
        requires
            self.wf(),
        ensures
            r matches Ok(tasks) ==> exists|query: Query|
                models::asks_query(filter, query) && #[trigger] answers(
                    self@,
                    query,
                    models::task_records(tasks@),
                ),
            r matches Err(e) ==> e == DbError::NoSuchLocalTime && (filter is Day || filter is Week),
    {
        let query = match filter.resolve() {
            Some(query) => query,
            None => {
                return Err(DbError::NoSuchLocalTime);
            },
        };
        let tasks = self.select(&query);
        let r: Result<Vec<Task>, DbError> = Ok(tasks);
        assert(answers(self@, query, models::task_records(r->Ok_0@)));
        r
    }

    /// The next id can be the id of a task.
    pub fn has_room(&self) -> (b: bool)
        requires
            self.wf(),
        ensures
            b == (next_id(self@) <= i32::MAX),
    {
        let n: usize = self.store.len();
        if n == 0 {
            true
        } else {
            let rows = self.store.rows();
            assert(records(rows@)[n - 1].id == rows@[n - 1].id);
            rows[n - 1].id < 0x7fff_ffff
        }
    }

    /// Adds a running task that started at `now`, under the next id.
    pub fn add_task_at(&mut self, name: &str, now: Timestamp) -> (r: Result<(), DbError>)
        requires
            old(self).wf(),
        ensures
            final(self).wf(),
            r is Ok <==> name@.len() > 0 && next_id(old(self)@) <= i32::MAX,
            r is Ok ==> final(self)@ == with_new(old(self)@, now@, None, name@),
            r matches Err(e) ==> final(self)@ == old(self)@ && e == (if name@.len() == 0 {
                DbError::EmptyTitle
            } else {
                DbError::Full
            }),
    {
        if name.is_empty() {
            return Err(DbError::EmptyTitle);
        }
        if !self.has_room() {
            return Err(DbError::Full);
        }
        let entry = Entry::starting_at(name.to_owned(), now);
        match self.store.insert(entry) {
            Ok(_) => Ok(()),
            Err(_) => Err(DbError::Full),
        }
    }

    /// Adds a running task that starts now, under the next id.
    pub fn add_task(&mut self, name: &str) -> (r: Result<(), DbError>)
        requires
            old(self).wf(),
        ensures
            final(self).wf(),
            r is Ok <==> name@.len() > 0 && next_id(old(self)@) <= i32::MAX,
            r is Ok ==> exists|now: Timestamp|
                final(self)@ == with_new(old(self)@, now@, None, name@),
            r matches Err(e) ==> final(self)@ == old(self)@ && e == (if name@.len() == 0 {
                DbError::EmptyTitle
            } else {
                DbError::Full
            }),
    {
        let now = Timestamp::now();
        let r = self.add_task_at(name, now);
        assert(r is Ok ==> self@ == with_new(old(self)@, now@, None, name@));
        r
    }

    /// Finishes every running task at `now`.
    pub fn finish_all_at(&mut self, now: Timestamp)
        requires
            old(self).wf(),
        ensures
            final(self).wf(),
            final(self)@ == all_closed(old(self)@, now@),
    {
        self.store.close_open(now);
    }

    /// Finishes every running task now.
    pub fn finish_all(&mut self)
        requires
            old(self).wf(),
        ensures
            final(self).wf(),
            exists|now: Timestamp| final(self)@ == all_closed(old(self)@, now@),
    {
        let now = Timestamp::now();
        self.finish_all_at(now);
        assert(self@ == all_closed(old(self)@, now@));
    }

    /// Overwrites start, end and title of the task that has the id of `task`.
    pub fn update_task(&mut self, task: Task) -> (r: Result<(), DbError>)
        requires
            old(self).wf(),
        ensures
            final(self).wf(),
            r is Ok <==> has_id(old(self)@, task.id as int),
            r is Ok ==> final(self)@ == with_row(old(self)@, task@),
            r matches Err(e) ==> e == DbError::NotFound && final(self)@ == old(self)@,
    {
        if task.id < 0 {
            assert(!has_id(self@, task.id as int));
            return Err(DbError::NotFound);
        }
        match self.store.update_entry(entry_of(task)) {
            Ok(()) => Ok(()),
            Err(_) => Err(DbError::NotFound),
        }
    }

    /// Removes every task. The next task gets the id 1 again.
    pub fn clear_tasks(&mut self)
        ensures
            final(self).wf(),
            final(self)@ == Seq::<Record>::empty(),
    {
        self.store.clear_all();
    }
}

/// Every instant lies between the first and the last that can be counted, so
/// the answer to that range is the answer to "all".
proof fn lemma_whole_range_is_all(t: Seq<Record>, rows: Seq<Record>)
    requires
        answers_range(t, i64::MIN as int, i64::MAX as int, rows),
        forall|k: int| 0 <= k < t.len() ==> i64::MIN <= (#[trigger] t[k]).start <= i64::MAX,
    ensures
        answers_all(t, rows),
{
    assert forall|k: int| 0 <= k < t.len() implies rows.contains(#[trigger] t[k]) by {
        assert(t[k].starts_within(i64::MIN as int, i64::MAX as int));
    }
}

} // verus!
