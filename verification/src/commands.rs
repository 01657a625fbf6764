//! What the commands do to the task log, and what they have to show.

use crate::db::models::{asks_query, task_records};
use crate::db::{answers, DbError, Filter, Query, Task, DB};
use crate::record::{all_closed, is_latest, next_id, with_end, with_new, Record};
use crate::time::{clock_on_day_of, clock_text_parsed, Day, Timestamp};
use vstd::prelude::*;

verus! {

/// When a task is to stop.
#[derive(Debug, Clone, Copy, PartialEq, Eq, Structural)]
pub enum StopRequest {
    /// At this moment.
    Now,
    /// When the clock showed this hour and minute today.
    Clock(u32, u32),
    /// At a time that could not be read.
    Unreadable,
}

/// What came of stopping.
#[derive(Debug, Clone, Copy, PartialEq, Eq, Structural)]
pub enum StopOutcome {
    /// The log holds no task.
    NoTask,
    /// The time could not be read, or is not a time of today.
    Rejected,
    /// The task that started last now ends at this instant.
    Stopped(Timestamp),
}

/// A time of day.
#[derive(Debug, Clone, Copy, PartialEq, Eq, Structural)]
pub struct ClockTime {
    pub hour: u32,
    pub minute: u32,
    pub second: u32,
}

/// A number of seconds as hours, minutes and seconds, which add up to it:
/// `hours * 3600 + minutes * 60 + seconds`. Of a negative number none of the
/// three is positive.
#[derive(Debug, Clone, Copy, PartialEq, Eq, Structural)]
pub struct Spent {
    pub hours: i128,
    pub minutes: i128,
    pub seconds: i128,
}

/// One line of a listing of tasks.
#[derive(Debug, Clone, PartialEq, Eq)]
pub struct Line {
    /// The UTC day on which the task started, counted from 1970-01-01.
    pub day: i64,
    /// The task started on another day than the task of the line before.
    pub new_day: bool,
    pub start: ClockTime,
    /// When the task ended; `None` while it is running.
    pub end: Option<ClockTime>,
    pub spent: Spent,
    pub title: String,
}

/// The request that a text stands for: no text asks for now.
pub open spec fn stop_request(time: Option<Seq<char>>) -> StopRequest {
    match time {
        None => StopRequest::Now,
        Some(text) => match clock_text_parsed(text) {
            Some(hm) => StopRequest::Clock(hm.0, hm.1),
            None => StopRequest::Unreadable,
        },
    }
}

/// The instant that a request means at the moment `now`.
pub open spec fn stop_instant(request: StopRequest, now: int) -> Option<int> {
    match request {
        StopRequest::Now => Some(now),
        StopRequest::Clock(hour, minute) => if hour < 24 && minute < 60 && i64::MIN
            <= clock_on_day_of(now, hour as int, minute as int) <= i64::MAX {
            Some(clock_on_day_of(now, hour as int, minute as int))
        } else {
            None
        },
        StopRequest::Unreadable => None,
    }
}

/// The text of a request, where there is one.
pub open spec fn text_of(time: Option<&str>) -> Option<Seq<char>> {
    match time {
        Some(text) => Some(text@),
        None => None,
    }
}

/// Stopping on `request` at the moment `now` takes the log from `before` to
/// `after` and comes out as `outcome`. A request without an instant is
/// rejected before the log is looked at. A request on an empty log finds no
/// task. Neither changes the log. Otherwise the task that started last gets
/// the instant of the request as its end, and that instant is handed back.
pub open spec fn stopped(
    before: Seq<Record>,
    after: Seq<Record>,
    request: StopRequest,
    now: int,
    outcome: StopOutcome,
) -> bool {
    match stop_instant(request, now) {
        None => outcome is Rejected && after == before,
        Some(at) => if before.len() == 0 {
            outcome is NoTask && after == before
        } else {
            outcome matches StopOutcome::Stopped(t) && t@ == at && exists|last: Record| #[trigger]
                is_latest(before, last) && after == with_end(before, last.id, at)
        },
    }
}

/// The quotient of `a` by `b`, rounded towards zero.
pub open spec fn quotient_toward_zero(a: int, b: int) -> int {
    if a >= 0 {
        a / b
    } else {
        -((-a) / b)
    }
}

/// What is left of `a` after the division by `b` that rounds towards zero.
pub open spec fn rest_toward_zero(a: int, b: int) -> int {
    if a >= 0 {
        a % b
    } else {
        -((-a) % b)
    }
}

/// The time of day at the instant `t`, on a UTC clock.
pub open spec fn clock_of(t: int) -> ClockTime {
    let s = t % 86_400;
    ClockTime { hour: (s / 3_600) as u32, minute: ((s / 60) % 60) as u32, second: (s % 60) as u32 }
}

/// The end of an interval as a time of day.
pub open spec fn end_clock_of(end: Option<int>) -> Option<ClockTime> {
    match end {
        Some(t) => Some(clock_of(t)),
        None => None,
    }
}

/// A number of seconds as it is shown.
pub open spec fn spent_of(seconds: int) -> Spent {
    Spent {
        hours: quotient_toward_zero(seconds, 3_600) as i128,
        minutes: rest_toward_zero(quotient_toward_zero(seconds, 60), 60) as i128,
        seconds: rest_toward_zero(seconds, 60) as i128,
    }
}

/// `line` is the line for row `i` of `rows` at the moment `now`.
pub open spec fn line_shows(line: Line, rows: Seq<Record>, i: int, now: int) -> bool {
    &&& line.day == rows[i].start / 86_400
    &&& line.new_day == (i == 0 || rows[i].start / 86_400 != rows[i - 1].start / 86_400)
    &&& line.start == clock_of(rows[i].start)
    &&& line.end == end_clock_of(rows[i].end)
    &&& line.spent == spent_of(rows[i].elapsed(now))
    &&& line.title@ == rows[i].label
}

/// `lines` is the listing of `rows` at the moment `now`: one line for each
/// row, in their order.
pub open spec fn lists(lines: Seq<Line>, rows: Seq<Record>, now: int) -> bool {
    &&& lines.len() == rows.len()
    &&& forall|i: int| 0 <= i < rows.len() ==> line_shows(#[trigger] lines[i], rows, i, now)
}

/// `lines` is the listing, at some moment, of what a query of the filter
/// asks of the table `t`.
pub open spec fn lists_filter(lines: Seq<Line>, t: Seq<Record>, filter: Filter) -> bool {
    exists|query: Query, rows: Seq<Record>, now: int|
        #![trigger answers(t, query, rows), lists(lines, rows, now)]
        asks_query(filter, query) && answers(t, query, rows) && lists(lines, rows, now)
}

/// The log that holds these rows.
pub fn db(rows: Vec<Task>) -> (r: Result<DB, DbError>)
    ensures
        r is Ok <==> crate::record::ids_increase(task_records(rows@)) && crate::db::ids_fit(
            task_records(rows@),
        ),
        r matches Ok(log) ==> log@ == task_records(rows@) && log.wf(),
        r matches Err(e) ==> e == DbError::Corrupt,
{
    DB::new(rows)
}

/// Starts a task at `now`: every running task ends at `now`, and a running
/// task with this name is added. A name that is empty, or a log that is
/// full, leaves the log as it is.
pub fn start_at(db: &mut DB, name: &str, now: Timestamp) -> (r: Result<(), DbError>)
    requires
        old(db).wf(),
    ensures
        final(db).wf(),
        r is Ok <==> name@.len() > 0 && next_id(old(db)@) <= i32::MAX,
        r is Ok ==> final(db)@ == with_new(all_closed(old(db)@, now@), now@, None, name@),
        r matches Err(e) ==> final(db)@ == old(db)@ && e == (if name@.len() == 0 {
            DbError::EmptyTitle
        } else {
            DbError::Full
        }),
{
    if name.is_empty() {
        return Err(DbError::EmptyTitle);
    }
    if !db.has_room() {
        return Err(DbError::Full);
    }
    db.finish_all_at(now);
    assert(next_id(db@) == next_id(old(db)@)) by {
        if old(db)@.len() > 0 {
            assert(db@.last().id == old(db)@.last().id);
        }
    }
    db.add_task_at(name, now)
}

/// Starts a task now.
pub fn cmd_start(db: &mut DB, name: &str) -> (r: Result<(), DbError>)
    requires
        old(db).wf(),
    ensures
        final(db).wf(),
        r is Ok <==> name@.len() > 0 && next_id(old(db)@) <= i32::MAX,
        r is Ok ==> exists|now: Timestamp|
            final(db)@ == with_new(#[trigger] all_closed(old(db)@, now@), now@, None, name@),
        r matches Err(e) ==> final(db)@ == old(db)@ && e == (if name@.len() == 0 {
            DbError::EmptyTitle
        } else {
            DbError::Full
        }),
{
    let now = Timestamp::now();
    let r = start_at(db, name, now);
    assert(r is Ok ==> db@ == with_new(all_closed(old(db)@, now@), now@, None, name@));
    r
}

/// Ends the task that started last at the instant that the request means at
/// the moment `now`.
pub fn stop_at(db: &mut DB, request: StopRequest, now: Timestamp) -> (r: StopOutcome)
    requires
        old(db).wf(),
    ensures
        final(db).wf(),
        stopped(old(db)@, final(db)@, request, now@, r),
{
    let at = match request {
        StopRequest::Now => now,
        StopRequest::Clock(hour, minute) => match now.on_same_day(hour, minute) {
            Some(at) => at,
            None => {
                return StopOutcome::Rejected;
            },
        },
        StopRequest::Unreadable => {
            return StopOutcome::Rejected;
        },
    };
    let mut found = db.select(&Query::Last);
    let ghost listed = task_records(found@);
    let last = match found.pop() {
        Some(task) => task,
        None => {
            return StopOutcome::NoTask;
        },
    };
    assert(is_latest(old(db)@, last@)) by {
        assert(listed[0] == last@);
    }
    let ghost id = last.id as int;
    let ghost label = last.title@;
    let ended = Task { id: last.id, title: last.title, started_at: last.started_at, finished_at: Some(at) };
    let _ = db.update_task(ended);
    proof {
        assert(crate::record::has_id(old(db)@, id)) by {
            let i = choose|i: int| 0 <= i < old(db)@.len() && old(db)@[i] == last@;
            assert(old(db)@[i].id == id);
        }
        let t = old(db)@;
        assert forall|i: int| 0 <= i < t.len() implies (#[trigger] db@[i]) == with_end(t, id, at@)[i] by {
            if t[i].id == id {
                crate::laws::lookup_is_unique(t, id, t[i], last@);
            }
        }
        assert(db@ =~= with_end(t, id, at@));
        assert(is_latest(t, last@) && db@ == with_end(t, last@.id, at@));
    }
    StopOutcome::Stopped(at)
}

/// Ends the task that started last: now, or at the time of today that the
/// text gives as `HH:MM`. A text that cannot be read is rejected before the
/// log is looked at.
pub fn cmd_stop(db: &mut DB, time: Option<&str>) -> (r: StopOutcome)
    requires
        old(db).wf(),
    ensures
        final(db).wf(),
        exists|now: Timestamp| #[trigger]
            stopped(old(db)@, final(db)@, stop_request(text_of(time)), now@, r),
{
    let request = match time {
        None => StopRequest::Now,
        Some(text) => match Timestamp::parse_clock(text) {
            Some((hour, minute)) => StopRequest::Clock(hour, minute),
            None => StopRequest::Unreadable,
        },
    };
    let now = Timestamp::now();
    let r = stop_at(db, request, now);
    assert(stopped(old(db)@, db@, stop_request(text_of(time)), now@, r));
    r
}

/// Removes every task.
pub fn cmd_clear(db: &mut DB)
    ensures
        final(db).wf(),
        final(db)@ == Seq::<Record>::empty(),
{
    db.clear_tasks()
}

/// The time of day at an instant, on a UTC clock.
pub fn clock_at(t: Timestamp) -> (c: ClockTime)
    ensures
        c == clock_of(t@),
{
    let s: u32 = t.second_of_day();
    ClockTime { hour: s / 3_600, minute: (s / 60) % 60, second: s % 60 }
}

/// The quotient and the rest of a division that rounds towards zero.
fn divide_toward_zero(a: i128, b: i128) -> (r: (i128, i128))
    requires
        b > 0,
        a > i128::MIN,
    ensures
        r.0 == quotient_toward_zero(a as int, b as int),
        r.1 == rest_toward_zero(a as int, b as int),
        r.0 > i128::MIN,
{
    if a >= 0 {
        (a / b, a % b)
    } else {
        let m: i128 = -a;
        assert(0 <= m / b <= m) by (nonlinear_arith)
            requires
                m >= 0,
                b > 0,
        ;
        (-(m / b), -(m % b))
    }
}

/// A number of seconds as it is shown.
pub fn spent(seconds: i128) -> (s: Spent)
    requires
        seconds > i128::MIN,
    ensures
        s == spent_of(seconds as int),
{
    let (hours, _) = divide_toward_zero(seconds, 3_600);
    let (minutes, rest) = divide_toward_zero(seconds, 60);
    let (_, m) = divide_toward_zero(minutes, 60);
    Spent { hours, minutes: m, seconds: rest }
}

/// The listing of the tasks at the moment `now`: one line for each task, in
/// their order.
pub fn report(tasks: &Vec<Task>, now: Timestamp) -> (lines: Vec<Line>)
    ensures
        lists(lines@, task_records(tasks@), now@),
{
    let ghost rows = task_records(tasks@);
    let mut lines: Vec<Line> = Vec::new();
    let mut k: usize = 0;
    while k < tasks.len()
        invariant
            k <= tasks.len(),
            rows == task_records(tasks@),
            lines@.len() == k,
            forall|i: int| 0 <= i < k ==> line_shows(#[trigger] lines@[i], rows, i, now@),
        decreases tasks.len() - k,
    {
        let task = &tasks[k];
        assert(rows[k as int] == task@);
        let day: i64 = task.started_at.day();
        let new_day = if k == 0 {
            true
        } else {
            assert(rows[k - 1] == tasks@[k - 1]@);
            tasks[k - 1].started_at.day() != day
        };
        let end = match task.finished_at {
            Some(t) => Some(clock_at(t)),
            None => None,
        };
        let line = Line {
            day,
            new_day,
            start: clock_at(task.started_at),
            end,
            spent: spent(task.duration_at(now)),
            title: task.title.clone(),
        };
        lines.push(line);
        k += 1;
    }
    lines
}

/// The listing of the tasks at this moment.
pub fn print_tasks(tasks: Vec<Task>) -> (lines: Vec<Line>)
    ensures
        exists|now: int| #[trigger] lists(lines@, task_records(tasks@), now),
{
    let now = Timestamp::now();
    let lines = report(&tasks, now);
    assert(lists(lines@, task_records(tasks@), now@));
    lines
}

/// The listing of what a filter asks of the log.
fn listing(db: &DB, filter: Filter) -> (r: Result<Vec<Line>, DbError>)
    requires
        db.wf(),
    ensures
        r matches Ok(lines) ==> lists_filter(lines@, db@, filter),
        r matches Err(e) ==> e == DbError::NoSuchLocalTime,
{
    let tasks = match db.get_tasks(filter) {
        Ok(tasks) => tasks,
        Err(e) => {
            return Err(e);
        },
    };
    let ghost rows = task_records(tasks@);
    let lines = print_tasks(tasks);
    proof {
        let query = choose|query: Query| asks_query(filter, query) && #[trigger] answers(db@, query, rows);
        let now = choose|now: int| #[trigger] lists(lines@, rows, now);
        assert(asks_query(filter, query) && answers(db@, query, rows) && lists(lines@, rows, now));
    }
    Ok(lines)
}

/// The listing of the tasks that started today.
pub fn cmd_list(db: &DB) -> (r: Result<Vec<Line>, DbError>)
    requires
        db.wf(),
    ensures
        r matches Ok(lines) ==> exists|today: Day| #[trigger] lists_filter(lines@, db@, Filter::Day(today)),
        r matches Err(e) ==> e == DbError::NoSuchLocalTime,
{
    let (today, _) = Day::today();
    let r = listing(db, Filter::Day(today));
    assert(r matches Ok(lines) ==> lists_filter(lines@, db@, Filter::Day(today)));
    r
}

/// The listing of the tasks that started this week.
pub fn cmd_summary(db: &DB) -> (r: Result<Vec<Line>, DbError>)
    requires
        db.wf(),
    ensures
        r matches Ok(lines) ==> lists_filter(lines@, db@, Filter::Week),
        r matches Err(e) ==> e == DbError::NoSuchLocalTime,
{
    listing(db, Filter::Week)
}

} // verus!
