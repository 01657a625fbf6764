//! The task, and the ways to ask for tasks.

use crate::record::Record;
use crate::data::end_view;
use crate::time::{
    answers_asked, day_asked, instants_of, span_asked, week_around, weekday_of, Asked, Day, Timestamp,
};
use vstd::prelude::*;

verus! {

/// One interval of time spent on a titled task. A task that is not finished
/// is still running.
#[derive(Debug, Clone, PartialEq, Eq)]
pub struct Task {
    pub id: i32,
    pub title: String,
    pub started_at: Timestamp,
    pub finished_at: Option<Timestamp>,
}

/// Which tasks to list.
#[derive(Debug, Clone, Copy, PartialEq, Eq, Structural)]
pub enum Filter {
    /// Every task.
    All,
    /// The tasks that started on this day of the local calendar: from its
    /// midnight to the next midnight, both included.
    Day(Day),
    /// The tasks that started in the local week that holds today, Monday to
    /// Sunday.
    Week,
    /// The task that started last.
    Last,
}

/// A filter with its days turned into instants.
#[derive(Debug, Clone, Copy, PartialEq, Eq, Structural)]
pub enum Query {
    /// Every task, by start.
    All,
    /// The task that started last.
    Last,
    /// The tasks that started between the two instants, both included.
    Between(Timestamp, Timestamp),
}

impl View for Task {
    type V = Record;

    open spec fn view(&self) -> Record {
        Record {
            id: self.id as int,
            start: self.started_at@,
            end: end_view(self.finished_at),
            label: self.title@,
        }
    }
}

/// The rows of a vector of tasks, as the model has them.
pub open spec fn task_records(tasks: Seq<Task>) -> Seq<Record> {
    tasks.map_values(|t: Task| t@)
}

/// The first and the last local day that a filter spans, where it spans days.
pub open spec fn days_spanned(filter: Filter, today: Day, weekday: u32) -> Option<(int, int)> {
    match filter {
        Filter::Day(d) => Some((d.number as int, d.number as int)),
        Filter::Week => Some(week_around(today.number as int, weekday as int)),
        _ => None,
    }
}

/// The query that a filter stands for once its days have their instants.
pub open spec fn query_of(filter: Filter, bounds: Option<(Timestamp, Timestamp)>) -> Option<Query> {
    match filter {
        Filter::All => Some(Query::All),
        Filter::Last => Some(Query::Last),
        _ => match bounds {
            Some(b) => Some(Query::Between(b.0, b.1)),
            None => None,
        },
    }
}

/// The two times that a filter asks of the local clock, given today and how
/// many days today lies after Monday: a day runs from its midnight to the
/// next midnight, a week from the first second of its Monday to the last
/// second of its Sunday. `None` for a filter that asks no times, and for
/// days that cannot be counted.
pub open spec fn asked_of(filter: Filter, today: Day, weekday: u32) -> Option<(Asked, Asked)> {
    match filter {
        Filter::Day(d) => day_asked(d),
        Filter::Week => {
            let week = week_around(today.number as int, weekday as int);
            if i32::MIN <= week.0 && week.1 <= i32::MAX {
                Some(span_asked(Day { number: week.0 as i32 }, Day { number: week.1 as i32 }))
            } else {
                None
            }
        },
        _ => None,
    }
}

/// `query` is a query that the filter can stand for: with some day as
/// today, counted after the Monday of its week, the local clock showed the
/// times that the filter asks at the instants of the query.
pub open spec fn asks_query(filter: Filter, query: Query) -> bool {
    exists|today: Day, weekday: u32, found: Option<(Timestamp, Timestamp)>|
        #![trigger asked_of(filter, today, weekday), query_of(filter, found)]
        weekday == weekday_of(today.number as int) && answers_asked(
            asked_of(filter, today, weekday),
            found,
        ) && query_of(filter, found) == Some(query)
}

impl Task {
    /// A copy of the task.
    pub fn duplicate(&self) -> (t: Task)
        ensures
            t == *self,
    {
        Task {
            id: self.id,
            title: self.title.clone(),
            started_at: self.started_at,
            finished_at: self.finished_at,
        }
    }

    /// The seconds spent on the task: up to its end, or up to `now` while it
    /// is still running.
    pub fn duration_at(&self, now: Timestamp) -> (d: i128)
        ensures
            d == self@.elapsed(now@),
    {
        let until: i64 = match self.finished_at {
            Some(t) => t.secs,
            None => now.secs,
        };
        until as i128 - self.started_at.secs as i128
    }

    /// The seconds spent on the task: up to its end, or up to this moment
    /// while it is still running. Which moment this is, the clock decides.
    pub fn duration(&self) -> (d: i128)
        ensures
            exists|now: Timestamp| d == #[trigger] self@.elapsed(now@),
            self.finished_at matches Some(end) ==> d == end@ - self.started_at@,
    {
        let now = Timestamp::now();
        let d = self.duration_at(now);
        assert(d == self@.elapsed(now@));
        d
    }
}

impl Filter {
    /// The first and the last local day that the filter spans, given today
    /// and how many days today lies after Monday. `None` for a filter that
    /// spans no days, and for a week that cannot be counted.
    pub fn days(&self, today: Day, weekday: u32) -> (r: Option<(Day, Day)>)
        ensures
            r is Some <==> (days_spanned(*self, today, weekday) matches Some(d) && i32::MIN <= d.0
                && d.1 <= i32::MAX),
            r matches Some(d) ==> days_spanned(*self, today, weekday) == Some(
                (d.0.number as int, d.1.number as int),
            ),
    {
        match self {
            Filter::Day(d) => Some((*d, *d)),
            Filter::Week => today.week(weekday),
            _ => None,
        }
    }

    /// The query that the filter stands for, given the instants that bound
    /// its days.
    pub fn shape(&self, bounds: Option<(Timestamp, Timestamp)>) -> (r: Option<Query>)
        ensures
            r == query_of(*self, bounds),
    {
        match self {
            Filter::All => Some(Query::All),
            Filter::Last => Some(Query::Last),
            _ => match bounds {
                Some((from, to)) => Some(Query::Between(from, to)),
                None => None,
            },
        }
    }

    /// The two times that the filter asks of the local clock, given today and
    /// how many days today lies after Monday.
    pub fn asks(&self, today: Day, weekday: u32) -> (r: Option<(Asked, Asked)>)
        ensures
            r == asked_of(*self, today, weekday),
    {
        match self {
            Filter::Day(d) => d.asks_day(),
            Filter::Week => match self.days(today, weekday) {
                Some((monday, sunday)) => Some(monday.asks(&sunday)),
                None => None,
            },
            _ => None,
        }
    }

    /// The query that the filter stands for today, in the local time zone.
    /// `None` only for a day or a week, where days cannot be counted or the
    /// local clock does not show the times asked.
    pub fn resolve(&self) -> (r: Option<Query>)
        ensures
            r matches Some(query) ==> asks_query(*self, query),
            r is None ==> (*self is Day || *self is Week),
    {
        // Only a week needs to know what day it is.
        let today = match self {
            Filter::Week => Day::today().0,
            _ => Day { number: 0 },
        };
        let weekday = today.weekday();
        let found = instants_of(self.asks(today, weekday));
        let r = self.shape(found);
        assert(weekday == weekday_of(today.number as int) && answers_asked(
            asked_of(*self, today, weekday),
            found,
        ) && query_of(*self, found) == r);
        r
    }
}

} // verus!
