//! Instants and calendar days.
//!
//! An instant is a count of whole seconds from 1970-01-01T00:00:00 UTC. A day
//! of the local calendar is a count of days from 1970-01-01. The clock and the
//! time zone database are read through `chrono`; everything that is computed
//! from what they hand back is verified here.

use vstd::prelude::*;

verus! {

/// Seconds in one day.
pub const DAY_SECONDS: i64 = 86_400;

/// An instant, in whole seconds from the Unix epoch (UTC).
#[derive(Clone, Copy, Debug, PartialEq, Eq, Structural)]
pub struct Timestamp {
    pub secs: i64,
}

/// A day of the local calendar, numbered from 1970-01-01 (day 0).
#[derive(Clone, Copy, Debug, PartialEq, Eq, Structural)]
pub struct Day {
    pub number: i32,
}

/// A time that is asked of the local clock: a day and a time of that day.
#[derive(Clone, Copy, Debug, PartialEq, Eq, Structural)]
pub struct Asked {
    pub day: Day,
    pub hour: u32,
    pub minute: u32,
    pub second: u32,
}

impl View for Timestamp {
    type V = int;

    open spec fn view(&self) -> int {
        self.secs as int
    }
}

/// The instant `hour:minute:00` on the UTC day that holds `now`.
pub open spec fn clock_on_day_of(now: int, hour: int, minute: int) -> int {
    now - now % 86_400 + hour * 3_600 + minute * 60
}

/// The Monday and the Sunday of the week that holds `today`, where `weekday`
/// counts the days that `today` lies after Monday.
pub open spec fn week_around(today: int, weekday: int) -> (int, int) {
    (today - weekday, today - weekday + 6)
}

/// How many days the day with this number lies after Monday: day 0,
/// 1970-01-01, was a Thursday.
pub open spec fn weekday_of(number: int) -> int {
    (number + 3) % 7
}

/// The first second of `first` and the last second of `last`.
pub open spec fn span_asked(first: Day, last: Day) -> (Asked, Asked) {
    (
        Asked { day: first, hour: 0, minute: 0, second: 0 },
        Asked { day: last, hour: 23, minute: 59, second: 59 },
    )
}

/// The midnight with which `day` begins and the midnight with which the next
/// day begins; `None` after the last day that can be counted.
pub open spec fn day_asked(day: Day) -> Option<(Asked, Asked)> {
    if day.number < i32::MAX {
        Some(
            (
                Asked { day, hour: 0, minute: 0, second: 0 },
                Asked { day: Day { number: (day.number + 1) as i32 }, hour: 0, minute: 0, second: 0 },
            ),
        )
    } else {
        None
    }
}

/// `found` holds instants only where times were asked, and then an instant
/// for each of the two times.
pub open spec fn answers_asked(asked: Option<(Asked, Asked)>, found: Option<(Timestamp, Timestamp)>) -> bool {
    found matches Some(b) ==> (asked matches Some(a) && a.0.shown_near(b.0@) && a.1.shown_near(b.1@))
}

/// What `chrono` reads out of a text in the format `%H:%M`: the hour and the
/// minute, or `None` where it rejects the text.
pub uninterp spec fn clock_text_parsed(text: Seq<char>) -> Option<(u32, u32)>;

/// Reads the system clock with `chrono::Utc::now` and hands back its
/// `timestamp()`. Nothing is claimed of the value.
#[verifier::external_body]
fn utc_now_secs() -> (secs: i64) {
    chrono::Utc::now().timestamp()
}

/// Reads today's date in the local time zone with `chrono::Local::now`, and
/// hands back its `to_epoch_days()`. Nothing is claimed of the value.
#[verifier::external_body]
fn local_today() -> (number: i32) {
    chrono::Local::now().date_naive().to_epoch_days()
}

/// Asks `chrono::TimeZone::from_local_datetime` of `chrono::Local` for the
/// instant at which the local clock shows the given time on the given day.
/// `None` where chrono has no such date or time, or where the local time is
/// skipped or repeated. The contract claims two things. One case of `None`,
/// which chrono documents of `and_hms_opt`: an hour from 24, a minute from 60
/// or a second from 60 on is no time. And of an instant that comes back:
/// chrono takes the offset of the zone from the time as a UTC clock would
/// count it, and holds every offset under one day, so the instant lies less
/// than 86 400 seconds from that count. Which instant it is, the time zone
/// database decides.
#[verifier::external_body]
fn local_instant_secs(day: i32, hour: u32, minute: u32, second: u32) -> (secs: Option<i64>)
    ensures
        hour >= 24 || minute >= 60 || second >= 60 ==> secs is None,
        secs matches Some(t) ==> -86_400 < t - (day * 86_400 + hour * 3_600 + minute * 60 + second)
            < 86_400,
{
    let date = chrono::NaiveDate::from_epoch_days(day)?;
    let naive = date.and_hms_opt(hour, minute, second)?;
    let local = chrono::TimeZone::from_local_datetime(&chrono::Local, &naive).single()?;
    Some(local.timestamp())
}

/// Parses a time of day with `chrono::NaiveTime::parse_from_str` and the
/// format `%H:%M`, and hands back the hour and the minute of the result. The
/// contract only names the result.
#[verifier::external_body]
fn parse_clock_text(text: &str) -> (parsed: Option<(u32, u32)>)
    ensures
        parsed == clock_text_parsed(text@),
{
    match chrono::NaiveTime::parse_from_str(text, "%H:%M") {
        Ok(time) => Some((chrono::Timelike::hour(&time), chrono::Timelike::minute(&time))),
        Err(_) => None,
    }
}

/// The quotient of `a` by 86 400, rounded down.
fn floor_days(a: i64) -> (q: i64)
    ensures
        q == a as int / 86_400,
{
    if a >= 0 {
        a / DAY_SECONDS
    } else {
        let below: i64 = -(a + 1);
        -(below / DAY_SECONDS) - 1
    }
}

impl Timestamp {
    /// The current instant, as the system clock has it.
    pub fn now() -> Timestamp {
        Timestamp { secs: utc_now_secs() }
    }

    /// The number of the UTC day that holds this instant.
    pub fn day(&self) -> (d: i64)
        ensures
            d == self@ / 86_400,
    {
        floor_days(self.secs)
    }

    /// The seconds that have passed since UTC midnight.
    pub fn second_of_day(&self) -> (s: u32)
        ensures
            s == self@ % 86_400,
    {
        let d: i64 = floor_days(self.secs);
        let rest: i128 = self.secs as i128 - d as i128 * 86_400;
        rest as u32
    }

    /// The instant at which a UTC clock shows `hour:minute:00` on the day of
    /// `self`. `None` for an hour or a minute that no clock shows, and where
    /// the instant lies outside what an `i64` can count.
    pub fn on_same_day(&self, hour: u32, minute: u32) -> (r: Option<Timestamp>)
        ensures
            r is Some <==> hour < 24 && minute < 60 && i64::MIN <= clock_on_day_of(
                self@,
                hour as int,
                minute as int,
            ) <= i64::MAX,
            r matches Some(t) ==> t@ == clock_on_day_of(self@, hour as int, minute as int),
    {
        if hour >= 24 || minute >= 60 {
            return None;
        }
        let midnight: i128 = floor_days(self.secs) as i128 * 86_400;
        let at: i128 = midnight + hour as i128 * 3_600 + minute as i128 * 60;
        if at < i64::MIN as i128 || at > i64::MAX as i128 {
            None
        } else {
            Some(Timestamp { secs: at as i64 })
        }
    }

    /// Reads a time of day written as `HH:MM`.
    pub fn parse_clock(text: &str) -> (r: Option<(u32, u32)>)
        ensures
            r == clock_text_parsed(text@),
    {
        parse_clock_text(text)
    }
}

impl Day {
    /// Today in the local time zone, and how many days it lies after Monday:
    /// 0 on a Monday, 6 on a Sunday. Which day it is, the clock decides.
    pub fn today() -> (today: (Day, u32))
        ensures
            today.1 == weekday_of(today.0.number as int),
    {
        let today = Day { number: local_today() };
        (today, today.weekday())
    }

    /// How many days this day lies after Monday: 0 on a Monday, 6 on a
    /// Sunday.
    pub fn weekday(&self) -> (w: u32)
        ensures
            w == weekday_of(self.number as int),
    {
        let n: i64 = self.number as i64 + 3;
        if n >= 0 {
            (n % 7) as u32
        } else {
            let behind: i64 = (-n) % 7;
            if behind == 0 {
                0
            } else {
                (7 - behind) as u32
            }
        }
    }

    /// The day after this one; `None` after the last day that an `i32` counts.
    pub fn next(&self) -> (r: Option<Day>)
        ensures
            r is Some <==> self.number < i32::MAX,
            r matches Some(d) ==> d.number == self.number + 1,
    {
        if self.number == i32::MAX {
            None
        } else {
            Some(Day { number: self.number + 1 })
        }
    }

    /// The Monday and the Sunday of the week that holds this day, which lies
    /// `weekday` days after Monday. `None` where either cannot be counted.
    pub fn week(&self, weekday: u32) -> (r: Option<(Day, Day)>)
        ensures
            r is Some <==> i32::MIN <= week_around(self.number as int, weekday as int).0
                && week_around(self.number as int, weekday as int).1 <= i32::MAX,
            r matches Some(w) ==> (w.0.number as int, w.1.number as int) == week_around(
                self.number as int,
                weekday as int,
            ),
    {
        let monday: i64 = self.number as i64 - weekday as i64;
        let sunday: i64 = monday + 6;
        if monday < i32::MIN as i64 || sunday > i32::MAX as i64 {
            None
        } else {
            Some((Day { number: monday as i32 }, Day { number: sunday as i32 }))
        }
    }

    /// The first second of this day and the last second of `last`, as times
    /// to ask of the local clock.
    pub fn asks(&self, last: &Day) -> (r: (Asked, Asked))
        ensures
            r == span_asked(*self, *last),
    {
        (
            Asked { day: *self, hour: 0, minute: 0, second: 0 },
            Asked { day: *last, hour: 23, minute: 59, second: 59 },
        )
    }

    /// The midnight with which this day begins and the midnight with which
    /// the next day begins, as times to ask of the local clock. `None` after
    /// the last day that can be counted.
    pub fn asks_day(&self) -> (r: Option<(Asked, Asked)>)
        ensures
            r == day_asked(*self),
    {
        match self.next() {
            Some(next) => Some(
                (
                    Asked { day: *self, hour: 0, minute: 0, second: 0 },
                    Asked { day: next, hour: 0, minute: 0, second: 0 },
                ),
            ),
            None => None,
        }
    }

    /// The instant at which the local clock shows `hour:minute:second` on this
    /// day, as the time zone database has it. `None` for a time that no clock
    /// shows, and where the local clock skips that time or shows it twice.
    /// An instant that comes back lies less than a day from the instant at
    /// which a UTC clock shows that time.
    pub fn instant(&self, hour: u32, minute: u32, second: u32) -> (r: Option<Timestamp>)
        ensures
            hour >= 24 || minute >= 60 || second >= 60 ==> r is None,
            r matches Some(t) ==> (Asked { day: *self, hour, minute, second }).shown_near(t@),
    {
        match local_instant_secs(self.number, hour, minute, second) {
            Some(secs) => Some(Timestamp { secs }),
            None => None,
        }
    }

    /// The first second of this day and the last second of `last` on the
    /// local clock, as instants. `None` where the local clock does not show
    /// one of them.
    pub fn span_to(&self, last: &Day) -> (r: Option<(Timestamp, Timestamp)>)
        ensures
            answers_asked(Some(span_asked(*self, *last)), r),
    {
        instants_of(Some(self.asks(last)))
    }
}

impl Asked {
    /// The seconds that a UTC clock has counted when it shows this time.
    pub open spec fn reading(self) -> int {
        self.day.number * 86_400 + self.hour * 3_600 + self.minute * 60 + self.second
    }

    /// A clock that is less than a day off the UTC clock can show this time
    /// at the instant `t`.
    pub open spec fn shown_near(self, t: int) -> bool {
        -86_400 < t - self.reading() < 86_400
    }

    /// The instant at which the local clock shows this time.
    pub fn instant(&self) -> (r: Option<Timestamp>)
        ensures
            self.hour >= 24 || self.minute >= 60 || self.second >= 60 ==> r is None,
            r matches Some(t) ==> self.shown_near(t@),
    {
        self.day.instant(self.hour, self.minute, self.second)
    }
}

/// The instants at which the local clock shows the two times that were
/// asked. `None` where nothing was asked, and where the local clock does not
/// show one of the two.
pub fn instants_of(asked: Option<(Asked, Asked)>) -> (r: Option<(Timestamp, Timestamp)>)
    ensures
        answers_asked(asked, r),
{
    match asked {
        Some((from, to)) => pair_of(from.instant(), to.instant()),
        None => None,
    }
}

/// Both values, where both are there.
pub fn pair_of(from: Option<Timestamp>, to: Option<Timestamp>) -> (r: Option<(Timestamp, Timestamp)>)
    ensures
        r == match (from, to) {
            (Some(a), Some(b)) => Some((a, b)),
            _ => None,
        },
{
    match (from, to) {
        (Some(a), Some(b)) => Some((a, b)),
        _ => None,
    }
}

} // verus!
