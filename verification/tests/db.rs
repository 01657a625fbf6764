use zeitfresser::db::{DbError, Filter, Query, Task, DB};
use zeitfresser::time::{instants_of, Asked, Day, Timestamp};

fn at(secs: i64) -> Timestamp {
    Timestamp { secs }
}

fn task(id: i32, title: &str, start: i64, end: Option<i64>) -> Task {
    Task { id, title: title.to_string(), started_at: at(start), finished_at: end.map(at) }
}

fn empty() -> DB {
    DB::new(Vec::new()).unwrap()
}

#[test]
fn add_task() {
    let mut db = empty();
    let names = vec!["a", "b", "c"];
    for n in &names {
        db.add_task(n).unwrap();
    }

    let tasks = db.get_tasks(Filter::All).unwrap();
    assert_eq!(3, tasks.len());
}

#[test]
fn finish_all() {
    let mut db = empty();
    let names = vec!["a", "b", "c"];
    for n in names {
        db.add_task(n).unwrap();
    }
    db.finish_all();
    let tasks = db.get_tasks(Filter::All).unwrap();
    for t in &tasks {
        assert!(t.finished_at != None)
    }
}

#[test]
fn clear_tasks() {
    let mut db = empty();
    db.add_task("a").unwrap();
    db.clear_tasks();
    let tasks = db.get_tasks(Filter::All).unwrap();
    assert_eq!(0, tasks.len());
}

#[test]
fn a_task_is_added_running_under_the_next_id() {
    let mut db = empty();
    db.add_task_at("a", at(100)).unwrap();
    db.add_task_at("b", at(200)).unwrap();
    assert_eq!(db.tasks(), vec![task(1, "a", 100, None), task(2, "b", 200, None)]);
}

#[test]
fn a_task_added_by_the_clock_starts_now() {
    let mut db = empty();
    let before = Timestamp::now().secs;
    db.add_task("a").unwrap();
    let after = Timestamp::now().secs;
    let tasks = db.tasks();
    assert_eq!(tasks.len(), 1);
    assert_eq!((tasks[0].id, tasks[0].title.as_str(), tasks[0].finished_at), (1, "a", None));
    assert!(before <= tasks[0].started_at.secs && tasks[0].started_at.secs <= after);
}

#[test]
fn finishing_leaves_finished_tasks_alone() {
    let mut db = DB::new(vec![task(1, "a", 10, Some(15)), task(2, "b", 20, None)]).unwrap();
    db.finish_all_at(at(30));
    assert_eq!(db.tasks(), vec![task(1, "a", 10, Some(15)), task(2, "b", 20, Some(30))]);
}

#[test]
fn all_tasks_are_listed_by_start() {
    let db = DB::new(vec![
        task(1, "late", 50, None),
        task(2, "early", 10, Some(20)),
        task(5, "late too", 50, None),
        task(6, "middle", 30, None),
    ])
    .unwrap();
    let all = db.get_tasks(Filter::All).unwrap();
    let ids: Vec<i32> = all.iter().map(|t| t.id).collect();
    assert_eq!(ids, vec![2, 6, 1, 5]);
    assert_eq!(all[0], task(2, "early", 10, Some(20)));
    assert_eq!(db.select(&Query::All), all);
}

#[test]
fn the_last_task_is_the_one_that_started_last() {
    assert_eq!(empty().get_tasks(Filter::Last).unwrap(), Vec::new());
    let db = DB::new(vec![task(1, "a", 50, None), task(2, "b", 10, None), task(3, "c", 50, None)]).unwrap();
    assert_eq!(db.get_tasks(Filter::Last).unwrap(), vec![task(3, "c", 50, None)]);
    let db = DB::new(vec![task(1, "a", 60, None), task(2, "b", 10, None)]).unwrap();
    assert_eq!(db.select(&Query::Last), vec![task(1, "a", 60, None)]);
}

#[test]
fn tasks_between_two_instants() {
    let db = DB::new(vec![
        task(1, "a", 9, None),
        task(2, "b", 10, None),
        task(3, "c", 20, None),
        task(4, "d", 21, None),
    ])
    .unwrap();
    let ids: Vec<i32> = db.select(&Query::Between(at(10), at(20))).iter().map(|t| t.id).collect();
    assert_eq!(ids, vec![2, 3]);
    assert!(db.select(&Query::Between(at(11), at(19))).is_empty());
}

#[test]
fn todays_tasks_and_this_weeks_tasks() {
    let now = Timestamp::now().secs;
    let db = DB::new(vec![
        task(1, "long ago", now - 40 * 86_400, Some(now - 39 * 86_400)),
        task(2, "now", now, None),
    ])
    .unwrap();
    let (today, _) = Day::today();
    assert_eq!(db.get_tasks(Filter::Day(today)).unwrap(), vec![task(2, "now", now, None)]);
    assert_eq!(db.get_tasks(Filter::Week).unwrap(), vec![task(2, "now", now, None)]);
    let long_ago = Day { number: today.number - 40 };
    let listed = db.get_tasks(Filter::Day(long_ago)).unwrap();
    assert!(listed.iter().all(|t| t.id == 1));
}

#[test]
fn a_filter_knows_its_days() {
    let today = Day { number: 19_676 };
    let monday = Day { number: 19_674 };
    let sunday = Day { number: 19_680 };
    assert_eq!(Filter::Week.days(today, 2), Some((monday, sunday)));
    assert_eq!(Filter::Day(sunday).days(today, 2), Some((sunday, sunday)));
    assert_eq!(Filter::All.days(today, 2), None);
    assert_eq!(Filter::Last.days(today, 2), None);
    assert_eq!(Filter::Week.days(Day { number: i32::MAX }, 0), None);
}

#[test]
fn a_filter_becomes_a_query() {
    let bounds = Some((at(10), at(20)));
    assert_eq!(Filter::All.shape(bounds), Some(Query::All));
    assert_eq!(Filter::All.shape(None), Some(Query::All));
    assert_eq!(Filter::Last.shape(None), Some(Query::Last));
    assert_eq!(Filter::Week.shape(bounds), Some(Query::Between(at(10), at(20))));
    assert_eq!(Filter::Week.shape(None), None);
    assert_eq!(Filter::Day(Day { number: 3 }).shape(bounds), Some(Query::Between(at(10), at(20))));
    assert_eq!(Filter::Day(Day { number: 3 }).shape(None), None);
    assert_eq!(Filter::All.resolve(), Some(Query::All));
    assert_eq!(Filter::Last.resolve(), Some(Query::Last));
    let day = Day { number: 19_676 };
    let expected = instants_of(day.asks_day()).map(|b| Query::Between(b.0, b.1));
    assert_eq!(Filter::Day(day).resolve(), expected);
}

#[test]
fn a_filter_asks_the_times_that_bound_it() {
    let asked = |number: i32, hour: u32, minute: u32, second: u32| Asked {
        day: Day { number },
        hour,
        minute,
        second,
    };
    let today = Day { number: 19_676 };
    assert_eq!(
        Filter::Day(Day { number: 19_680 }).asks(today, 2),
        Some((asked(19_680, 0, 0, 0), asked(19_681, 0, 0, 0)))
    );
    assert_eq!(Filter::Week.asks(today, 2), Some((asked(19_674, 0, 0, 0), asked(19_680, 23, 59, 59))));
    assert_eq!(Filter::Week.asks(today, 0), Some((asked(19_676, 0, 0, 0), asked(19_682, 23, 59, 59))));
    assert_eq!(Filter::All.asks(today, 2), None);
    assert_eq!(Filter::Last.asks(today, 2), None);
    assert_eq!(Filter::Day(Day { number: i32::MAX }).asks(today, 2), None);
    assert_eq!(Filter::Week.asks(Day { number: i32::MAX }, 0), None);
    assert_eq!(Filter::Week.asks(Day { number: i32::MIN }, 1), None);
}

#[test]
fn a_week_runs_from_its_monday_to_its_sunday() {
    let (today, weekday) = Day::today();
    assert_eq!(weekday, today.weekday());
    let monday = Day { number: today.number - weekday as i32 };
    let sunday = Day { number: monday.number + 6 };
    assert_eq!(monday.weekday(), 0);
    assert_eq!(sunday.weekday(), 6);
    let (from, to) = monday.span_to(&sunday).unwrap();
    let db = DB::new(vec![
        task(1, "the week before", from.secs - 1, None),
        task(2, "on monday", from.secs, None),
        task(3, "on sunday", to.secs, None),
        task(4, "the week after", to.secs + 1, None),
    ])
    .unwrap();
    let ids: Vec<i32> = db.get_tasks(Filter::Week).unwrap().iter().map(|t| t.id).collect();
    if Day::today().0 == today {
        assert_eq!(ids, vec![2, 3]);
    }
}

#[test]
fn a_day_runs_to_the_next_midnight() {
    let day = Day { number: 19_676 };
    let (from, to) = instants_of(day.asks_day()).unwrap();
    let db = DB::new(vec![
        task(1, "the day before", from.secs - 1, None),
        task(2, "at midnight", from.secs, None),
        task(3, "in the evening", to.secs - 1, None),
        task(4, "at the next midnight", to.secs, None),
        task(5, "the day after", to.secs + 1, None),
    ])
    .unwrap();
    let ids: Vec<i32> = db.get_tasks(Filter::Day(day)).unwrap().iter().map(|t| t.id).collect();
    assert_eq!(ids, vec![2, 3, 4]);
}

#[test]
fn a_day_that_no_calendar_holds_cannot_be_listed() {
    let db = empty();
    let nowhere = Filter::Day(Day { number: i32::MAX });
    assert_eq!(nowhere.resolve(), None);
    assert_eq!(db.get_tasks(nowhere), Err(DbError::NoSuchLocalTime));
}

#[test]
fn updating_a_task_overwrites_start_end_and_title() {
    let mut db = DB::new(vec![task(1, "a", 10, None), task(2, "b", 20, None)]).unwrap();
    assert_eq!(db.update_task(task(2, "bee", 22, Some(25))), Ok(()));
    assert_eq!(db.tasks(), vec![task(1, "a", 10, None), task(2, "bee", 22, Some(25))]);
    assert_eq!(db.update_task(task(1, "a", 20, Some(30))), Ok(()));
    assert_eq!(db.tasks(), vec![task(1, "a", 20, Some(30)), task(2, "bee", 22, Some(25))]);
    assert_eq!(db.update_task(task(2, "bee", 22, None)), Ok(()));
    assert_eq!(db.tasks(), vec![task(1, "a", 20, Some(30)), task(2, "bee", 22, None)]);
}

#[test]
fn updating_an_unknown_task_fails_and_changes_nothing() {
    let mut db = DB::new(vec![task(1, "a", 10, None)]).unwrap();
    assert_eq!(db.update_task(task(7, "x", 1, Some(2))), Err(DbError::NotFound));
    assert_eq!(db.update_task(task(-1, "x", 1, Some(2))), Err(DbError::NotFound));
    assert_eq!(db.tasks(), vec![task(1, "a", 10, None)]);
}

#[test]
fn a_task_without_a_title_is_refused() {
    let mut db = DB::new(vec![task(1, "a", 10, None)]).unwrap();
    assert_eq!(db.add_task(""), Err(DbError::EmptyTitle));
    assert_eq!(db.add_task_at("", at(5)), Err(DbError::EmptyTitle));
    assert_eq!(db.tasks(), vec![task(1, "a", 10, None)]);
}

#[test]
fn a_log_whose_last_id_is_the_highest_is_full() {
    let mut db = DB::new(vec![task(i32::MAX, "last", 10, None)]).unwrap();
    assert!(!db.has_room());
    assert_eq!(db.add_task("more"), Err(DbError::Full));
    assert_eq!(db.tasks(), vec![task(i32::MAX, "last", 10, None)]);
    let mut db = DB::new(vec![task(i32::MAX - 1, "one left", 10, None)]).unwrap();
    assert!(db.has_room());
    assert_eq!(db.add_task_at("more", at(20)), Ok(()));
    assert_eq!(db.tasks()[1], task(i32::MAX, "more", 20, None));
}

#[test]
fn rows_with_bad_ids_are_refused() {
    assert!(matches!(DB::new(vec![task(-1, "a", 10, None)]), Err(DbError::Corrupt)));
    assert!(matches!(DB::new(vec![task(2, "a", 10, None), task(2, "b", 20, None)]), Err(DbError::Corrupt)));
    assert!(matches!(DB::new(vec![task(2, "a", 10, None), task(1, "b", 20, None)]), Err(DbError::Corrupt)));
    assert!(DB::new(vec![task(0, "a", 10, None), task(4, "b", 20, None)]).is_ok());
}

#[test]
fn ids_of_tasks_start_again_after_clearing() {
    let mut db = DB::new(vec![task(1, "a", 10, None), task(5, "b", 20, None)]).unwrap();
    db.clear_tasks();
    assert!(db.get_tasks(Filter::Last).unwrap().is_empty());
    db.add_task_at("c", at(30)).unwrap();
    assert_eq!(db.tasks(), vec![task(1, "c", 30, None)]);
}

#[test]
fn the_duration_of_a_task() {
    assert_eq!(task(1, "a", 100, Some(175)).duration_at(at(1_000)), 75);
    assert_eq!(task(1, "a", 100, Some(175)).duration(), 75);
    assert_eq!(task(1, "a", 100, None).duration_at(at(160)), 60);
    assert_eq!(task(1, "a", 100, None).duration_at(at(40)), -60);
    let now = Timestamp::now().secs;
    let spent = task(1, "a", now - 90, None).duration();
    assert!(90 <= spent && spent <= 95);
    assert_eq!(task(3, "x", 7, None).duplicate(), task(3, "x", 7, None));
}
