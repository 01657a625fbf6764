use zeitfresser::commands::{
    clock_at, cmd_clear, cmd_list, cmd_start, cmd_stop, cmd_summary, db, print_tasks, report, spent,
    start_at, stop_at, ClockTime, Line, Spent, StopOutcome, StopRequest,
};
use zeitfresser::db::{DbError, Task, DB};
use zeitfresser::time::Timestamp;

fn at(secs: i64) -> Timestamp {
    Timestamp { secs }
}

fn task(id: i32, title: &str, start: i64, end: Option<i64>) -> Task {
    Task { id, title: title.to_string(), started_at: at(start), finished_at: end.map(at) }
}

fn log(rows: Vec<Task>) -> DB {
    db(rows).unwrap()
}

fn clock(hour: u32, minute: u32, second: u32) -> ClockTime {
    ClockTime { hour, minute, second }
}

#[test]
fn a_log_is_opened_from_its_rows() {
    let rows = vec![task(1, "a", 10, Some(20)), task(3, "b", 20, None)];
    assert_eq!(db(rows.clone()).unwrap().tasks(), rows);
    assert!(matches!(db(vec![task(3, "a", 10, None), task(1, "b", 20, None)]), Err(DbError::Corrupt)));
}

#[test]
fn starting_a_task_ends_the_one_before() {
    let mut log = log(Vec::new());
    start_at(&mut log, "a", at(100)).unwrap();
    start_at(&mut log, "b", at(200)).unwrap();
    start_at(&mut log, "c", at(300)).unwrap();
    assert_eq!(
        log.tasks(),
        vec![task(1, "a", 100, Some(200)), task(2, "b", 200, Some(300)), task(3, "c", 300, None)]
    );
}

#[test]
fn starting_a_task_by_the_clock() {
    let mut log = log(Vec::new());
    cmd_start(&mut log, "a").unwrap();
    cmd_start(&mut log, "b").unwrap();
    let tasks = log.tasks();
    assert_eq!(tasks.len(), 2);
    assert_eq!(tasks[0].finished_at, Some(tasks[1].started_at));
    assert_eq!(tasks[1].finished_at, None);
}

#[test]
fn a_start_that_is_refused_changes_nothing() {
    let mut log = log(vec![task(1, "a", 10, None)]);
    assert_eq!(start_at(&mut log, "", at(20)), Err(DbError::EmptyTitle));
    assert_eq!(cmd_start(&mut log, ""), Err(DbError::EmptyTitle));
    assert_eq!(log.tasks(), vec![task(1, "a", 10, None)]);
    let mut full = db(vec![task(i32::MAX, "a", 10, None)]).unwrap();
    assert_eq!(start_at(&mut full, "b", at(20)), Err(DbError::Full));
    assert_eq!(full.tasks(), vec![task(i32::MAX, "a", 10, None)]);
}

#[test]
fn stopping_now_ends_the_last_task() {
    let mut log = log(vec![task(1, "a", 10, Some(20)), task(2, "b", 20, None)]);
    assert_eq!(stop_at(&mut log, StopRequest::Now, at(50)), StopOutcome::Stopped(at(50)));
    assert_eq!(log.tasks(), vec![task(1, "a", 10, Some(20)), task(2, "b", 20, Some(50))]);
}

#[test]
fn stopping_at_a_clock_time_of_today() {
    let midnight: i64 = 19_675 * 86_400;
    let mut log = log(vec![task(1, "a", midnight + 100, None)]);
    let outcome = stop_at(&mut log, StopRequest::Clock(7, 15), at(midnight + 80_000));
    assert_eq!(outcome, StopOutcome::Stopped(at(midnight + 7 * 3_600 + 15 * 60)));
    assert_eq!(log.tasks(), vec![task(1, "a", midnight + 100, Some(midnight + 26_100))]);
}

#[test]
fn stopping_corrects_a_task_that_has_ended() {
    let mut log = log(vec![task(1, "a", 10, Some(20))]);
    assert_eq!(stop_at(&mut log, StopRequest::Now, at(30)), StopOutcome::Stopped(at(30)));
    assert_eq!(log.tasks(), vec![task(1, "a", 10, Some(30))]);
}

#[test]
fn stopping_an_empty_log_does_nothing() {
    let mut log = log(Vec::new());
    assert_eq!(stop_at(&mut log, StopRequest::Now, at(30)), StopOutcome::NoTask);
    assert_eq!(stop_at(&mut log, StopRequest::Clock(7, 15), at(30)), StopOutcome::NoTask);
    assert_eq!(cmd_stop(&mut log, None), StopOutcome::NoTask);
    assert_eq!(cmd_stop(&mut log, Some("07:15")), StopOutcome::NoTask);
    assert!(log.tasks().is_empty());
}

#[test]
fn a_time_that_cannot_be_read_is_rejected_on_an_empty_log_too() {
    let mut log = log(Vec::new());
    assert_eq!(stop_at(&mut log, StopRequest::Unreadable, at(30)), StopOutcome::Rejected);
    assert_eq!(stop_at(&mut log, StopRequest::Clock(24, 0), at(30)), StopOutcome::Rejected);
    assert_eq!(cmd_stop(&mut log, Some("nonsense")), StopOutcome::Rejected);
    assert_eq!(cmd_stop(&mut log, Some("abc")), StopOutcome::Rejected);
    assert_eq!(cmd_stop(&mut log, Some("25:99")), StopOutcome::Rejected);
    assert!(log.tasks().is_empty());
}

#[test]
fn a_time_that_cannot_be_read_is_rejected() {
    let mut log = log(vec![task(1, "a", 10, None)]);
    assert_eq!(stop_at(&mut log, StopRequest::Unreadable, at(30)), StopOutcome::Rejected);
    assert_eq!(stop_at(&mut log, StopRequest::Clock(24, 0), at(30)), StopOutcome::Rejected);
    assert_eq!(stop_at(&mut log, StopRequest::Clock(0, 60), at(30)), StopOutcome::Rejected);
    assert_eq!(stop_at(&mut log, StopRequest::Clock(0, 0), at(i64::MIN)), StopOutcome::Rejected);
    assert_eq!(cmd_stop(&mut log, Some("25:00")), StopOutcome::Rejected);
    assert_eq!(cmd_stop(&mut log, Some("25:99")), StopOutcome::Rejected);
    assert_eq!(cmd_stop(&mut log, Some("abc")), StopOutcome::Rejected);
    assert_eq!(cmd_stop(&mut log, Some("soon")), StopOutcome::Rejected);
    assert_eq!(log.tasks(), vec![task(1, "a", 10, None)]);
}

#[test]
fn stopping_by_the_clock() {
    let mut log = log(vec![task(1, "a", 10, None)]);
    let before = Timestamp::now();
    let outcome = cmd_stop(&mut log, None);
    if let StopOutcome::Stopped(t) = outcome {
        assert_eq!(log.tasks()[0].finished_at, Some(t));
    }
    let after = Timestamp::now();
    match outcome {
        StopOutcome::Stopped(t) => {
            assert!(before.secs <= t.secs && t.secs <= after.secs);
            assert_eq!(log.tasks(), vec![task(1, "a", 10, Some(t.secs))]);
        }
        other => panic!("not stopped: {:?}", other),
    }
    let outcome = cmd_stop(&mut log, Some("07:15"));
    let day = Timestamp::now().day();
    match outcome {
        StopOutcome::Stopped(t) => {
            assert_eq!(t.second_of_day(), 7 * 3_600 + 15 * 60);
            assert!((t.day() - day).abs() <= 1);
            assert_eq!(log.tasks(), vec![task(1, "a", 10, Some(t.secs))]);
        }
        other => panic!("not stopped: {:?}", other),
    }
}

#[test]
fn clearing_removes_every_task() {
    let mut log = log(vec![task(1, "a", 10, None), task(2, "b", 20, None)]);
    cmd_clear(&mut log);
    assert!(log.tasks().is_empty());
}

#[test]
fn seconds_are_shown_as_hours_minutes_and_seconds() {
    assert_eq!(spent(0), Spent { hours: 0, minutes: 0, seconds: 0 });
    assert_eq!(spent(59), Spent { hours: 0, minutes: 0, seconds: 59 });
    assert_eq!(spent(3_661), Spent { hours: 1, minutes: 1, seconds: 1 });
    assert_eq!(spent(86_399), Spent { hours: 23, minutes: 59, seconds: 59 });
    assert_eq!(spent(61 * 3_600 + 5), Spent { hours: 61, minutes: 0, seconds: 5 });
    assert_eq!(spent(1_000 * 3_600 + 59 * 60 + 59), Spent { hours: 1_000, minutes: 59, seconds: 59 });
    assert_eq!(spent(-(61 * 3_600 + 5)), Spent { hours: -61, minutes: 0, seconds: -5 });
    assert_eq!(spent(-3_661), Spent { hours: -1, minutes: -1, seconds: -1 });
    assert_eq!(spent(-59), Spent { hours: 0, minutes: 0, seconds: -59 });
}

#[test]
fn the_time_of_day_of_an_instant() {
    assert_eq!(clock_at(at(0)), clock(0, 0, 0));
    assert_eq!(clock_at(at(1_700_000_000)), clock(22, 13, 20));
    assert_eq!(clock_at(at(-1)), clock(23, 59, 59));
}

#[test]
fn a_listing_has_a_line_for_each_task() {
    let day: i64 = 86_400;
    let tasks = vec![
        task(1, "a", 10 * day + 3_600, Some(10 * day + 3_600 + 3_661)),
        task(2, "b", 10 * day + 7_322, Some(11 * day + 5)),
        task(3, "c", 11 * day + 5, None),
    ];
    let lines = report(&tasks, at(11 * day + 65));
    assert_eq!(
        lines,
        vec![
            Line {
                day: 10,
                new_day: true,
                start: clock(1, 0, 0),
                end: Some(clock(2, 1, 1)),
                spent: Spent { hours: 1, minutes: 1, seconds: 1 },
                title: "a".to_string(),
            },
            Line {
                day: 10,
                new_day: false,
                start: clock(2, 2, 2),
                end: Some(clock(0, 0, 5)),
                spent: Spent { hours: 21, minutes: 58, seconds: 3 },
                title: "b".to_string(),
            },
            Line {
                day: 11,
                new_day: true,
                start: clock(0, 0, 5),
                end: None,
                spent: Spent { hours: 0, minutes: 1, seconds: 0 },
                title: "c".to_string(),
            },
        ]
    );
    assert_eq!(report(&Vec::new(), at(0)), Vec::new());
}

#[test]
fn a_task_of_sixty_one_hours() {
    let start: i64 = 19_723 * 86_400;
    let tasks = vec![task(1, "a", start, Some(start + 2 * 86_400 + 13 * 3_600))];
    let lines = print_tasks(tasks);
    assert_eq!(lines.len(), 1);
    assert_eq!(lines[0].spent, Spent { hours: 61, minutes: 0, seconds: 0 });
    assert_eq!(lines[0].start, clock(0, 0, 0));
    assert_eq!(lines[0].end, Some(clock(13, 0, 0)));
}

#[test]
fn yesterdays_tasks_are_not_in_todays_listing() {
    let now = Timestamp::now().secs;
    let log = log(vec![
        task(1, "a", now - 3 * 86_400, Some(now - 3 * 86_400 + 60)),
        task(2, "b", now - 2 * 86_400, None),
    ]);
    assert!(cmd_list(&log).unwrap().is_empty());
    assert_eq!(log.tasks().len(), 2);
}

#[test]
fn a_listing_by_the_clock() {
    let tasks = vec![task(1, "a", 100, Some(175)), task(2, "b", 175, Some(180))];
    assert_eq!(print_tasks(tasks.clone()), report(&tasks, at(0)));
    assert!(print_tasks(Vec::new()).is_empty());
}

#[test]
fn todays_and_this_weeks_listing() {
    let now = Timestamp::now().secs;
    let log = log(vec![task(1, "long ago", now - 40 * 86_400, Some(now - 39 * 86_400)), task(2, "now", now, None)]);
    let today = cmd_list(&log).unwrap();
    assert_eq!(today.len(), 1);
    assert_eq!(today[0].title, "now");
    assert!(today[0].new_day);
    assert_eq!(today[0].end, None);
    let week = cmd_summary(&log).unwrap();
    assert_eq!(week.len(), 1);
    assert_eq!(week[0].title, "now");
    let nothing = zeitfresser::commands::db(Vec::new()).unwrap();
    assert!(cmd_list(&nothing).unwrap().is_empty());
    assert!(cmd_summary(&nothing).unwrap().is_empty());
}
