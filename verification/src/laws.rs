//! What holds of the log whatever is done with it. Each law is stated over
//! the model that the contracts of the stores speak of.

use crate::record::{
    answers_all, answers_range, ids_increase, in_listing_order, is_latest, lemma_listing_has_no_repeats,
    next_id, with_started, Record,
};
use crate::commands::{lists, lists_filter, spent_of, Line};
use crate::db::answers;
use crate::db::models::{asks_query, Filter, Query};
use crate::time::Day;
use vstd::prelude::*;

verus! {

/// The table after one interval has been started for each of `starts`, in
/// their order, none of them with an end.
pub open spec fn started_all(t: Seq<Record>, starts: Seq<int>, labels: Seq<Seq<char>>) -> Seq<Record>
    decreases starts.len(),
{
    if starts.len() == 0 {
        t
    } else {
        with_started(
            started_all(t, starts.drop_last(), labels.drop_last()),
            starts.last(),
            None,
            labels.last(),
        )
    }
}

/// Starting intervals one after the other, at growing times and without
/// ending any by hand, leaves each of them ended at the start of the next,
/// and the last one running. Each ends no earlier than it started, the ids
/// keep growing, and of the rows that were there before only the last can
/// have changed.
pub proof fn stitching(t: Seq<Record>, starts: Seq<int>, labels: Seq<Seq<char>>)
    requires
        ids_increase(t),
        starts.len() == labels.len(),
        forall|i: int, j: int| 0 <= i < j < starts.len() ==> starts[i] < starts[j],
    ensures
        ({
            let after = started_all(t, starts, labels);
            let m = t.len() as int;
            let n = starts.len() as int;
            &&& ids_increase(after)
            &&& after.len() == m + n
            &&& forall|k: int|
                0 <= k < n ==> {
                    &&& (#[trigger] after[m + k]).start == starts[k]
                    &&& after[m + k].label == labels[k]
                    &&& after[m + k].end == (if k + 1 < n {
                        Some(starts[k + 1])
                    } else {
                        None
                    })
                    &&& after[m + k].well_formed()
                    &&& after[m + k].id == next_id(t) + k
                }
            &&& forall|i: int| 0 <= i < m - 1 ==> #[trigger] after[i] == t[i]
            &&& m > 0 ==> after[m - 1] == (if n > 0 {
                t[m - 1].closed(starts[0])
            } else {
                t[m - 1]
            })
        }),
    decreases starts.len(),
{
    let m = t.len() as int;
    let n = starts.len() as int;
    if n > 0 {
        let before = started_all(t, starts.drop_last(), labels.drop_last());
        stitching(t, starts.drop_last(), labels.drop_last());
        let after = started_all(t, starts, labels);
        let last = next_id(before) - 1;
        assert(starts.drop_last().len() == n - 1);
        assert forall|i: int| 0 <= i < before.len() - 1 implies #[trigger] after[i] == before[i] by {
            assert(before[i].id < before[before.len() - 1].id);
        }
        assert forall|k: int| 0 <= k < n implies {
            &&& (#[trigger] after[m + k]).start == starts[k]
            &&& after[m + k].label == labels[k]
            &&& after[m + k].end == (if k + 1 < n {
                Some(starts[k + 1])
            } else {
                None
            })
            &&& after[m + k].well_formed()
            &&& after[m + k].id == next_id(t) + k
        } by {
            let closed = crate::record::with_closed(before, last, starts.last());
            assert(after == closed.push(
                Record { id: next_id(before), start: starts.last(), end: None, label: labels.last() },
            ));
            assert(before.len() == m + n - 1);
            if k < n - 1 {
                assert(after[m + k] == closed[m + k]);
                assert(before[m + k].start == starts.drop_last()[k]);
                assert(starts.drop_last()[k] == starts[k]);
                assert(labels.drop_last()[k] == labels[k]);
                assert(before[m + k].id == next_id(t) + k);
                if k + 1 < n - 1 {
                    assert(starts.drop_last()[k + 1] == starts[k + 1]);
                    assert(before[m + k].id < before[m + n - 2].id);
                    assert(before.last() == before[m + n - 2]);
                    assert(closed[m + k] == before[m + k]);
                    assert(starts[k] < starts[k + 1]);
                } else {
                    assert(before.last() == before[m + k]);
                    assert(before[m + k].end is None);
                    assert(closed[m + k] == before[m + k].closed(starts.last()));
                    assert(starts[k] < starts[n - 1]);
                }
            } else {
                assert(after[m + k] == Record {
                    id: next_id(before),
                    start: starts.last(),
                    end: None,
                    label: labels.last(),
                });
                if n - 1 > 0 {
                    assert(before.last() == before[m + n - 2]);
                    assert(before[m + (n - 2)].id == next_id(t) + (n - 2));
                } else {
                    assert(before == t);
                }
            }
        }
        assert forall|i: int, j: int| 0 <= i < j < after.len() implies after[i].id < after[j].id by {
            if j < before.len() {
                assert(before[i].id < before[j].id);
            } else if before.len() > 0 {
                if i < before.len() - 1 {
                    assert(before[i].id < before[before.len() - 1].id);
                }
            }
        }
    }
}

/// Every row but the last has an end.
pub open spec fn only_last_may_run(t: Seq<Record>) -> bool {
    forall|i: int| 0 <= i < t.len() - 1 ==> (#[trigger] t[i]).end is Some
}

/// Where at most the last interval is running, starting another leaves at
/// most the new one running: no more than one interval runs at a time.
pub proof fn one_runs_at_most(t: Seq<Record>, start: int, end: Option<int>, label: Seq<char>)
    requires
        ids_increase(t),
        only_last_may_run(t),
    ensures
        only_last_may_run(with_started(t, start, end, label)),
{
    let after = with_started(t, start, end, label);
    assert forall|i: int| 0 <= i < after.len() - 1 implies (#[trigger] after[i]).end is Some by {
        if i < t.len() - 1 {
            assert(t[i].end is Some);
        }
    }
}

/// The time spent on an interval that does not end before it starts is never
/// negative, as long as the clock has not gone back behind its start.
pub proof fn duration_is_not_negative(r: Record, now: int)
    requires
        r.well_formed(),
        now >= r.start,
    ensures
        r.elapsed(now) >= 0,
{
}

/// Two listings that hold the same rows, each in the order of a listing,
/// are the same listing.
proof fn lemma_same_rows_same_listing(a: Seq<Record>, b: Seq<Record>)
    requires
        in_listing_order(a),
        in_listing_order(b),
        forall|i: int| 0 <= i < a.len() ==> b.contains(#[trigger] a[i]),
        forall|i: int| 0 <= i < b.len() ==> a.contains(#[trigger] b[i]),
    ensures
        a == b,
    decreases a.len(),
{
    if a.len() == 0 {
        if b.len() > 0 {
            assert(a.contains(b[0]));
        }
        assert(a =~= b);
    } else {
        assert(b.contains(a[0]));
        let j = choose|j: int| 0 <= j < b.len() && b[j] == a[0];
        assert(a.contains(b[0]));
        let i = choose|i: int| 0 <= i < a.len() && a[i] == b[0];
        if i > 0 {
            assert(a[0].precedes(a[i]));
            if j > 0 {
                assert(b[0].precedes(b[j]));
            }
        }
        assert(a[0] == b[0]);
        let a1 = a.drop_first();
        let b1 = b.drop_first();
        assert forall|x: int, y: int| 0 <= x < y < a1.len() implies (#[trigger] a1[x]).precedes(
            #[trigger] a1[y],
        ) by {
            assert(a[x + 1].precedes(a[y + 1]));
        }
        assert forall|x: int, y: int| 0 <= x < y < b1.len() implies (#[trigger] b1[x]).precedes(
            #[trigger] b1[y],
        ) by {
            assert(b[x + 1].precedes(b[y + 1]));
        }
        assert forall|x: int| 0 <= x < a1.len() implies b1.contains(#[trigger] a1[x]) by {
            assert(a1[x] == a[x + 1]);
            assert(b.contains(a[x + 1]));
            let y = choose|y: int| 0 <= y < b.len() && b[y] == a[x + 1];
            if y == 0 {
                lemma_listing_has_no_repeats(a, 0, x + 1);
            }
            assert(b1[y - 1] == a1[x]);
        }
        assert forall|x: int| 0 <= x < b1.len() implies a1.contains(#[trigger] b1[x]) by {
            assert(b1[x] == b[x + 1]);
            assert(a.contains(b[x + 1]));
            let y = choose|y: int| 0 <= y < a.len() && a[y] == b[x + 1];
            if y == 0 {
                lemma_listing_has_no_repeats(b, 0, x + 1);
            }
            assert(a1[y - 1] == b1[x]);
        }
        lemma_same_rows_same_listing(a1, b1);
        assert(a =~= seq![a[0]] + a1);
        assert(b =~= seq![b[0]] + b1);
    }
}

/// A range has one answer: the rows that start in it, each once, by start and
/// then by id. Two listings that answer the same range of the same table are
/// equal.
pub proof fn range_has_one_answer(t: Seq<Record>, from: int, to: int, a: Seq<Record>, b: Seq<Record>)
    requires
        answers_range(t, from, to, a),
        answers_range(t, from, to, b),
    ensures
        a == b,
{
    assert forall|i: int| 0 <= i < a.len() implies b.contains(#[trigger] a[i]) by {
        assert(t.contains(a[i]));
        let k = choose|k: int| 0 <= k < t.len() && t[k] == a[i];
        assert(t[k].starts_within(from, to));
    }
    assert forall|i: int| 0 <= i < b.len() implies a.contains(#[trigger] b[i]) by {
        assert(t.contains(b[i]));
        let k = choose|k: int| 0 <= k < t.len() && t[k] == b[i];
        assert(t[k].starts_within(from, to));
    }
    lemma_same_rows_same_listing(a, b);
}

/// The answer to a range holds a row if and only if the row is in the table
/// and starts in the range, and it holds no row twice.
pub proof fn range_answer_is_exact(t: Seq<Record>, from: int, to: int, rows: Seq<Record>, r: Record)
    requires
        answers_range(t, from, to, rows),
    ensures
        rows.contains(r) <==> t.contains(r) && r.starts_within(from, to),
        rows.no_duplicates(),
{
    if rows.contains(r) {
        let i = choose|i: int| 0 <= i < rows.len() && rows[i] == r;
        assert(t.contains(rows[i]));
    }
    if t.contains(r) && r.starts_within(from, to) {
        let k = choose|k: int| 0 <= k < t.len() && t[k] == r;
        assert(t[k].starts_within(from, to));
    }
    assert forall|i: int, j: int| 0 <= i < rows.len() && 0 <= j < rows.len() && i != j implies rows[i]
        != rows[j] by {
        if rows[i] == rows[j] {
            lemma_listing_has_no_repeats(rows, i, j);
        }
    }
}

/// "All" has one answer too.
pub proof fn all_has_one_answer(t: Seq<Record>, a: Seq<Record>, b: Seq<Record>)
    requires
        answers_all(t, a),
        answers_all(t, b),
    ensures
        a == b,
{
    assert forall|i: int| 0 <= i < a.len() implies b.contains(#[trigger] a[i]) by {
        assert(t.contains(a[i]));
        let k = choose|k: int| 0 <= k < t.len() && t[k] == a[i];
        assert(b.contains(t[k]));
    }
    assert forall|i: int| 0 <= i < b.len() implies a.contains(#[trigger] b[i]) by {
        assert(t.contains(b[i]));
        let k = choose|k: int| 0 <= k < t.len() && t[k] == b[i];
        assert(a.contains(t[k]));
    }
    lemma_same_rows_same_listing(a, b);
}

/// A table without repeated ids holds at most one row for an id, so looking
/// an id up twice in a table that has not changed gives the same row.
pub proof fn lookup_is_unique(t: Seq<Record>, id: int, a: Record, b: Record)
    requires
        ids_increase(t),
        t.contains(a),
        t.contains(b),
        a.id == id,
        b.id == id,
    ensures
        a == b,
{
    let i = choose|i: int| 0 <= i < t.len() && t[i] == a;
    let j = choose|j: int| 0 <= j < t.len() && t[j] == b;
    if i < j {
        assert(t[i].id < t[j].id);
    } else if j < i {
        assert(t[j].id < t[i].id);
    }
}

/// A table has at most one row that started last.
pub proof fn latest_is_unique(t: Seq<Record>, a: Record, b: Record)
    requires
        is_latest(t, a),
        is_latest(t, b),
    ensures
        a == b,
{
    let i = choose|i: int| 0 <= i < t.len() && t[i] == a;
    let j = choose|j: int| 0 <= j < t.len() && t[j] == b;
    assert(t[i] == b || t[i].precedes(b));
    assert(t[j] == a || t[j].precedes(a));
}

/// Where the starts grow with the ids, the row that started last is the row
/// with the highest id: the last row of the table.
pub proof fn latest_is_last_added(t: Seq<Record>)
    requires
        ids_increase(t),
        t.len() > 0,
        forall|i: int, j: int| 0 <= i < j < t.len() ==> t[i].start <= t[j].start,
    ensures
        is_latest(t, t.last()),
{
    let n = t.len() as int;
    assert(t[n - 1] == t.last());
    assert forall|k: int| 0 <= k < n implies #[trigger] t[k] == t.last() || t[k].precedes(t.last()) by {
        if k < n - 1 {
            assert(t[k].id < t[n - 1].id);
            assert(t[k].start <= t[n - 1].start);
        }
    }
}

/// An empty table answers every range with nothing, and has no row that
/// started last.
pub proof fn empty_table_answers_nothing(from: int, to: int, rows: Seq<Record>, r: Record)
    requires
        answers_range(Seq::<Record>::empty(), from, to, rows),
    ensures
        rows.len() == 0,
        !is_latest(Seq::<Record>::empty(), r),
{
    if rows.len() > 0 {
        assert(Seq::<Record>::empty().contains(rows[0]));
    }
}

/// A range that begins after every row has started holds no row.
pub proof fn range_after_every_start_is_empty(t: Seq<Record>, from: int, to: int, rows: Seq<Record>)
    requires
        answers_range(t, from, to, rows),
        forall|k: int| 0 <= k < t.len() ==> (#[trigger] t[k]).start < from,
    ensures
        rows.len() == 0,
{
    if rows.len() > 0 {
        assert(t.contains(rows[0]));
        let k = choose|k: int| 0 <= k < t.len() && t[k] == rows[0];
        assert(t[k].start < from);
    }
}

/// A day lists nothing of a table whose rows all started a day or more
/// before a UTC clock shows the midnight with which that day begins: the
/// local clock is less than a day off, so they started before the day did.
pub proof fn earlier_days_are_not_listed(t: Seq<Record>, day: Day, query: Query, rows: Seq<Record>)
    requires
        asks_query(Filter::Day(day), query),
        answers(t, query, rows),
        forall|k: int| 0 <= k < t.len() ==> (#[trigger] t[k]).start <= day.number * 86_400 - 86_400,
    ensures
        rows.len() == 0,
{
    match query {
        Query::Between(from, to) => {
            range_after_every_start_is_empty(t, from@, to@, rows);
        },
        _ => {},
    }
}

/// The listing of a day is empty where every row of the table started a day
/// or more before a UTC clock shows the midnight with which that day
/// begins.
pub proof fn earlier_days_leave_the_listing_empty(lines: Seq<Line>, t: Seq<Record>, day: Day)
    requires
        lists_filter(lines, t, Filter::Day(day)),
        forall|k: int| 0 <= k < t.len() ==> (#[trigger] t[k]).start <= day.number * 86_400 - 86_400,
    ensures
        lines.len() == 0,
{
    let (query, rows, now) = choose|query: Query, rows: Seq<Record>, now: int|
        #![trigger answers(t, query, rows), lists(lines, rows, now)]
        asks_query(Filter::Day(day), query) && answers(t, query, rows) && lists(lines, rows, now);
    earlier_days_are_not_listed(t, day, query, rows);
}

/// Whole hours, the minutes left over and the seconds left over add up.
proof fn lemma_parts_add_up(s: int)
    requires
        s >= 0,
    ensures
        (s / 3_600) * 3_600 + ((s / 60) % 60) * 60 + s % 60 == s,
        0 <= s / 3_600 <= s,
{
    let minutes = s / 60;
    assert(s == 60 * minutes + s % 60);
    assert(minutes == 60 * (minutes / 60) + minutes % 60);
    vstd::arithmetic::div_mod::lemma_div_denominator(s, 60, 60);
    assert(minutes / 60 == s / 3_600);
}

/// The hours, minutes and seconds that are shown add up to the seconds that
/// were spent, and the minutes and seconds stay under 60.
pub proof fn spent_adds_up(seconds: int)
    requires
        i128::MIN < seconds <= i128::MAX,
    ensures
        spent_of(seconds).hours * 3_600 + spent_of(seconds).minutes * 60 + spent_of(seconds).seconds
            == seconds,
        -60 < spent_of(seconds).minutes < 60,
        -60 < spent_of(seconds).seconds < 60,
{
    if seconds >= 0 {
        lemma_parts_add_up(seconds);
    } else {
        lemma_parts_add_up(-seconds);
    }
}

} // verus!
