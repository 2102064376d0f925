use vstd::prelude::*;
use crate::coordinator::{
    activate_model, any_active, at_most_one_active, closes, lemma_activate_wf, lemma_closes_shape,
    lemma_reset_wf, lemma_stop_all_wf, reset_model, stop_all_model, CoordinatorModel,
};
use crate::csv::{csv_text, header, row_text};
use crate::ledger::{latest, row_of, rows_of, sorted_by_time, HistoryEvent, Row};
use crate::text::{decimal, digit_char, fraction, seconds_text};
use crate::timer::{saturate, TimerModel};

verus! {

/// The state after `steps[0]`, then `steps[1]`, and so on, each an activity
/// id activated at a time.
pub open spec fn activate_all(m: CoordinatorModel, steps: Seq<(u8, u64)>) -> CoordinatorModel
    decreases steps.len(),
{
    if steps.len() == 0 {
        m
    } else {
        let p = activate_all(m, steps.drop_last());
        activate_model(p, steps.last().0, steps.last().1)
    }
}

/// Every step names a slot of `m`, and the times never go back, starting
/// no earlier than the last recorded one.
pub open spec fn valid_steps(m: CoordinatorModel, steps: Seq<(u8, u64)>) -> bool {
    &&& forall|i: int| 0 <= i < steps.len() ==> m.valid_slot((#[trigger] steps[i]).0)
    &&& forall|i: int| 0 <= i < steps.len() ==> latest(m.history) <= (#[trigger] steps[i]).1
    &&& forall|i: int, j: int| 0 <= i <= j < steps.len() ==> steps[i].1 <= steps[j].1
}

/// Mutual exclusion: after any sequence of activations, at most one slot
/// runs, and after a nonempty one exactly the last activated slot runs.
pub proof fn law_activations_exclusive(m: CoordinatorModel, steps: Seq<(u8, u64)>)
    requires
        m.wf(),
        valid_steps(m, steps),
    ensures
        activate_all(m, steps).wf(),
        at_most_one_active(activate_all(m, steps).slots),
        activate_all(m, steps).slots.len() == m.slots.len(),
        steps.len() > 0 ==> forall|i: int|
            0 <= i < m.slots.len() ==> (#[trigger] activate_all(m, steps).slots[i].is_active()
                <==> i == steps.last().0 - 1),
        latest(activate_all(m, steps).history) <= if steps.len() == 0 {
            latest(m.history)
        } else {
            steps.last().1
        },
    decreases steps.len(),
{
    if steps.len() > 0 {
        let prev = steps.drop_last();
        assert(valid_steps(m, prev)) by {
            assert forall|i: int| 0 <= i < prev.len() implies m.valid_slot((#[trigger] prev[i]).0) by {
                assert(prev[i] == steps[i]);
            }
            assert forall|i: int| 0 <= i < prev.len() implies latest(m.history) <= (
            #[trigger] prev[i]).1 by {
                assert(prev[i] == steps[i]);
            }
        }
        law_activations_exclusive(m, prev);
        let p = activate_all(m, prev);
        let (id, now) = steps.last();
        assert(steps[steps.len() - 1] == steps.last());
        if prev.len() > 0 {
            assert(prev.last() == steps[steps.len() - 2]);
        }
        lemma_activate_wf(p, id, now);
    }
}

/// Starting a running timer changes nothing: two starts in a row measure one
/// continuous run from the first.
pub proof fn law_start_idempotent(t: TimerModel, n1: u64, n2: u64, now: u64)
    ensures
        t.started(n1).started(n2) == t.started(n1),
        t.started(n1).started(n2).total(now) == t.started(n1).total(now),
        !t.is_active() && n1 <= now ==> t.started(n1).started(n2).total(now) == t.accumulated + (
        now - n1),
{
}

/// The measured time never decreases as the clock advances, and stays the
/// same while the timer does not run. While it runs, from the start of the
/// run on, it grows by exactly the time that passed.
pub proof fn law_elapsed_monotone(t: TimerModel, n1: u64, n2: u64)
    requires
        n1 <= n2,
    ensures
        t.total(n1) <= t.total(n2),
        saturate(t.total(n1)) <= saturate(t.total(n2)),
        !t.is_active() ==> t.total(n1) == t.total(n2),
        t.is_active() && t.running_since.unwrap() <= n1 ==> t.total(n2) - t.total(n1) == n2 - n1,
{
}

/// The first exported row is at zero, and every row is measured from the
/// first event.
pub proof fn lemma_rows_from_first(events: Seq<HistoryEvent>)
    requires
        sorted_by_time(events),
    ensures
        rows_of(events).len() == events.len(),
        events.len() > 0 ==> rows_of(events)[0].millis_from_start == 0,
        forall|i: int|
            0 <= i < events.len() ==> (#[trigger] rows_of(events)[i]).millis_from_start
                == events[i].when - events[0].when,
{
    assert forall|i: int| 0 <= i < events.len() implies (#[trigger] rows_of(
        events,
    )[i]).millis_from_start == events[i].when - events[0].when by {
        assert(events[0].when <= events[i].when);
    }
}

/// Every operation of the coordinator keeps the history in time order, only
/// appends to it, at the operation's time, and the exported rows of such a
/// history start at zero.
pub proof fn law_ledger_ordering(m: CoordinatorModel, slot_id: u8, now: u64)
    requires
        m.wf(),
        m.valid_slot(slot_id),
        now >= latest(m.history),
    ensures
        sorted_by_time(m.history),
        sorted_by_time(activate_model(m, slot_id, now).history),
        sorted_by_time(stop_all_model(m, now).history),
        sorted_by_time(reset_model(m).history),
        m.history.len() > 0 ==> rows_of(m.history)[0].millis_from_start == 0,
        appended_at(m.history, activate_model(m, slot_id, now).history, now),
        appended_at(m.history, stop_all_model(m, now).history, now),
{
    lemma_activate_wf(m, slot_id, now);
    lemma_stop_all_wf(m, now);
    lemma_reset_wf(m);
    lemma_rows_from_first(m.history);
    let c = closes(m.slots, slot_id as int, now);
    lemma_closes_shape(m.slots, slot_id as int, now);
    let a = activate_model(m, slot_id, now).history;
    assert(m.history =~= a.take(m.history.len() as int));
    assert forall|i: int| m.history.len() <= i < a.len() implies (#[trigger] a[i]).when == now by {
        if i < m.history.len() + c.len() {
            assert(a[i] == c[i - m.history.len()]);
        }
    }
    let d = closes(m.slots, 0, now);
    lemma_closes_shape(m.slots, 0, now);
    let b = stop_all_model(m, now).history;
    assert(m.history =~= b.take(m.history.len() as int));
    assert forall|i: int| m.history.len() <= i < b.len() implies (#[trigger] b[i]).when == now by {
        if i < m.history.len() + d.len() {
            assert(b[i] == d[i - m.history.len()]);
        }
    }
}

/// `after` keeps `before` unchanged as its start, and every event added
/// after it is at `now`.
pub open spec fn appended_at(before: Seq<HistoryEvent>, after: Seq<HistoryEvent>, now: u64) -> bool {
    &&& before.is_prefix_of(after)
    &&& forall|i: int| before.len() <= i < after.len() ==> (#[trigger] after[i]).when == now
}

pub open spec fn is_idle_marker(e: HistoryEvent) -> bool {
    e.activity == 0 && !e.is_start
}

/// Stopping twice in a row records at most one idle marker: the second stop
/// records nothing.
pub proof fn law_stop_all_twice(m: CoordinatorModel, t1: u64, t2: u64)
    requires
        m.wf(),
        t1 >= latest(m.history),
        t2 >= t1,
    ensures
        stop_all_model(stop_all_model(m, t1), t2).history == stop_all_model(m, t1).history,
        m.history.is_prefix_of(stop_all_model(m, t1).history),
        forall|i: int, j: int|
            m.history.len() <= i < j < stop_all_model(m, t1).history.len() ==> !(is_idle_marker(
                #[trigger] stop_all_model(m, t1).history[i],
            ) && is_idle_marker(#[trigger] stop_all_model(m, t1).history[j])),
{
    let m1 = stop_all_model(m, t1);
    lemma_stop_all_wf(m, t1);
    lemma_stop_all_wf(m1, t2);
    if m1.history.len() > m.history.len() {
        let c = closes(m.slots, 0, t1);
        lemma_closes_shape(m.slots, 0, t1);
        assert forall|i: int, j: int|
            m.history.len() <= i < j < m1.history.len() implies !(is_idle_marker(
            #[trigger] m1.history[i]) && is_idle_marker(#[trigger] m1.history[j])) by {
            assert(m1.history[i] == c[i - m.history.len()]);
        }
    }
    assert(m.history =~= m1.history.take(m.history.len() as int));
}

pub open spec fn no_newline(s: Seq<char>) -> bool {
    forall|i: int| 0 <= i < s.len() ==> s[i] != '\n'
}

/// Lines joined by newlines, with none at the end.
pub open spec fn join_lines(lines: Seq<Seq<char>>) -> Seq<char>
    decreases lines.len(),
{
    if lines.len() == 0 {
        Seq::empty()
    } else if lines.len() == 1 {
        lines[0]
    } else {
        join_lines(lines.drop_last()) + seq!['\n'] + lines.last()
    }
}

/// The header line followed by one line per row.
pub open spec fn csv_lines(rows: Seq<Row>) -> Seq<Seq<char>> {
    seq![header()] + rows.map_values(|r: Row| row_text(r))
}

proof fn lemma_digit_no_newline(d: int)
    requires
        0 <= d < 10,
    ensures
        digit_char(d) != '\n',
{
}

proof fn lemma_decimal_no_newline(n: nat)
    ensures
        no_newline(decimal(n)),
    decreases n,
{
    if n < 10 {
        lemma_digit_no_newline(n as int);
    } else {
        lemma_decimal_no_newline(n / 10);
        lemma_digit_no_newline((n % 10) as int);
    }
}

proof fn lemma_row_text_no_newline(r: Row)
    ensures
        no_newline(row_text(r)),
{
    let ms = r.millis_from_start as nat;
    lemma_decimal_no_newline(ms / 1000);
    lemma_decimal_no_newline(r.activity as nat);
    lemma_decimal_no_newline(r.is_active as nat);
    let f = ms % 1000;
    lemma_digit_no_newline((f / 100) as int);
    lemma_digit_no_newline(((f / 10) % 10) as int);
    lemma_digit_no_newline((f % 10) as int);
    assert(no_newline(fraction(f)));
    assert(no_newline(seconds_text(ms)));
}

proof fn lemma_csv_join(rows: Seq<Row>)
    ensures
        csv_text(rows) == join_lines(csv_lines(rows)),
    decreases rows.len(),
{
    if rows.len() > 0 {
        lemma_csv_join(rows.drop_last());
        assert(csv_lines(rows).drop_last() =~= csv_lines(rows.drop_last()));
    } else {
        assert(csv_lines(rows) =~= seq![header()]);
    }
}

/// The export of a ledger is its header line and then exactly one line per
/// event, none holding a newline: seconds since the first event, activity
/// id, and 1 or 0. An empty ledger exports the header line alone.
pub proof fn law_csv_shape(events: Seq<HistoryEvent>)
    ensures
        events.len() == 0 ==> csv_text(rows_of(events)) == header(),
        csv_text(rows_of(events)) == join_lines(csv_lines(rows_of(events))),
        csv_lines(rows_of(events)).len() == events.len() + 1,
        csv_lines(rows_of(events))[0] == header(),
        forall|i: int|
            0 <= i < events.len() ==> #[trigger] csv_lines(rows_of(events))[i + 1] == row_text(
                row_of(events[i], events[0].when),
            ),
        forall|i: int|
            0 <= i < events.len() + 1 ==> no_newline(#[trigger] csv_lines(rows_of(events))[i]),
{
    let rows = rows_of(events);
    let lines = csv_lines(rows);
    lemma_csv_join(rows);
    assert(lines[0] == header());
    reveal_strlit("duration_from_start_seconds,activity_id,is_active");
    assert forall|i: int| 0 <= i < events.len() + 1 implies no_newline(#[trigger] lines[i]) by {
        if i > 0 {
            assert(lines[i] == row_text(rows[i - 1]));
            lemma_row_text_no_newline(rows[i - 1]);
        }
    }
    assert forall|i: int| 0 <= i < events.len() implies #[trigger] lines[i + 1] == row_text(
        row_of(events[i], events[0].when),
    ) by {
        assert(lines[i + 1] == row_text(rows[i]));
    }
}

} // verus!
