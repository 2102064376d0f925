use vstd::prelude::*;
use crate::clock::Clock;
use crate::csv::{csv_text, render};
use crate::ledger::{latest, rows_of, sorted_by_time, HistoryEvent, HistoryLedger, Row};
use crate::timer::{saturate, TimerModel, TimerStorage};

verus! {

/// What the user asked for.
#[derive(Clone, Copy, Debug, PartialEq, Eq, Structural)]
pub enum Msg {
    /// Make this activity the running one.
    Activate(u8),
    StopAll,
    ClearData,
    /// Stop everything and show the exported data.
    ViewData,
    ViewTimers,
    DownloadCsv,
}

/// What the surrounding program does after a message.
pub enum Action {
    Render,
    ShowData,
    ShowTimers,
    /// Offer this comma-separated text for download.
    Download(String),
}

/// The mathematical state of a [`Coordinator`]. Slot `i` holds the timer of
/// activity `i + 1`.
pub ghost struct CoordinatorModel {
    pub slots: Seq<TimerModel>,
    pub master: TimerModel,
    pub history: Seq<HistoryEvent>,
}

pub open spec fn any_active(slots: Seq<TimerModel>) -> bool {
    exists|i: int| 0 <= i < slots.len() && #[trigger] slots[i].is_active()
}

pub open spec fn at_most_one_active(slots: Seq<TimerModel>) -> bool {
    forall|i: int, j: int|
        0 <= i < slots.len() && 0 <= j < slots.len() && #[trigger] slots[i].is_active()
            && #[trigger] slots[j].is_active() ==> i == j
}

/// The last recorded event opened an activity.
pub open spec fn ends_open(history: Seq<HistoryEvent>) -> bool {
    history.len() > 0 && history.last().is_start
}

impl CoordinatorModel {
    /// At most one slot runs; the master runs exactly when some slot does;
    /// the history is in time order and ends with an open event exactly when
    /// some slot runs; its last event is an open event of an activity or the
    /// idle marker.
    pub open spec fn wf(self) -> bool {
        &&& self.slots.len() <= 255
        &&& at_most_one_active(self.slots)
        &&& self.master.is_active() == any_active(self.slots)
        &&& sorted_by_time(self.history)
        &&& ends_open(self.history) == any_active(self.slots)
        &&& self.history.len() > 0 ==> (self.history.last().is_start <==> self.history.last().activity
            != 0)
    }

    pub open spec fn valid_slot(self, slot_id: u8) -> bool {
        1 <= slot_id <= self.slots.len()
    }

    pub open spec fn initial(n_slots: nat) -> CoordinatorModel {
        CoordinatorModel {
            slots: Seq::new(n_slots, |i: int| TimerModel::zero()),
            master: TimerModel::zero(),
            history: Seq::empty(),
        }
    }
}

/// Close events at `now`, in slot order, for every running slot whose
/// activity id is not `target`.
pub open spec fn closes(slots: Seq<TimerModel>, target: int, now: u64) -> Seq<HistoryEvent>
    decreases slots.len(),
{
    if slots.len() == 0 {
        Seq::empty()
    } else {
        let id = slots.len() as int;
        closes(slots.drop_last(), target, now) + if slots.last().is_active() && id != target {
            seq![HistoryEvent { activity: id as u8, when: now, is_start: false }]
        } else {
            Seq::empty()
        }
    }
}

/// The state after activity `slot_id` is activated at `now`.
pub open spec fn activate_model(m: CoordinatorModel, slot_id: u8, now: u64) -> CoordinatorModel {
    let k = slot_id - 1;
    CoordinatorModel {
        slots: Seq::new(
            m.slots.len(),
            |i: int|
                if i == k {
                    m.slots[i].started(now)
                } else {
                    m.slots[i].stopped(now)
                },
        ),
        master: m.master.started(now),
        history: if m.slots[k].is_active() {
            m.history
        } else {
            m.history + closes(m.slots, slot_id as int, now) + seq![
                HistoryEvent { activity: slot_id, when: now, is_start: true },
            ]
        },
    }
}

/// The state after every activity is stopped at `now`.
pub open spec fn stop_all_model(m: CoordinatorModel, now: u64) -> CoordinatorModel {
    CoordinatorModel {
        slots: m.slots.map_values(|t: TimerModel| t.stopped(now)),
        master: m.master.stopped(now),
        history: if ends_open(m.history) {
            m.history + closes(m.slots, 0, now) + seq![
                HistoryEvent { activity: 0, when: now, is_start: false },
            ]
        } else {
            m.history
        },
    }
}

/// The state after every timer and the history are cleared.
pub open spec fn reset_model(m: CoordinatorModel) -> CoordinatorModel {
    CoordinatorModel { history: Seq::empty(), ..CoordinatorModel::initial(m.slots.len()) }
}

/// Every close event is at `now`, names a running slot other than `target`,
/// and none is an idle marker.
pub proof fn lemma_closes_shape(slots: Seq<TimerModel>, target: int, now: u64)
    requires
        slots.len() <= 255,
    ensures
        closes(slots, target, now).len() <= slots.len(),
        forall|i: int|
            0 <= i < closes(slots, target, now).len() ==> {
                let e = #[trigger] closes(slots, target, now)[i];
                &&& e.when == now
                &&& !e.is_start
                &&& 1 <= e.activity <= slots.len()
                &&& e.activity != target
                &&& slots[e.activity - 1].is_active()
            },
    decreases slots.len(),
{
    if slots.len() > 0 {
        lemma_closes_shape(slots.drop_last(), target, now);
    }
}

/// Appending events at `now`, no earlier than the last one, keeps the
/// history in time order.
pub proof fn lemma_append_at(history: Seq<HistoryEvent>, tail: Seq<HistoryEvent>, now: u64)
    requires
        sorted_by_time(history),
        now >= latest(history),
        forall|i: int| 0 <= i < tail.len() ==> (#[trigger] tail[i]).when == now,
    ensures
        sorted_by_time(history + tail),
        tail.len() > 0 ==> latest(history + tail) == now,
{
    let h = history + tail;
    assert forall|i: int, j: int| 0 <= i <= j < h.len() implies h[i].when <= h[j].when by {
        if j < history.len() {
        } else if i < history.len() {
            assert(history[i].when <= history.last().when);
            assert(h[j] == tail[j - history.len()]);
        } else {
            assert(h[i] == tail[i - history.len()]);
            assert(h[j] == tail[j - history.len()]);
        }
    }
    if tail.len() > 0 {
        assert(h.last() == tail[tail.len() - 1]);
    }
}

/// Activation keeps the invariant, and afterwards exactly the activated
/// slot runs.
pub proof fn lemma_activate_wf(m: CoordinatorModel, slot_id: u8, now: u64)
    requires
        m.wf(),
        m.valid_slot(slot_id),
        now >= latest(m.history),
    ensures
        activate_model(m, slot_id, now).wf(),
        activate_model(m, slot_id, now).slots.len() == m.slots.len(),
        latest(activate_model(m, slot_id, now).history) <= now,
        forall|i: int|
            0 <= i < m.slots.len() ==> (#[trigger] activate_model(m, slot_id, now).slots[i].is_active()
                <==> i == slot_id - 1),
{
    let r = activate_model(m, slot_id, now);
    let k = slot_id - 1;
    assert(r.slots[k].is_active());
    if !m.slots[k].is_active() {
        let c = closes(m.slots, slot_id as int, now);
        let o = seq![HistoryEvent { activity: slot_id, when: now, is_start: true }];
        lemma_closes_shape(m.slots, slot_id as int, now);
        assert(forall|i: int| 0 <= i < (c + o).len() ==> (#[trigger] (c + o)[i]).when == now);
        lemma_append_at(m.history, c + o, now);
        assert(r.history =~= m.history + (c + o));
    } else {
        assert(any_active(m.slots));
    }
    assert(r.slots.len() == m.slots.len());
}

/// Stopping everything keeps the invariant, and afterwards nothing runs.
pub proof fn lemma_stop_all_wf(m: CoordinatorModel, now: u64)
    requires
        m.wf(),
        now >= latest(m.history),
    ensures
        stop_all_model(m, now).wf(),
        stop_all_model(m, now).slots.len() == m.slots.len(),
        latest(stop_all_model(m, now).history) <= now,
        !any_active(stop_all_model(m, now).slots),
        !stop_all_model(m, now).master.is_active(),
{
    let r = stop_all_model(m, now);
    if ends_open(m.history) {
        let c = closes(m.slots, 0, now);
        let o = seq![HistoryEvent { activity: 0, when: now, is_start: false }];
        lemma_closes_shape(m.slots, 0, now);
        assert(forall|i: int| 0 <= i < (c + o).len() ==> (#[trigger] (c + o)[i]).when == now);
        lemma_append_at(m.history, c + o, now);
        assert(r.history =~= m.history + (c + o));
    }
    assert(!any_active(r.slots));
}

/// Resetting keeps the invariant.
pub proof fn lemma_reset_wf(m: CoordinatorModel)
    requires
        m.slots.len() <= 255,
    ensures
        reset_model(m).wf(),
{
    assert(!any_active(reset_model(m).slots));
}

/// The state after `msg` is handled at `now`.
pub open spec fn update_model(m: CoordinatorModel, msg: Msg, now: u64) -> CoordinatorModel {
    match msg {
        Msg::Activate(id) => activate_model(m, id, now),
        Msg::StopAll | Msg::ViewData => stop_all_model(m, now),
        Msg::ClearData => reset_model(m),
        Msg::ViewTimers | Msg::DownloadCsv => m,
    }
}

/// What the surrounding program is told to do after `msg`, in state `m`
/// before it was handled.
pub open spec fn action_matches(m: CoordinatorModel, msg: Msg, r: Action) -> bool {
    match msg {
        Msg::ViewData => r is ShowData,
        Msg::ViewTimers => r is ShowTimers,
        Msg::DownloadCsv => match r {
            Action::Download(text) => text@ == csv_text(rows_of(m.history)),
            _ => false,
        },
        _ => r is Render,
    }
}

pub open spec fn msg_allowed(m: CoordinatorModel, msg: Msg) -> bool {
    match msg {
        Msg::Activate(id) => m.valid_slot(id),
        _ => true,
    }
}

/// Mutually exclusive activity timers, the master timer that runs while any
/// of them runs, and the ledger of their transitions.
pub struct Coordinator {
    slots: Vec<TimerStorage>,
    master: TimerStorage,
    history: HistoryLedger,
}

impl View for Coordinator {
    type V = CoordinatorModel;

    closed spec fn view(&self) -> CoordinatorModel {
        CoordinatorModel {
            slots: self.slots@.map_values(|t: TimerStorage| t@),
            master: self.master@,
            history: self.history@,
        }
    }
}

impl Coordinator {
    pub open spec fn wf(&self) -> bool {
        self@.wf()
    }

    /// `n_slots` idle activities with ids `1..=n_slots`, and an empty history.
    pub fn new(n_slots: u8) -> (r: Coordinator)
        ensures
            r@ == CoordinatorModel::initial(n_slots as nat),
            r.wf(),
    {
        let mut slots: Vec<TimerStorage> = Vec::new();
        let mut i: u8 = 0;
        while i < n_slots
            invariant
                i <= n_slots,
                slots@.len() == i,
                forall|j: int| 0 <= j < i ==> (#[trigger] slots@[j])@ == TimerModel::zero(),
            decreases n_slots - i,
        {
            slots.push(TimerStorage::new());
            i = i + 1;
        }
        let r = Coordinator { slots, master: TimerStorage::new(), history: HistoryLedger::new() };
        assert(r@.slots =~= CoordinatorModel::initial(n_slots as nat).slots);
        assert(r@.history =~= Seq::<HistoryEvent>::empty());
        r
    }

    pub fn slot_count(&self) -> (r: usize)
        ensures
            r == self@.slots.len(),
    {
        self.slots.len()
    }

    /// Whether activity `slot_id` runs.
    pub fn is_active(&self, slot_id: u8) -> (r: bool)
        requires
            self@.valid_slot(slot_id),
        ensures
            r == self@.slots[slot_id - 1].is_active(),
    {
        self.slots[(slot_id - 1) as usize].is_active()
    }

    /// Whether the master timer runs.
    pub fn master_active(&self) -> (r: bool)
        ensures
            r == self@.master.is_active(),
    {
        self.master.is_active()
    }

    /// Milliseconds measured by activity `slot_id` at `now`.
    pub fn total_elapsed_at(&self, slot_id: u8, now: u64) -> (r: u64)
        requires
            self@.valid_slot(slot_id),
        ensures
            r == saturate(self@.slots[slot_id - 1].total(now)),
    {
        self.slots[(slot_id - 1) as usize].total_elapsed_at(now)
    }

    /// Milliseconds measured by the master timer at `now`.
    pub fn master_elapsed_at(&self, now: u64) -> (r: u64)
        ensures
            r == saturate(self@.master.total(now)),
    {
        self.master.total_elapsed_at(now)
    }

    /// The time of the latest recorded transition, or 0 for none; the
    /// operations that take a time accept no earlier one.
    pub fn latest_time(&self) -> (r: u64)
        ensures
            r == latest(self@.history),
    {
        self.history.latest_time()
    }

    /// Appends a close event at `now` for every running slot whose activity
    /// id is not `target`, in slot order.
    fn record_closes(&mut self, target: u8, now: u64)
        requires
            old(self)@.slots.len() <= 255,
            sorted_by_time(old(self)@.history),
            now >= latest(old(self)@.history),
        ensures
            final(self).slots@.len() == old(self).slots@.len(),
            final(self)@ == (CoordinatorModel {
                history: old(self)@.history + closes(old(self)@.slots, target as int, now),
                ..old(self)@
            }),
            sorted_by_time(final(self)@.history),
            now >= latest(final(self)@.history),
    {
        let ghost m = self@;
        let n = self.slots.len();
        let mut i: usize = 0;
        assert(m.slots.take(0) =~= Seq::<TimerModel>::empty());
        assert(m.history + closes(m.slots.take(0), target as int, now) =~= m.history);
        while i < n
            invariant
                n == self.slots.len() == m.slots.len() <= 255,
                i <= n,
                self@.slots == m.slots,
                self@.master == m.master,
                self@.history == m.history + closes(m.slots.take(i as int), target as int, now),
                sorted_by_time(self@.history),
                now >= latest(self@.history),
            decreases n - i,
        {
            let ghost before = self@.history;
            if (i + 1) as u8 != target && self.slots[i].is_active() {
                self.history.record_transition((i + 1) as u8, false, now);
            }
            proof {
                let next = m.slots.take(i as int + 1);
                assert(next.drop_last() =~= m.slots.take(i as int));
                assert(next.last() == m.slots[i as int]);
                assert(self@.history =~= m.history + closes(next, target as int, now));
            }
            i = i + 1;
        }
        assert(m.slots.take(n as int) =~= m.slots);
    }

    /// Stops every slot but the one at index `keep`, and the one at `keep`
    /// too when `keep` is past the end.
    fn stop_slots(&mut self, keep: usize, now: u64)
        ensures
            final(self).slots@.len() == old(self).slots@.len(),
            final(self)@ == (CoordinatorModel {
                slots: Seq::new(
                    old(self)@.slots.len(),
                    |i: int|
                        if i == keep {
                            old(self)@.slots[i]
                        } else {
                            old(self)@.slots[i].stopped(now)
                        },
                ),
                ..old(self)@
            }),
    {
        let ghost m = self@;
        let n = self.slots.len();
        let mut i: usize = 0;
        while i < n
            invariant
                n == self.slots.len() == m.slots.len(),
                i <= n,
                self@.master == m.master,
                self@.history == m.history,
                forall|j: int|
                    0 <= j < n ==> (#[trigger] self.slots@[j])@ == if j < i && j != keep {
                        m.slots[j].stopped(now)
                    } else {
                        m.slots[j]
                    },
            decreases n - i,
        {
            if i != keep {
                self.slots[i].stop_at(now);
            }
            i = i + 1;
        }
        assert(self@.slots =~= Seq::new(
            m.slots.len(),
            |i: int|
                if i == keep {
                    m.slots[i]
                } else {
                    m.slots[i].stopped(now)
                },
        ));
    }

    /// Makes activity `slot_id` the running one at `now`: a transition is
    /// recorded if it did not run (close events for the others, then its
    /// open event), the master starts, every other slot stops, and the slot
    /// starts.
    pub fn activate_at(&mut self, slot_id: u8, now: u64)
        requires
            old(self).wf(),
            old(self)@.valid_slot(slot_id),
            now >= latest(old(self)@.history),
        ensures
            final(self)@ == activate_model(old(self)@, slot_id, now),
            final(self).wf(),
    {
        let ghost m = self@;
        let k = (slot_id - 1) as usize;
        if !self.slots[k].is_active() {
            self.record_closes(slot_id, now);
            self.history.record_transition(slot_id, true, now);
        }
        self.master.start_at(now);
        self.stop_slots(k, now);
        let ghost mid = self.slots@;
        let ghost mid_m = self@;
        self.slots[k].start_at(now);
        proof {
            assert(mid_m.slots[k as int] == mid[k as int]@);
            assert forall|j: int| 0 <= j < m.slots.len() implies #[trigger] self@.slots[j]
                == activate_model(m, slot_id, now).slots[j] by {
                if j != k {
                    assert(self.slots@[j] == mid[j]);
                    assert(mid_m.slots[j] == mid[j]@);
                }
            }
            lemma_activate_wf(m, slot_id, now);
            assert(self@.slots =~= activate_model(m, slot_id, now).slots);
            assert(self@.history =~= activate_model(m, slot_id, now).history);
        }
    }

    /// Stops every activity and the master at `now`. When the history ends
    /// with an open event, close events for the running slots and then an
    /// idle marker are recorded.
    pub fn stop_all_at(&mut self, now: u64)
        requires
            old(self).wf(),
            now >= latest(old(self)@.history),
        ensures
            final(self)@ == stop_all_model(old(self)@, now),
            final(self).wf(),
    {
        let ghost m = self@;
        if let Some(last) = self.history.last() {
            if last.is_start {
                self.record_closes(0, now);
                self.history.record_transition(0, false, now);
            }
        }
        self.stop_slots(self.slots.len(), now);
        self.master.stop_at(now);
        proof {
            lemma_stop_all_wf(m, now);
            assert(self@.slots =~= stop_all_model(m, now).slots);
            assert(self@.history =~= stop_all_model(m, now).history);
        }
    }

    /// Clears every timer, the master included, and discards the history.
    pub fn reset(&mut self)
        requires
            old(self).wf(),
        ensures
            final(self)@ == reset_model(old(self)@),
            final(self).wf(),
    {
        let ghost m = self@;
        let n = self.slots.len();
        let mut i: usize = 0;
        while i < n
            invariant
                n == self.slots.len() == m.slots.len(),
                i <= n,
                forall|j: int|
                    0 <= j < n ==> (#[trigger] self.slots@[j])@ == if j < i {
                        TimerModel::zero()
                    } else {
                        m.slots[j]
                    },
            decreases n - i,
        {
            self.slots[i].clear();
            i = i + 1;
        }
        self.master.clear();
        self.history.clear();
        proof {
            lemma_reset_wf(m);
            assert(self@.slots =~= reset_model(m).slots);
        }
    }

    /// The clock's reading, or the latest recorded time if the clock reads
    /// earlier, so that the history stays in time order.
    fn reading(&self, clock: &Clock) -> (r: u64)
        ensures
            r >= latest(self@.history),
    {
        let now = clock.now_millis();
        let floor = self.history.latest_time();
        if now < floor {
            floor
        } else {
            now
        }
    }

    /// [`Coordinator::activate_at`] at the current time.
    pub fn activate(&mut self, slot_id: u8, clock: &Clock)
        requires
            old(self).wf(),
            old(self)@.valid_slot(slot_id),
        ensures
            final(self).wf(),
            exists|now: u64|
                now >= latest(old(self)@.history) && final(self)@ == activate_model(
                    old(self)@,
                    slot_id,
                    now,
                ),
    {
        let now = self.reading(clock);
        self.activate_at(slot_id, now);
    }

    /// [`Coordinator::stop_all_at`] at the current time.
    pub fn stop_all(&mut self, clock: &Clock)
        requires
            old(self).wf(),
        ensures
            final(self).wf(),
            exists|now: u64|
                now >= latest(old(self)@.history) && final(self)@ == stop_all_model(
                    old(self)@,
                    now,
                ),
    {
        let now = self.reading(clock);
        self.stop_all_at(now);
    }

    /// Milliseconds measured by activity `slot_id` now, by `clock`.
    pub fn total_elapsed(&self, slot_id: u8, clock: &Clock) -> (r: u64)
        requires
            self@.valid_slot(slot_id),
        ensures
            exists|now: u64| r == saturate(#[trigger] self@.slots[slot_id - 1].total(now)),
    {
        self.total_elapsed_at(slot_id, clock.now_millis())
    }

    /// Milliseconds measured by the master timer now, by `clock`.
    pub fn master_elapsed(&self, clock: &Clock) -> (r: u64)
        ensures
            exists|now: u64| r == saturate(#[trigger] self@.master.total(now)),
    {
        self.master_elapsed_at(clock.now_millis())
    }

    /// Handles one message at `now`.
    pub fn update_at(&mut self, msg: Msg, now: u64) -> (r: Action)
        requires
            old(self).wf(),
            msg_allowed(old(self)@, msg),
            now >= latest(old(self)@.history),
        ensures
            final(self).wf(),
            final(self)@ == update_model(old(self)@, msg, now),
            action_matches(old(self)@, msg, r),
    {
        match msg {
            Msg::Activate(id) => {
                self.activate_at(id, now);
                Action::Render
            },
            Msg::StopAll => {
                self.stop_all_at(now);
                Action::Render
            },
            Msg::ClearData => {
                self.reset();
                Action::Render
            },
            Msg::ViewData => {
                self.stop_all_at(now);
                Action::ShowData
            },
            Msg::ViewTimers => Action::ShowTimers,
            Msg::DownloadCsv => Action::Download(self.export_csv()),
        }
    }

    /// Handles one message at the current time.
    pub fn update(&mut self, msg: Msg, clock: &Clock) -> (r: Action)
        requires
            old(self).wf(),
            msg_allowed(old(self)@, msg),
        ensures
            final(self).wf(),
            exists|now: u64|
                now >= latest(old(self)@.history) && final(self)@ == update_model(
                    old(self)@,
                    msg,
                    now,
                ),
            action_matches(old(self)@, msg, r),
    {
        let now = self.reading(clock);
        self.update_at(msg, now)
    }

    /// The exported rows of the history.
    pub fn history_rows(&self) -> (r: Vec<Row>)
        ensures
            r@ == rows_of(self@.history),
    {
        self.history.to_rows()
    }

    /// The history as comma-separated text.
    pub fn export_csv(&self) -> (r: String)
        ensures
            r@ == csv_text(rows_of(self@.history)),
    {
        let rows = self.history.to_rows();
        render(&rows)
    }
}

} // verus!
