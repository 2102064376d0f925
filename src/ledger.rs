use vstd::prelude::*;
use crate::timer::saturate;

verus! {

/// One transition: activity `activity` became active (`is_start`) or
/// inactive at clock reading `when`. Activity 0 is the idle marker.
#[derive(Clone, Copy, Debug, PartialEq, Eq, Structural)]
pub struct HistoryEvent {
    pub activity: u8,
    pub when: u64,
    pub is_start: bool,
}

/// One exported row: milliseconds since the first event, the activity, and
/// 1 for a start or 0 for a stop.
#[derive(Clone, Copy, Debug, PartialEq, Eq, Structural)]
pub struct Row {
    pub millis_from_start: u64,
    pub activity: u8,
    pub is_active: u8,
}

/// Timestamps never decrease along the sequence.
pub open spec fn sorted_by_time(events: Seq<HistoryEvent>) -> bool {
    forall|i: int, j: int| 0 <= i <= j < events.len() ==> events[i].when <= events[j].when
}

/// The time of the last event, or 0 for no events.
pub open spec fn latest(events: Seq<HistoryEvent>) -> u64 {
    if events.len() == 0 {
        0
    } else {
        events.last().when
    }
}

pub open spec fn row_of(e: HistoryEvent, t0: u64) -> Row {
    Row {
        millis_from_start: saturate(e.when - t0),
        activity: e.activity,
        is_active: if e.is_start { 1 } else { 0 },
    }
}

/// The rows of a ledger: each event measured from the first one.
pub open spec fn rows_of(events: Seq<HistoryEvent>) -> Seq<Row> {
    events.map_values(|e: HistoryEvent| row_of(e, events[0].when))
}

/// An append-only log of transitions in time order.
pub struct HistoryLedger {
    events: Vec<HistoryEvent>,
}

impl View for HistoryLedger {
    type V = Seq<HistoryEvent>;

    closed spec fn view(&self) -> Seq<HistoryEvent> {
        self.events@
    }
}

impl HistoryLedger {
    pub open spec fn wf(&self) -> bool {
        sorted_by_time(self@)
    }

    pub fn new() -> (r: HistoryLedger)
        ensures
            r@ == Seq::<HistoryEvent>::empty(),
            r.wf(),
    {
        HistoryLedger { events: Vec::new() }
    }

    pub fn len(&self) -> (r: usize)
        ensures
            r == self@.len(),
    {
        self.events.len()
    }

    /// The most recent event, if any.
    pub fn last(&self) -> (r: Option<HistoryEvent>)
        ensures
            r == (if self@.len() == 0 { None } else { Some(self@.last()) }),
    {
        if self.events.len() == 0 {
            None
        } else {
            Some(self.events[self.events.len() - 1])
        }
    }

    /// The time of the most recent event, or 0 when there is none.
    pub fn latest_time(&self) -> (r: u64)
        ensures
            r == latest(self@),
    {
        match self.last() {
            Some(e) => e.when,
            None => 0,
        }
    }

    /// Appends one event; nothing recorded before changes.
    pub fn record_transition(&mut self, activity: u8, is_start: bool, at: u64)
        requires
            old(self).wf(),
            at >= latest(old(self)@),
        ensures
            final(self)@ == old(self)@.push(HistoryEvent { activity, when: at, is_start }),
            final(self).wf(),
    {
        self.events.push(HistoryEvent { activity, when: at, is_start });
    }

    /// Discards every event.
    pub fn clear(&mut self)
        ensures
            final(self)@ == Seq::<HistoryEvent>::empty(),
            final(self).wf(),
    {
        self.events = Vec::new();
    }

    /// The exported rows, one per event, measured from the first event.
    pub fn to_rows(&self) -> (r: Vec<Row>)
        ensures
            r@ == rows_of(self@),
    {
        let mut rows: Vec<Row> = Vec::new();
        if self.events.len() == 0 {
            assert(rows@ =~= rows_of(self@));
            return rows;
        }
        let t0 = self.events[0].when;
        let mut i: usize = 0;
        while i < self.events.len()
            invariant
                i <= self.events.len(),
                t0 == self@[0].when,
                rows@ == rows_of(self@).take(i as int),
            decreases self.events.len() - i,
        {
            let e = self.events[i];
            let d: u64 = if e.when >= t0 { e.when - t0 } else { 0 };
            rows.push(Row { millis_from_start: d, activity: e.activity, is_active: if e.is_start { 1 } else { 0 } });
            assert(rows_of(self@).take(i as int + 1) =~= rows_of(self@).take(i as int).push(row_of(self@[i as int], t0)));
            i = i + 1;
        }
        assert(rows@ =~= rows_of(self@));
        rows
    }
}

} // verus!
