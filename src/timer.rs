use vstd::prelude::*;
use crate::clock::Clock;

verus! {

/// The mathematical state of one timer: the milliseconds folded in by earlier
/// runs, and the clock reading at which the current run began, if any.
pub struct TimerModel {
    pub accumulated: u64,
    pub running_since: Option<u64>,
}

/// `x` clamped to the range of `u64`.
pub open spec fn saturate(x: int) -> u64 {
    if x > u64::MAX as int {
        u64::MAX
    } else if x < 0 {
        0
    } else {
        x as u64
    }
}

impl TimerModel {
    pub open spec fn zero() -> TimerModel {
        TimerModel { accumulated: 0, running_since: None }
    }

    pub open spec fn is_active(self) -> bool {
        self.running_since is Some
    }

    /// Milliseconds of the current run at clock reading `now`; a reading
    /// earlier than the start counts as no time at all.
    pub open spec fn live(self, now: u64) -> int {
        match self.running_since {
            Some(s) => if now >= s { now - s } else { 0 },
            None => 0,
        }
    }

    /// Total time measured at `now`, as an unbounded integer.
    pub open spec fn total(self, now: u64) -> int {
        self.accumulated + self.live(now)
    }

    pub open spec fn started(self, now: u64) -> TimerModel {
        if self.is_active() {
            self
        } else {
            TimerModel { accumulated: self.accumulated, running_since: Some(now) }
        }
    }

    pub open spec fn stopped(self, now: u64) -> TimerModel {
        if self.is_active() {
            TimerModel { accumulated: saturate(self.total(now)), running_since: None }
        } else {
            self
        }
    }
}

/// One start/stop accumulator.
pub struct TimerStorage {
    prev_elapsed: u64,
    current_start: Option<u64>,
}

impl View for TimerStorage {
    type V = TimerModel;

    closed spec fn view(&self) -> TimerModel {
        TimerModel { accumulated: self.prev_elapsed, running_since: self.current_start }
    }
}

impl Default for TimerStorage {
    fn default() -> (r: TimerStorage)
        ensures
            r@ == TimerModel::zero(),
    {
        TimerStorage::new()
    }
}

impl TimerStorage {
    /// A timer that has measured nothing and does not run.
    pub fn new() -> (r: TimerStorage)
        ensures
            r@ == TimerModel::zero(),
    {
        TimerStorage { prev_elapsed: 0, current_start: None }
    }

    pub fn is_active(&self) -> (r: bool)
        ensures
            r == self@.is_active(),
    {
        self.current_start.is_some()
    }

    /// Total milliseconds measured at clock reading `now`, saturated at
    /// `u64::MAX`.
    pub fn total_elapsed_at(&self, now: u64) -> (r: u64)
        ensures
            r == saturate(self@.total(now)),
    {
        let live: u64 = match self.current_start {
            Some(s) => if now >= s { now - s } else { 0 },
            None => 0,
        };
        self.prev_elapsed.saturating_add(live)
    }

    /// Starts a run at `now`. Returns whether the timer started: a running
    /// timer is left as it is and `false` comes back.
    pub fn start_at(&mut self, now: u64) -> (r: bool)
        ensures
            r == !old(self)@.is_active(),
            final(self)@ == old(self)@.started(now),
    {
        if self.current_start.is_none() {
            self.current_start = Some(now);
            true
        } else {
            false
        }
    }

    /// Ends the current run at `now` and folds its time into the total; a
    /// timer that does not run is left as it is.
    pub fn stop_at(&mut self, now: u64)
        ensures
            final(self)@ == old(self)@.stopped(now),
    {
        let total = self.total_elapsed_at(now);
        if self.current_start.is_some() {
            self.prev_elapsed = total;
            self.current_start = None;
        }
    }

    /// Total milliseconds measured now, by `clock`.
    pub fn total_elapsed(&self, clock: &Clock) -> (r: u64)
        ensures
            exists|now: u64| r == saturate(#[trigger] self@.total(now)),
    {
        self.total_elapsed_at(clock.now_millis())
    }

    /// Starts a run now, by `clock`; see [`TimerStorage::start_at`].
    pub fn start(&mut self, clock: &Clock) -> (r: bool)
        ensures
            r == !old(self)@.is_active(),
            exists|now: u64| final(self)@ == old(self)@.started(now),
    {
        self.start_at(clock.now_millis())
    }

    /// Ends the current run now, by `clock`; see [`TimerStorage::stop_at`].
    pub fn stop(&mut self, clock: &Clock)
        ensures
            exists|now: u64| final(self)@ == old(self)@.stopped(now),
    {
        self.stop_at(clock.now_millis())
    }

    /// Drops all measured time and any run in progress.
    pub fn clear(&mut self)
        ensures
            final(self)@ == TimerModel::zero(),
    {
        self.current_start = None;
        self.prev_elapsed = 0;
    }
}

} // verus!
