use vstd::prelude::*;

verus! {

#[verifier::external_type_specification]
#[verifier::external_body]
pub struct ExInstant(instant::Instant);

/// Relies on instant::Instant::now: a reading of the monotonic clock.
#[verifier::external_body]
fn instant_now() -> instant::Instant {
    instant::Instant::now()
}

/// Relies on instant::Instant::elapsed and Duration::as_millis: whole
/// milliseconds since `origin`. Nothing is promised of a clock reading.
#[verifier::external_body]
fn millis_since(origin: &instant::Instant) -> u128 {
    origin.elapsed().as_millis()
}

/// A monotonic time source in whole milliseconds since its creation.
pub struct Clock {
    origin: instant::Instant,
}

impl Clock {
    pub fn new() -> (r: Clock) {
        Clock { origin: instant_now() }
    }

    /// Milliseconds since this clock was created, saturated at `u64::MAX`.
    pub fn now_millis(&self) -> (r: u64) {
        let ms = millis_since(&self.origin);
        if ms > u64::MAX as u128 {
            u64::MAX
        } else {
            ms as u64
        }
    }
}

} // verus!
