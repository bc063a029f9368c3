use vstd::prelude::*;

verus! {

#[verifier::external_type_specification]
#[verifier::external_body]
pub struct ExInstant(quanta::Instant);

/// Relies on quanta's `Instant::recent`: a cheap, slightly delayed reading of
/// the monotonic clock. Nothing is promised of its value.
#[verifier::external_body]
fn recent_instant() -> (r: quanta::Instant) {
    quanta::Instant::recent()
}

/// Relies on quanta's `Instant::duration_since`: the nanoseconds from `earlier`
/// to `later`, zero when `later` comes first. Nothing is promised of its value.
#[verifier::external_body]
fn nanos_between(earlier: &quanta::Instant, later: &quanta::Instant) -> (r: u64) {
    later.duration_since(*earlier).as_nanos() as u64
}

/// A monotonic clock that tells time in nanoseconds since it was made.
pub struct Clock {
    origin: quanta::Instant,
}

impl Clock {
    pub fn new() -> (r: Clock) {
        Clock { origin: recent_instant() }
    }

    /// The recent time, in nanoseconds since the clock was made.
    pub fn now(&self) -> (r: u64) {
        let reading = recent_instant();
        nanos_between(&self.origin, &reading)
    }
}

} // verus!
