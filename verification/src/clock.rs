//! Frame clock: one origin timestamp captured at loop start, whole
//! elapsed seconds derived from it, and the indicator phase that toggles
//! every second. A clock reading that fails (the wall clock went backward)
//! counts as zero elapsed seconds: the system favors availability over
//! precision.

use vstd::prelude::*;

verus! {

#[verifier::external_type_specification]
#[verifier::external_body]
pub struct ExSystemTime(std::time::SystemTime);

/// Relies on `std::time::SystemTime::now`: the current wall-clock time;
/// nothing is promised of its value.
#[verifier::external_body]
fn system_now() -> (t: std::time::SystemTime) {
    std::time::SystemTime::now()
}

/// Relies on `std::time::SystemTime::elapsed`: the time since `origin`,
/// or `None` when the clock now reads earlier than `origin`; the value
/// depends on the wall clock, so nothing is promised of it.
#[verifier::external_body]
fn elapsed_since(origin: &std::time::SystemTime) -> (r: Option<std::time::Duration>) {
    match origin.elapsed() {
        Ok(d) => Some(d),
        Err(_) => None,
    }
}

/// Relies on `std::time::Duration::as_secs`: the duration's whole seconds.
#[verifier::external_body]
fn duration_secs(d: &std::time::Duration) -> (s: u64) {
    d.as_secs()
}

/// The elapsed seconds a clock reading yields: a failed reading counts
/// as zero rather than surfacing an error.
pub open spec fn reading_secs(r: Option<u64>) -> u64 {
    match r {
        Some(s) => s,
        None => 0,
    }
}

/// The indicator phase a whole-second count yields: true on even seconds,
/// false on odd ones.
pub open spec fn phase_of(secs: u64) -> bool {
    secs % 2 == 0
}

/// Whole elapsed seconds from a possibly failed clock reading; a failed
/// reading is zero, never an error.
pub fn elapsed_from_reading(r: Option<u64>) -> (s: u64)
    ensures
        s == reading_secs(r),
{
    match r {
        Some(s) => s,
        None => 0,
    }
}

/// Indicator phase for a whole-second count: true at zero, false at one,
/// true at two, toggling deterministically every second.
pub fn indicator_phase(elapsed_secs: u64) -> (b: bool)
    ensures
        b == phase_of(elapsed_secs),
{
    elapsed_secs % 2 == 0
}

/// The frame clock: a single origin captured once at loop start and reset
/// only by starting a new clock.
pub struct FrameClock {
    origin: std::time::SystemTime,
}

impl FrameClock {
    /// Starts the clock: captures the origin once.
    pub fn start() -> (c: FrameClock) {
        FrameClock { origin: system_now() }
    }

    /// Whole seconds since the origin, never negative; a reading that
    /// fails because the clock went backward counts as zero. The value
    /// depends on the wall clock, so nothing is promised of it.
    pub fn elapsed_seconds(&self) -> u64 {
        let r = match elapsed_since(&self.origin) {
            Some(d) => Some(duration_secs(&d)),
            None => None,
        };
        elapsed_from_reading(r)
    }

    /// The indicator phase for the seconds elapsed now: re-derived on
    /// every call, never cached, so it self-corrects after pacing jitter.
    pub fn indicator_phase(&self) -> bool {
        indicator_phase(self.elapsed_seconds())
    }
}

} // verus!
