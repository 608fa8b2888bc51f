//! Readings of the system's clocks.

use vstd::prelude::*;

verus! {

/// A point on the monotonic clock.
#[verifier::external_type_specification]
#[verifier::external_body]
pub struct ExInstant(std::time::Instant);

/// `Instant::now` reads the monotonic clock; nothing is claimed of the reading.
pub assume_specification[ std::time::Instant::now ]() -> std::time::Instant
;

/// Calls `Instant::elapsed`: the nanoseconds since `origin`. Nothing is claimed
/// of the reading.
#[verifier::external_body]
fn nanos_since(origin: &std::time::Instant) -> (nanos: u128) {
    origin.elapsed().as_nanos()
}

/// Calls `SystemTime::elapsed` on the Unix epoch: the whole seconds since then
/// and the nanoseconds beyond them, or nothing while the system's clock is set to
/// a time before it. Nothing is claimed of the reading.
#[verifier::external_body]
pub(crate) fn since_epoch() -> (reading: Option<(u64, u32)>) {
    match std::time::UNIX_EPOCH.elapsed() {
        Ok(elapsed) => Some((elapsed.as_secs(), elapsed.subsec_nanos())),
        Err(_) => None,
    }
}

/// Whether the system's clock has given that reading.
pub closed spec fn is_reading(reading: Option<(u64, u32)>) -> bool {
    call_ensures(since_epoch, (), reading)
}

/// What the system's clock shows: the whole seconds since the Unix epoch and the
/// nanoseconds beyond them, or nothing.
pub(crate) fn system_time() -> (reading: Option<(u64, u32)>)
    ensures
        is_reading(reading),
{
    since_epoch()
}

/// The nanoseconds in a second.
pub const NANOS_PER_SEC: u128 = 1_000_000_000;

/// A clock that starts at zero when it is made and never runs backwards.
pub struct Clock {
    origin: std::time::Instant,
    latest: u128,
}

impl View for Clock {
    type V = u128;

    /// What the clock showed when it was last read; zero before that.
    closed spec fn view(&self) -> u128 {
        self.latest
    }
}

impl Clock {
    /// Whether that many nanoseconds were measured since the clock was started.
    pub closed spec fn measures(self, elapsed: u128) -> bool {
        call_ensures(nanos_since, (&self.origin,), elapsed)
    }

    /// A clock that starts now, at zero.
    pub fn start() -> (clock: Clock)
        ensures
            clock@ == 0,
    {
        Clock { origin: std::time::Instant::now(), latest: 0 }
    }

    /// The nanoseconds since the clock was started, and never fewer than it showed
    /// before.
    pub fn read(&mut self) -> (now: u128)
        ensures
            now >= old(self)@,
            final(self)@ == now,
            exists|elapsed: u128| #[trigger]
                old(self).measures(elapsed) && now == if elapsed > old(self)@ {
                    elapsed
                } else {
                    old(self)@
                },
    {
        let elapsed: u128 = nanos_since(&self.origin);
        assert(self.measures(elapsed));
        self.reach(elapsed)
    }

    /// What the clock shows once `elapsed` nanoseconds were measured since it was
    /// started: that many, unless it has shown more before.
    pub fn reach(&mut self, elapsed: u128) -> (now: u128)
        ensures
            now == if elapsed > old(self)@ {
                elapsed
            } else {
                old(self)@
            },
            final(self)@ == now,
    {
        if elapsed > self.latest {
            self.latest = elapsed;
        }
        self.latest
    }
}

/// The time that has passed from `then` to `now`; none where `then` is later.
pub open spec fn age(now: u128, then: u128) -> nat {
    if now >= then {
        (now - then) as nat
    } else {
        0
    }
}

/// The time that has passed from `then` to `now`; none where `then` is later.
pub fn age_of(now: u128, then: u128) -> (nanos: u128)
    ensures
        nanos == age(now, then),
{
    if now >= then {
        now - then
    } else {
        0
    }
}

/// The Unix time in whole seconds of a reading of the system's clock; zero where
/// the clock is set to a time before the epoch.
pub fn stamp_from(reading: Option<(u64, u32)>) -> (stamp: u64)
    ensures
        stamp == match reading {
            Some(since) => since.0,
            None => 0,
        },
{
    match reading {
        Some(since) => since.0,
        None => 0,
    }
}

/// The Unix time in whole seconds, now.
pub fn unix_seconds() -> (stamp: u64)
    ensures
        exists|reading: Option<(u64, u32)>| #[trigger]
            is_reading(reading) && stamp == match reading {
                Some(since) => since.0,
                None => 0,
            },
{
    let reading = system_time();
    stamp_from(reading)
}


/// What was seen `nanos` nanoseconds ago is that old, and what is yet to come has no age.
pub proof fn ages_are_differences(then: u128, nanos: u128)
    requires
        then + nanos <= u128::MAX,
    ensures
        age((then + nanos) as u128, then) == nanos,
        nanos > 0 ==> age(then, (then + nanos) as u128) == 0,
        NANOS_PER_SEC == 1_000_000_000,
{
}

/// A stamp is the whole seconds of a reading of the system's clock, whatever stands beyond
/// them, and zero where there is no reading.
pub proof fn a_stamp_is_in_whole_seconds(seconds: u64, nanos: u32, stamp: u64, none: u64)
    requires
        call_ensures(stamp_from, (Some((seconds, nanos)),), stamp),
        call_ensures(stamp_from, (None,), none),
    ensures
        stamp == seconds,
        none == 0,
{
}

/// The clock starts at zero, shows what was measured, and never less than it has shown
/// before.
pub proof fn the_clock_shows_the_most_that_was_measured(
    started: Clock,
    clock: &mut Clock,
    elapsed: u128,
    now: u128,
)
    requires
        call_ensures(Clock::start, (), started),
        call_ensures(Clock::reach, (clock, elapsed), now),
    ensures
        started@ == 0,
        final(clock)@ == now,
        now >= elapsed,
        now >= old(clock)@,
        now == elapsed || now == old(clock)@,
{
}

} // verus!
