//! Time for the detection engine.
//!
//! Two readings, kept separate: the monotonic one drives every duration
//! comparison and cannot jump backwards; the wall one is only stamped
//! onto events. Both are nanoseconds: monotonic ones since the clock's
//! own origin, wall ones since the Unix epoch (negative before it).

use vstd::prelude::*;

verus! {

#[verifier::external_type_specification]
#[verifier::external_body]
pub struct ExInstant(std::time::Instant);

/// The detector's only source of time.
pub trait Clock {
    /// Monotonic reading, used for every duration comparison.
    fn monotonic(&self) -> u128;

    /// Wall-clock reading, used only to stamp emitted events.
    fn wall(&self) -> i128;
}

/// `Instant::now`.
#[verifier::external_body]
pub(crate) fn instant_now() -> (r: std::time::Instant) {
    std::time::Instant::now()
}

/// `Instant::elapsed`, as whole nanoseconds. Nothing is stated of the
/// reading: it is the operating system's.
#[verifier::external_body]
fn nanos_since(origin: &std::time::Instant) -> (r: u128) {
    origin.elapsed().as_nanos()
}

/// `SystemTime::now().duration_since(UNIX_EPOCH)`, as whole
/// nanoseconds: `Ok` after the epoch, `Err` with the distance before it.
/// Nothing is stated of the reading.
#[verifier::external_body]
fn wall_reading() -> (r: Result<u128, u128>) {
    match std::time::SystemTime::now().duration_since(std::time::UNIX_EPOCH) {
        Ok(d) => Ok(d.as_nanos()),
        Err(e) => Err(e.duration().as_nanos()),
    }
}

/// A wall reading as signed nanoseconds since the epoch, negative before
/// it, each distance cast to `i128` as `as` does.
pub open spec fn signed_nanos(d: Result<u128, u128>) -> i128 {
    match d {
        Ok(n) => n as i128,
        Err(n) => if n as i128 == i128::MIN { i128::MIN } else { (-(n as i128)) as i128 },
    }
}

/// The signed form of a wall reading.
pub fn signed_wall(d: Result<u128, u128>) -> (r: i128)
    ensures
        r == signed_nanos(d),
{
    match d {
        Ok(n) => n as i128,
        Err(n) => {
            let v = n as i128;
            if v == i128::MIN { i128::MIN } else { -v }
        },
    }
}

/// Nanoseconds since the Unix epoch, negative before it.
fn wall_nanos() -> i128 {
    signed_wall(wall_reading())
}

/// The production clock: the operating system's, its monotonic readings
/// measured from when it was made.
#[derive(Debug, Clone, Copy)]
pub struct SystemClock {
    origin: std::time::Instant,
}

impl SystemClock {
    pub fn new() -> (r: SystemClock) {
        SystemClock { origin: instant_now() }
    }
}

impl Default for SystemClock {
    fn default() -> (r: SystemClock) {
        SystemClock::new()
    }
}

impl Clock for SystemClock {
    fn monotonic(&self) -> u128 {
        nanos_since(&self.origin)
    }

    fn wall(&self) -> i128 {
        wall_nanos()
    }
}

/// A clock that only moves when a test tells it to. Both readings start
/// at zero (the wall one at the Unix epoch).
#[derive(Debug, Clone, Copy, PartialEq, Eq, Structural)]
pub struct TestClock {
    mono: u128,
    wall_at: i128,
}

impl TestClock {
    /// The monotonic reading.
    pub closed spec fn mono_spec(&self) -> u128 {
        self.mono
    }

    /// The wall reading.
    pub closed spec fn wall_spec(&self) -> i128 {
        self.wall_at
    }

    pub fn new() -> (r: TestClock)
        ensures
            r.mono_spec() == 0,
            r.wall_spec() == 0,
    {
        TestClock { mono: 0, wall_at: 0 }
    }

    /// Moves both readings forward by `by`. There is no rewind.
    pub fn advance(&mut self, by: u128)
        requires
            by <= i128::MAX,
            old(self).mono_spec() + by <= u128::MAX,
            old(self).wall_spec() + by <= i128::MAX,
        ensures
            final(self).mono_spec() == old(self).mono_spec() + by,
            final(self).wall_spec() == old(self).wall_spec() + by,
    {
        self.mono = self.mono + by;
        self.wall_at = self.wall_at + by as i128;
    }

    /// Moves only the wall reading, leaving monotonic time untouched, as
    /// an NTP correction would.
    pub fn advance_wall_only(&mut self, by: u128)
        requires
            by <= i128::MAX,
            old(self).wall_spec() + by <= i128::MAX,
        ensures
            final(self).mono_spec() == old(self).mono_spec(),
            final(self).wall_spec() == old(self).wall_spec() + by,
    {
        self.wall_at = self.wall_at + by as i128;
    }
}

impl Default for TestClock {
    fn default() -> (r: TestClock)
        ensures
            r.mono_spec() == 0,
            r.wall_spec() == 0,
    {
        TestClock::new()
    }
}

impl Clock for TestClock {
    fn monotonic(&self) -> (r: u128)
        ensures
            r == self.mono_spec(),
    {
        self.mono
    }

    fn wall(&self) -> (r: i128)
        ensures
            r == self.wall_spec(),
    {
        self.wall_at
    }
}

} // verus!
