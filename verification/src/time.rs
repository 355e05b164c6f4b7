//! Wrap-safe 32-bit tick arithmetic and durations.
use vstd::prelude::*;
use crate::error::BadParamError;

verus! {

/// A point or a span in the 32-bit tick domain. One tick is one microsecond.
pub type Time32 = u32;

/// The system time: microseconds on a 64-bit scale that the application may
/// set at will.
pub type Time64 = u64;

/// The largest distance by which one tick value can lie ahead of another and
/// still count as being after it.
pub const TIME_USER_HEADROOM: Time32 = 0x7fff_ffff;

/// How far the tick counter may run past a pending expiration while the
/// expiration is still guaranteed to be recognised as due.
pub const TIME_HARD_HEADROOM: Time32 = 0x4000_0000;

/// The tick count after which the tick source wraps around to zero: the
/// tick source counts through all 32 bits.
pub const MAX_TICK_COUNT: Time32 = 0xffff_ffff;

/// The longest time for which the tick source is asked to wait before its
/// next tick.
pub const MAX_TIMEOUT: Time32 = 0x7fff_ffff;

/// The reserved value meaning "infinity" or "not scheduled".
pub const BAD_DURATION32: Time32 = 0xffff_ffff;

/// The constant that the hosted tick source adds to the elapsed microseconds,
/// so that nothing comes to depend on the counter starting at zero.
pub const TICK_COUNT_ORIGIN: Time32 = 0x00c0_ffee;

/// The number of distinct tick values.
pub open spec fn tick_modulus() -> int {
    0x1_0000_0000
}

/// The distance from `a` forward to `b` on the 32-bit tick circle.
pub open spec fn tick_distance(a: Time32, b: Time32) -> int {
    (b - a) % tick_modulus()
}

/// The tick that lies `d` ticks after `a`.
pub open spec fn tick_after(a: Time32, d: Time32) -> Time32 {
    ((a + d) % tick_modulus()) as Time32
}

/// `a` is before `b`: going forward from `a`, `b` is reached after at least
/// one and at most `TIME_USER_HEADROOM` ticks.
pub open spec fn spec_is_before(a: Time32, b: Time32) -> bool {
    1 <= tick_distance(a, b) <= TIME_USER_HEADROOM
}

/// An expiration `at` is due at `now` unless `now` is before `at`.
pub open spec fn spec_is_due(at: Time32, now: Time32) -> bool {
    !spec_is_before(now, at)
}

/// How long an expiration `at` still has to run at `now`; zero once it is
/// due.
pub open spec fn spec_remaining(at: Time32, now: Time32) -> Time32 {
    if spec_is_due(at, now) {
        0
    } else {
        tick_distance(now, at) as Time32
    }
}

#[verifier::when_used_as_spec(spec_is_before)]
pub fn is_before(a: Time32, b: Time32) -> (r: bool)
    ensures
        r == spec_is_before(a, b),
{
    let d: u32 = b.wrapping_sub(a);
    1 <= d && d <= TIME_USER_HEADROOM
}

#[verifier::when_used_as_spec(spec_is_due)]
pub fn is_due(at: Time32, now: Time32) -> (r: bool)
    ensures
        r == spec_is_due(at, now),
{
    !is_before(now, at)
}

/// The time left until `at`, seen from `now`, rounded up to zero when `at`
/// has passed.
#[verifier::when_used_as_spec(spec_remaining)]
pub fn saturating_duration_until(at: Time32, now: Time32) -> (r: Time32)
    ensures
        r == spec_remaining(at, now),
        r <= TIME_USER_HEADROOM,
{
    if is_before(now, at) {
        at.wrapping_sub(now)
    } else {
        0
    }
}

/// The absolute expiration of a delay `d` that starts at `now`.
pub fn expiration_after(now: Time32, d: Time32) -> (r: Time32)
    ensures
        r == tick_after(now, d),
{
    now.wrapping_add(d)
}

/// A signed span of time in microseconds.
#[derive(Clone, Copy, PartialEq, Eq, Structural, Debug)]
pub struct Duration {
    pub micros: i32,
}

impl Duration {
    pub fn from_micros(micros: i32) -> (r: Duration)
        ensures
            r.micros == micros,
    {
        Duration { micros }
    }

    /// A duration of `millis` milliseconds, or `None` where that many
    /// microseconds do not fit.
    pub fn from_millis(millis: i32) -> (r: Option<Duration>)
        ensures
            r.is_some() <==> -0x8000_0000 <= millis * 1000 <= 0x7fff_ffff,
            r.is_some() ==> r.unwrap().micros == millis * 1000,
    {
        match millis.checked_mul(1000) {
            Some(micros) => Some(Duration { micros }),
            None => None,
        }
    }

    pub fn as_micros(self) -> (r: i32)
        ensures
            r == self.micros,
    {
        self.micros
    }

    pub fn is_negative(self) -> (r: bool)
        ensures
            r == (self.micros < 0),
    {
        self.micros < 0
    }
}

/// What `time32_from_duration` returns: the same number of ticks for a
/// duration that is not negative, `BadParam` for one that is.
pub open spec fn spec_time32_from_duration(d: Duration) -> Result<Time32, BadParamError> {
    if d.micros >= 0 {
        Ok(d.micros as Time32)
    } else {
        Err(BadParamError::BadParam)
    }
}

#[verifier::when_used_as_spec(spec_time32_from_duration)]
pub fn time32_from_duration(d: Duration) -> (r: Result<Time32, BadParamError>)
    ensures
        r == spec_time32_from_duration(d),
        r is Ok ==> r->Ok_0 <= TIME_USER_HEADROOM,
{
    if d.micros >= 0 {
        Ok(d.micros as u32)
    } else {
        Err(BadParamError::BadParam)
    }
}

/// The ticks of an optional duration, where `None` stands for infinity.
pub open spec fn spec_time32_from_delay(d: Option<Duration>) -> Result<Time32, BadParamError> {
    match d {
        Some(x) => spec_time32_from_duration(x),
        None => Ok(BAD_DURATION32),
    }
}

#[verifier::when_used_as_spec(spec_time32_from_delay)]
pub fn time32_from_delay(d: Option<Duration>) -> (r: Result<Time32, BadParamError>)
    ensures
        r == spec_time32_from_delay(d),
{
    match d {
        Some(x) => time32_from_duration(x),
        None => Ok(BAD_DURATION32),
    }
}

/// The tick count that the hosted tick source reports once `micros`
/// microseconds have passed since its origin: `micros` moved on by
/// `TICK_COUNT_ORIGIN`, on the 32-bit tick circle.
pub open spec fn spec_tick_count_from_micros(micros: u128) -> Time32 {
    ((micros + TICK_COUNT_ORIGIN) % tick_modulus()) as Time32
}

pub fn tick_count_from_micros(micros: u128) -> (r: Time32)
    ensures
        r == spec_tick_count_from_micros(micros),
{
    let low: u128 = micros % 0x1_0000_0000u128;
    let low32: u32 = low as u32;
    low32.wrapping_add(TICK_COUNT_ORIGIN)
}

/// An expiration set `d` ticks ahead, with `d` within the user headroom, is
/// not due before `d` ticks have gone by and is due exactly then, whether or
/// not the addition wraps around the 32-bit counter.
pub proof fn lemma_fires_exactly_when_reached(now: Time32, d: Time32, e: Time32)
    requires
        d <= TIME_USER_HEADROOM,
        e <= d,
    ensures
        spec_is_due(tick_after(now, d), tick_after(now, e)) <==> e == d,
        spec_remaining(tick_after(now, d), tick_after(now, e)) == d - e,
{
}

/// Once reached, an expiration stays due for as long as the tick counter
/// runs past it by no more than `TIME_HARD_HEADROOM`.
pub proof fn lemma_overdue_stays_due(at: Time32, late: Time32)
    requires
        late <= TIME_HARD_HEADROOM,
    ensures
        spec_is_due(at, tick_after(at, late)),
{
}

/// Of two different ticks within the headroom of each other exactly one is
/// before the other.
pub proof fn lemma_before_is_asymmetric(a: Time32, b: Time32)
    ensures
        !(spec_is_before(a, b) && spec_is_before(b, a)),
        !spec_is_before(a, a),
{
}

} // verus!
