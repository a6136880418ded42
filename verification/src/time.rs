use vstd::prelude::*;

verus! {

/// Earliest instant the library tracks: 0000-01-01T00:00:00 UTC, as seconds
/// since the Unix epoch.
pub const MIN_INSTANT: i64 = -62135596800;

/// Latest instant the library tracks: 9999-12-31T23:59:59 UTC.
pub const MAX_INSTANT: i64 = 253402300799;

/// Seconds in a day.
pub const DAY_SECONDS: i64 = 86400;

/// The width of the instant range: no duration in this library exceeds it.
pub const SPAN_SECONDS: i64 = 315537897599;

/// A whole number of days large enough to shift any in-range instant,
/// plus a day of time-zone slack, above zero (719163 days exactly).
pub const DAY_SHIFT: i64 = 62135683200;

/// An instant the library is willing to do arithmetic on.
pub open spec fn in_range(t: int) -> bool {
    MIN_INSTANT <= t <= MAX_INSTANT
}

/// An arbitrary clock reading, clipped into the library's instant range.
pub open spec fn spec_clip(t: int) -> int {
    if t < MIN_INSTANT {
        MIN_INSTANT as int
    } else if t > MAX_INSTANT {
        MAX_INSTANT as int
    } else {
        t
    }
}

pub open spec fn spec_max(a: int, b: int) -> int {
    if a >= b {
        a
    } else {
        b
    }
}

/// The instant of the local midnight that begins the local calendar day
/// holding `t`, assuming the zone's UTC offset `off` held all of that day.
pub open spec fn spec_local_midnight(t: int, off: int) -> int {
    ((t + off) / (DAY_SECONDS as int)) * (DAY_SECONDS as int) - off
}

/// Local midnight never lies after the instant itself, and lies less than
/// one day before it.
pub proof fn lemma_local_midnight_bounds(t: int, off: int)
    ensures
        spec_local_midnight(t, off) <= t,
        t - spec_local_midnight(t, off) < DAY_SECONDS,
{
    let d = DAY_SECONDS as int;
    let q = (t + off) / d;
    assert(d * q <= t + off && t + off < d * (q + 1)) by {
        vstd::arithmetic::div_mod::lemma_fundamental_div_mod(t + off, d);
        vstd::arithmetic::div_mod::lemma_mod_bound(t + off, d);
    }
}

pub fn clip_instant(t: i64) -> (r: i64)
    ensures
        r as int == spec_clip(t as int),
{
    if t < MIN_INSTANT {
        MIN_INSTANT
    } else if t > MAX_INSTANT {
        MAX_INSTANT
    } else {
        t
    }
}

pub fn max_instant(a: i64, b: i64) -> (r: i64)
    ensures
        r as int == spec_max(a as int, b as int),
{
    if a >= b {
        a
    } else {
        b
    }
}

/// Supplies the current instant; abstracted so a deterministic clock can
/// stand in for the system clock under test.
pub trait Clock: Sized {
    /// The current instant, as seconds since the Unix epoch. The reading is
    /// raw: callers clip it into range themselves.
    fn now(&self) -> i64;
}

/// The machine's wall clock.
pub struct SystemClock;

/// Relies on chrono's `Local::now` for the current wall-clock time. A reading
/// is whatever the system clock says; nothing more holds of it.
#[verifier::external_body]
fn system_now() -> i64 {
    chrono::Local::now().timestamp()
}

impl Clock for SystemClock {
    fn now(&self) -> i64 {
        system_now()
    }
}

/// A clock frozen at one instant, for tests and replays.
pub struct FixedClock {
    pub instant: i64,
}

impl Clock for FixedClock {
    fn now(&self) -> i64 {
        self.instant
    }
}

/// Relies on chrono: the UTC offset, in seconds, of the machine's local time
/// zone at instant `t`. chrono's `FixedOffset` constructors keep every offset
/// strictly between -86400 and 86400, and `DateTime::from_timestamp` accepts
/// every in-range instant.
#[verifier::external_body]
fn local_offset_seconds(t: i64) -> (off: i32)
    requires
        in_range(t as int),
    ensures
        -86400 < off < 86400,
{
    let utc = chrono::DateTime::<chrono::Utc>::from_timestamp(t, 0).unwrap();
    utc.with_timezone(&chrono::Local).offset().local_minus_utc()
}

/// Local midnight of the day holding `t`, under a fixed UTC offset `off`.
pub fn midnight_with_offset(t: i64, off: i32) -> (m: i64)
    requires
        in_range(t as int),
        -86400 < off < 86400,
    ensures
        m as int == spec_local_midnight(t as int, off as int),
{
    let d = DAY_SECONDS;
    let shifted: i64 = t + (off as i64) + DAY_SHIFT;
    assert(shifted >= 0);
    let q: i64 = shifted / d;
    let m: i64 = q * d - DAY_SHIFT - (off as i64);
    proof {
        let a = t as int + off as int;
        let di = d as int;
        assert(DAY_SHIFT as int == 719163 * di);
        assert(a / di + 719163 == (a + 719163 * di) / di) by {
            vstd::arithmetic::div_mod::lemma_hoist_over_denominator(a, 719163, di as nat);
        }
        assert(q as int == a / di + 719163);
        lemma_local_midnight_bounds(t as int, off as int);
        assert((a / di + 719163) * di == (a / di) * di + 719163 * di) by (nonlinear_arith);
    }
    m
}

/// Local midnight of the day holding `t`, in the machine's local time zone.
/// The offset is whatever the zone database gives for that instant.
pub fn local_midnight(t: i64) -> (m: i64)
    requires
        in_range(t as int),
    ensures
        exists|off: int|
            -86400 < off < 86400 && m as int == spec_local_midnight(t as int, off),
        m <= t,
        t - m < DAY_SECONDS,
{
    let off = local_offset_seconds(t);
    let m = midnight_with_offset(t, off);
    proof {
        lemma_local_midnight_bounds(t as int, off as int);
        assert(-86400 < off as int && (off as int) < 86400 && m as int == spec_local_midnight(
            t as int,
            off as int,
        ));
    }
    m
}

} // verus!
