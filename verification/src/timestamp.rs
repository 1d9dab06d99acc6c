//! Instants as plain values: whole seconds since the Unix epoch plus a
//! sub-second nanosecond part.

use vstd::prelude::*;

verus! {

/// Nanoseconds in one second.
pub const NANOS_PER_SEC: i128 = 1_000_000_000;

/// Seconds in one day.
pub const SECS_PER_DAY: i128 = 86_400;

/// An instant in UTC: `secs` whole seconds after 1970-01-01T00:00:00Z
/// (negative before it) and `nanos` nanoseconds past that second.
#[derive(Clone, Copy, Debug, PartialEq, Eq, Structural)]
pub struct Timestamp {
    pub secs: i64,
    pub nanos: u32,
}

/// Integer division rounding toward zero, as Rust's `/` does.
pub open spec fn div_toward_zero(a: int, b: int) -> int
    recommends
        b > 0,
{
    if a >= 0 {
        a / b
    } else {
        -((-a) / b)
    }
}

/// The signed distance from `then` to `now` in nanoseconds.
pub open spec fn nanos_between(now: Timestamp, then: Timestamp) -> int {
    (now.secs - then.secs) * NANOS_PER_SEC + (now.nanos - then.nanos)
}

/// Whole days from `then` to `now`: the distance in whole seconds, rounded
/// toward zero, divided by a day's seconds, again rounded toward zero. This
/// is how chrono's `TimeDelta::num_days` counts a difference of two
/// `DateTime<Utc>` values.
pub open spec fn days_between(now: Timestamp, then: Timestamp) -> int {
    div_toward_zero(div_toward_zero(nanos_between(now, then), NANOS_PER_SEC as int), SECS_PER_DAY as int)
}

/// `a` is strictly later than `b`.
pub open spec fn later_than(a: Timestamp, b: Timestamp) -> bool {
    a.secs > b.secs || (a.secs == b.secs && a.nanos > b.nanos)
}

impl Timestamp {
    /// The Unix epoch, 1970-01-01T00:00:00Z.
    pub fn epoch() -> (t: Timestamp)
        ensures
            t.secs == 0 && t.nanos == 0,
    {
        Timestamp { secs: 0, nanos: 0 }
    }

    /// Whether `self` is strictly later than `other`.
    pub fn is_later_than(&self, other: &Timestamp) -> (r: bool)
        ensures
            r == later_than(*self, *other),
    {
        self.secs > other.secs || (self.secs == other.secs && self.nanos > other.nanos)
    }
}

/// The instant that an RFC 3339 date-time text stands for, as seconds since
/// the epoch and nanoseconds past that second (more than a second's worth
/// during a leap second), or `None` when the text is not RFC 3339: chrono's
/// `DateTime::parse_from_rfc3339`, taken to UTC.
pub uninterp spec fn rfc3339_instant(text: Seq<char>) -> Option<(i64, u32)>;

/// Calls chrono's `DateTime::parse_from_rfc3339` on `text` and reads the
/// parsed instant's `timestamp` and `timestamp_subsec_nanos`. Claimed: the
/// result is [`rfc3339_instant`] of the text, which depends on the text
/// alone.
#[verifier::external_body]
fn rfc3339_parts(text: &str) -> (r: Option<(i64, u32)>)
    ensures
        r == rfc3339_instant(text@),
{
    match chrono::DateTime::parse_from_rfc3339(text) {
        Ok(t) => Some((t.timestamp(), t.timestamp_subsec_nanos())),
        Err(_) => None,
    }
}

/// Reads an RFC 3339 date-time such as `2026-06-16T12:00:00Z` or
/// `2026-06-16T14:00:00+02:00` as an instant; `None` when it is not one.
pub fn parse_rfc3339(text: &str) -> (r: Option<Timestamp>)
    ensures
        r == match rfc3339_instant(text@) {
            Some((secs, nanos)) => Some(Timestamp { secs, nanos }),
            None => None::<Timestamp>,
        },
{
    match rfc3339_parts(text) {
        Some((secs, nanos)) => Some(Timestamp { secs, nanos }),
        None => None,
    }
}

/// Dividing by a positive number, rounding toward zero, never grows the magnitude.
proof fn lemma_div_toward_zero_shrinks(a: int, b: int)
    requires
        b > 0,
    ensures
        a >= 0 ==> 0 <= div_toward_zero(a, b) <= a,
        a < 0 ==> a <= div_toward_zero(a, b) <= 0,
{
    if a >= 0 {
        assert(0 <= a / b <= a) by (nonlinear_arith)
            requires a >= 0, b > 0;
    } else {
        let m = -a;
        assert(0 <= m / b <= m) by (nonlinear_arith)
            requires m > 0, b > 0;
    }
}

/// Rust's `/` on a non-negative dividend and a positive divisor.
fn div_toward_zero_exec(a: i128, b: i128) -> (q: i128)
    requires
        b > 0,
        -0x7fff_ffff_ffff_ffff_ffff_ffff_ffff_ffff <= a,
    ensures
        q == div_toward_zero(a as int, b as int),
{
    if a >= 0 {
        a / b
    } else {
        let m: i128 = -a;
        let d: i128 = m / b;
        proof {
            assert(0 <= d <= m) by (nonlinear_arith)
                requires m >= 0, b > 0, d == m / b;
        }
        -d
    }
}

/// Whole days elapsed from `then` to `now` (negative when `then` is later),
/// counted as [`days_between`] states.
pub fn age_in_days(now: &Timestamp, then: &Timestamp) -> (days: i64)
    ensures
        days == days_between(*now, *then),
{
    let secs_diff: i128 = now.secs as i128 - then.secs as i128;
    let nanos_diff: i128 = now.nanos as i128 - then.nanos as i128;
    assert(-0x1_0000_0000_0000_0000 <= secs_diff <= 0x1_0000_0000_0000_0000);
    let scaled: i128 = secs_diff * 1_000_000_000;
    assert(-0x1_0000_0000_0000_0000 * 1_000_000_000 <= scaled <= 0x1_0000_0000_0000_0000 * 1_000_000_000) by (nonlinear_arith)
        requires
            scaled == secs_diff * 1_000_000_000,
            -0x1_0000_0000_0000_0000 <= secs_diff <= 0x1_0000_0000_0000_0000;
    let total: i128 = scaled + nanos_diff;
    let whole_secs: i128 = div_toward_zero_exec(total, 1_000_000_000);
    proof {
        let t = total as int;
        let bound: int = 0x1_0000_0000_0000_0000int * 1_000_000_000int + 0x1_0000_0000int;
        assert(-bound <= t <= bound);
        let q: int = 0x1_0000_0000_0000_0004int;
        vstd::arithmetic::div_mod::lemma_fundamental_div_mod_converse(bound, 1_000_000_000, q, 294_967_296);
        if t >= 0 {
            vstd::arithmetic::div_mod::lemma_div_is_ordered(t, bound, 1_000_000_000);
        } else {
            vstd::arithmetic::div_mod::lemma_div_is_ordered(-t, bound, 1_000_000_000);
        }
        lemma_div_toward_zero_shrinks(whole_secs as int, 86_400);
    }
    let days: i128 = div_toward_zero_exec(whole_secs, 86_400);
    days as i64
}

} // verus!
