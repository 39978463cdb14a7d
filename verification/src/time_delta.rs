//! Signed durations with nanosecond precision.

use vstd::arithmetic::div_mod::{
    lemma_fundamental_div_mod, lemma_fundamental_div_mod_converse,
};
use vstd::prelude::*;
use vstd::string::StringExecFns;

use crate::Error;

verus! {

/// The number of nanoseconds in a microsecond.
pub const NANOS_PER_MICRO: i32 = 1000;
/// The number of nanoseconds in a millisecond.
pub const NANOS_PER_MILLI: i32 = 1_000_000;
/// The number of nanoseconds in a second.
pub const NANOS_PER_SEC: i32 = 1_000_000_000;
/// The number of microseconds in a second.
pub const MICROS_PER_SEC: i64 = 1_000_000;
/// The number of milliseconds in a second.
pub const MILLIS_PER_SEC: i64 = 1000;
/// The number of seconds in a minute.
pub const SECS_PER_MINUTE: i64 = 60;
/// The number of seconds in an hour.
pub const SECS_PER_HOUR: i64 = 3600;
/// The number of (non-leap) seconds in a day.
pub const SECS_PER_DAY: i64 = 86_400;
/// The number of (non-leap) seconds in a week.
pub const SECS_PER_WEEK: i64 = 604_800;

/// The seconds field of the largest representable duration:
/// `i64::MAX / 1000` whole seconds.
pub const MAX_SECS: i64 = 9_223_372_036_854_775;
/// The nanoseconds field of the largest representable duration:
/// `(i64::MAX % 1000)` milliseconds.
pub const MAX_SUBSEC_NANOS: i32 = 807_000_000;
/// The seconds field of the smallest representable duration.
pub const MIN_SECS: i64 = -9_223_372_036_854_776;
/// The nanoseconds field of the smallest representable duration.
pub const MIN_SUBSEC_NANOS: i32 = 193_000_000;

/// The value of the largest representable duration, `i64::MAX` milliseconds,
/// as a count of nanoseconds.
pub open spec fn td_max_nanos() -> int {
    9_223_372_036_854_775_807int * 1_000_000
}

/// The value of the smallest representable duration, `-i64::MAX`
/// milliseconds, as a count of nanoseconds. The minimum is deliberately the
/// negation of the maximum (rather than `i64::MIN` milliseconds) so that
/// negation of a representable duration is always representable.
pub open spec fn td_min_nanos() -> int {
    -9_223_372_036_854_775_807int * 1_000_000
}

/// Signed division truncated toward zero, the convention the whole-unit
/// accessors of [`TimeDelta`] follow.
pub open spec fn div_trunc(a: int, b: int) -> int
    recommends
        b > 0,
{
    if a >= 0 {
        a / b
    } else {
        -((-a) / b)
    }
}

/// The remainder matching [`div_trunc`]: it carries the sign of `a`.
pub open spec fn rem_trunc(a: int, b: int) -> int
    recommends
        b > 0,
{
    a - div_trunc(a, b) * b
}

/// The absolute value of an integer.
pub open spec fn absi(x: int) -> int {
    if x >= 0 {
        x
    } else {
        -x
    }
}

/// The error returned when converting between [`TimeDelta`] and the standard
/// library's unsigned duration representation fails: the source value has no
/// counterpart in the target type.
#[derive(Clone, Copy, PartialEq, Eq, Debug, Structural)]
pub struct OutOfRangeError;

/// Time duration with nanosecond precision.
///
/// The duration is stored as whole seconds plus a non-negative nanosecond
/// remainder, so a duration of minus half a second is stored as `-1` seconds
/// and `500_000_000` nanoseconds. The range is restricted to that of `i64`
/// milliseconds, with the minimum set to `-i64::MAX` rather than `i64::MIN`
/// milliseconds so that the sign can always be flipped without a range check.
#[derive(Clone, Copy, PartialEq, Eq, PartialOrd, Ord, Debug, Hash, Structural)]
pub struct TimeDelta {
    /// Whole seconds; negative for durations before the zero point.
    pub secs: i64,
    /// Nanosecond remainder, always in `[0, 1_000_000_000)` whatever the
    /// sign of `secs`.
    pub nanos: i32,
}

impl View for TimeDelta {
    type V = int;

    /// A duration is modelled as its exact length in nanoseconds.
    open spec fn view(&self) -> int {
        self.secs * 1_000_000_000 + self.nanos
    }
}

impl TimeDelta {
    /// The representation invariant: the nanosecond remainder is normalized
    /// and the whole value lies within `i64` milliseconds.
    pub open spec fn wf(self) -> bool {
        &&& 0 <= self.nanos < 1_000_000_000
        &&& td_min_nanos() <= self@ <= td_max_nanos()
    }

    /// Makes a new `TimeDelta` with the given number of seconds and a
    /// nanosecond remainder in `[0, 1_000_000_000)`.
    ///
    /// Fails with [`Error::InvalidArgument`] when `nanos` is a second or
    /// more, and with [`Error::OutOfRange`] when the pair lies outside
    /// `[-i64::MAX, i64::MAX]` milliseconds.
    pub fn new(secs: i64, nanos: u32) -> (r: Result<TimeDelta, Error>)
        ensures
            nanos >= 1_000_000_000 ==> r == Err::<TimeDelta, Error>(Error::InvalidArgument),
            nanos < 1_000_000_000 && !(td_min_nanos() <= secs * 1_000_000_000 + nanos
                <= td_max_nanos()) ==> r == Err::<TimeDelta, Error>(Error::OutOfRange),
            nanos < 1_000_000_000 && td_min_nanos() <= secs * 1_000_000_000 + nanos
                <= td_max_nanos() ==> (r matches Ok(d) && d.wf() && d@ == secs * 1_000_000_000
                + nanos),
    {
        if nanos >= 1_000_000_000 {
            return Err(Error::InvalidArgument);
        }
        if secs < MIN_SECS
            || secs > MAX_SECS
            || (secs == MAX_SECS && nanos > MAX_SUBSEC_NANOS as u32)
            || (secs == MIN_SECS && nanos < MIN_SUBSEC_NANOS as u32)
        {
            return Err(Error::OutOfRange);
        }
        Ok(TimeDelta { secs, nanos: nanos as i32 })
    }

    /// A `TimeDelta` of exactly zero length.
    pub fn zero() -> (r: TimeDelta)
        ensures
            r.wf(),
            r@ == 0,
    {
        TimeDelta { secs: 0, nanos: 0 }
    }

    /// Returns `true` exactly when the duration has zero length.
    pub fn is_zero(self) -> (r: bool)
        requires
            self.wf(),
        ensures
            r <==> self@ == 0,
    {
        self.secs == 0 && self.nanos == 0
    }

    /// The minimum possible `TimeDelta`: `-i64::MAX` milliseconds.
    pub fn min_value() -> (r: TimeDelta)
        ensures
            r.wf(),
            r@ == td_min_nanos(),
    {
        TimeDelta { secs: MIN_SECS, nanos: MIN_SUBSEC_NANOS }
    }

    /// The maximum possible `TimeDelta`: `i64::MAX` milliseconds.
    pub fn max_value() -> (r: TimeDelta)
        ensures
            r.wf(),
            r@ == td_max_nanos(),
    {
        TimeDelta { secs: MAX_SECS, nanos: MAX_SUBSEC_NANOS }
    }
}

/// Floor division and the matching non-negative remainder of `x` by a
/// positive divisor `d`, which agree with the mathematical (Euclidean)
/// quotient and remainder.
pub(crate) fn div_mod_floor_64(x: i64, d: i64) -> (r: (i64, i64))
    requires
        d > 0,
    ensures
        r.0 == x as int / d as int,
        r.1 == x as int % d as int,
    decreases (if x == i64::MIN {
        1int
    } else {
        0int
    }),
{
    if x == i64::MIN {
        // Step one divisor toward zero to make the negation below safe.
        let (q, m) = div_mod_floor_64(x + d, d);
        proof {
            vstd::arithmetic::div_mod::lemma_div_plus_one(x as int, d as int);
            vstd::arithmetic::div_mod::lemma_mod_add_multiples_vanish(x as int, d as int);
        }
        (q - 1, m)
    } else if x >= 0 {
        let q = (x as u64) / (d as u64);
        let m = (x as u64) % (d as u64);
        proof {
            lemma_fundamental_div_mod(x as u64 as int, d as u64 as int);
            vstd::arithmetic::div_mod::lemma_div_nonincreasing(x as int, d as int);
            vstd::arithmetic::div_mod::lemma_div_pos_is_pos(x as int, d as int);
        }
        (q as i64, m as i64)
    } else {
        let n = (-x) as u64;
        let q0 = n / (d as u64);
        let m0 = n % (d as u64);
        proof {
            lemma_fundamental_div_mod(n as int, d as u64 as int);
            vstd::arithmetic::div_mod::lemma_div_nonincreasing(n as int, d as int);
            vstd::arithmetic::div_mod::lemma_div_pos_is_pos(n as int, d as int);
        }
        if m0 == 0 {
            proof {
                assert((-(q0 as int)) * (d as int) == -((d as int) * (q0 as int)))
                    by (nonlinear_arith);
                lemma_fundamental_div_mod_converse(x as int, d as int, -(q0 as int), 0);
            }
            (-(q0 as i64), 0)
        } else {
            proof {
                assert((-(q0 as int) - 1) * (d as int) == -((d as int) * (q0 as int)) - (
                d as int)) by (nonlinear_arith);
                lemma_fundamental_div_mod_converse(
                    x as int,
                    d as int,
                    -(q0 as int) - 1,
                    d - m0,
                );
            }
            (-(q0 as i64) - 1, d - (m0 as i64))
        }
    }
}

impl TimeDelta {
    /// Makes a new `TimeDelta` with the given number of weeks.
    pub fn weeks(weeks: i32) -> (r: TimeDelta)
        ensures
            r.wf(),
            r@ == weeks * SECS_PER_WEEK * 1_000_000_000,
    {
        TimeDelta { secs: weeks as i64 * SECS_PER_WEEK, nanos: 0 }
    }

    /// Makes a new `TimeDelta` with the given number of days.
    pub fn days(days: i32) -> (r: TimeDelta)
        ensures
            r.wf(),
            r@ == days * SECS_PER_DAY * 1_000_000_000,
    {
        TimeDelta { secs: days as i64 * SECS_PER_DAY, nanos: 0 }
    }

    /// Makes a new `TimeDelta` with the given number of hours.
    pub fn hours(hours: i32) -> (r: TimeDelta)
        ensures
            r.wf(),
            r@ == hours * SECS_PER_HOUR * 1_000_000_000,
    {
        TimeDelta { secs: hours as i64 * SECS_PER_HOUR, nanos: 0 }
    }

    /// Makes a new `TimeDelta` with the given number of minutes.
    pub fn minutes(minutes: i32) -> (r: TimeDelta)
        ensures
            r.wf(),
            r@ == minutes * SECS_PER_MINUTE * 1_000_000_000,
    {
        TimeDelta { secs: minutes as i64 * SECS_PER_MINUTE, nanos: 0 }
    }

    /// Makes a new `TimeDelta` with the given number of seconds.
    pub fn seconds(seconds: i32) -> (r: TimeDelta)
        ensures
            r.wf(),
            r@ == seconds * 1_000_000_000,
    {
        TimeDelta { secs: seconds as i64, nanos: 0 }
    }

    /// Makes a new `TimeDelta` with the given number of milliseconds.
    ///
    /// Fails with [`Error::OutOfRange`] only for `i64::MIN`, the one
    /// millisecond count whose negation is not representable.
    pub fn milliseconds(milliseconds: i64) -> (r: Result<TimeDelta, Error>)
        ensures
            milliseconds < -9_223_372_036_854_775_807i64 ==> r == Err::<TimeDelta, Error>(
                Error::OutOfRange,
            ),
            milliseconds >= -9_223_372_036_854_775_807i64 ==> (r matches Ok(d) && d.wf() && d@
                == milliseconds * 1_000_000),
    {
        if milliseconds < -i64::MAX {
            return Err(Error::OutOfRange);
        }
        let (secs, millis) = div_mod_floor_64(milliseconds, MILLIS_PER_SEC);
        proof {
            lemma_fundamental_div_mod(milliseconds as int, 1000);
        }
        Ok(TimeDelta { secs, nanos: millis as i32 * NANOS_PER_MILLI })
    }

    /// Makes a new `TimeDelta` with the given number of microseconds. Every
    /// `i64` microsecond count is representable, so this cannot fail.
    pub fn microseconds(microseconds: i64) -> (r: TimeDelta)
        ensures
            r.wf(),
            r@ == microseconds * 1000,
    {
        let (secs, micros) = div_mod_floor_64(microseconds, MICROS_PER_SEC);
        proof {
            lemma_fundamental_div_mod(microseconds as int, 1_000_000);
        }
        TimeDelta { secs, nanos: micros as i32 * NANOS_PER_MICRO }
    }

    /// Makes a new `TimeDelta` with the given number of nanoseconds. Every
    /// `i64` nanosecond count is representable, so this cannot fail.
    pub fn nanoseconds(nanos: i64) -> (r: TimeDelta)
        ensures
            r.wf(),
            r@ == nanos,
    {
        let (secs, ns) = div_mod_floor_64(nanos, NANOS_PER_SEC as i64);
        proof {
            lemma_fundamental_div_mod(nanos as int, 1_000_000_000);
        }
        TimeDelta { secs, nanos: ns as i32 }
    }
}

/// Relates the stored fields of a well-formed duration to truncated-toward-
/// zero division of its value by one second.
proof fn lemma_td_trunc(d: TimeDelta)
    requires
        d.wf(),
    ensures
        div_trunc(d@, 1_000_000_000) == if d.secs < 0 && d.nanos > 0 {
            d.secs + 1
        } else {
            d.secs as int
        },
        rem_trunc(d@, 1_000_000_000) == if d.secs < 0 && d.nanos > 0 {
            d.nanos - 1_000_000_000
        } else {
            d.nanos as int
        },
{
    if d.secs >= 0 {
        lemma_fundamental_div_mod_converse(d@, 1_000_000_000, d.secs as int, d.nanos as int);
    } else if d.nanos == 0 {
        lemma_fundamental_div_mod_converse(-d@, 1_000_000_000, -(d.secs as int), 0);
    } else {
        lemma_fundamental_div_mod_converse(
            -d@,
            1_000_000_000,
            -(d.secs as int) - 1,
            1_000_000_000 - d.nanos,
        );
    }
}

/// Truncated division distributes over a product of positive divisors.
proof fn lemma_div_trunc_denominator(a: int, b: int, c: int)
    requires
        b > 0,
        c > 0,
    ensures
        div_trunc(div_trunc(a, b), c) == div_trunc(a, b * c),
{
    vstd::arithmetic::mul::lemma_mul_strictly_positive(b, c);
    if a >= 0 {
        vstd::arithmetic::div_mod::lemma_div_pos_is_pos(a, b);
        vstd::arithmetic::div_mod::lemma_div_denominator(a, b, c);
    } else {
        vstd::arithmetic::div_mod::lemma_div_pos_is_pos(-a, b);
        vstd::arithmetic::div_mod::lemma_div_denominator(-a, b, c);
        if (-a) / b == 0 {
            vstd::arithmetic::div_mod::lemma_basic_div(0, c);
        }
    }
}

impl TimeDelta {
    /// Returns the total number of whole seconds, truncated toward zero.
    pub fn num_seconds(self) -> (r: i64)
        requires
            self.wf(),
        ensures
            r == div_trunc(self@, 1_000_000_000),
    {
        proof {
            lemma_td_trunc(self);
        }
        if self.secs < 0 && self.nanos > 0 {
            self.secs + 1
        } else {
            self.secs
        }
    }

    /// Returns the nanosecond remainder alongside [`Self::num_seconds`], so
    /// that `subsec_nanos() + num_seconds() * 1_000_000_000` reconstructs the
    /// exact duration. It carries the sign of the duration.
    pub fn subsec_nanos(self) -> (r: i32)
        requires
            self.wf(),
        ensures
            r == rem_trunc(self@, 1_000_000_000),
            r + div_trunc(self@, 1_000_000_000) * 1_000_000_000 == self@,
    {
        proof {
            lemma_td_trunc(self);
        }
        if self.secs < 0 && self.nanos > 0 {
            self.nanos - NANOS_PER_SEC
        } else {
            self.nanos
        }
    }

    /// Returns the total number of whole weeks, truncated toward zero.
    pub fn num_weeks(self) -> (r: i64)
        requires
            self.wf(),
        ensures
            r == div_trunc(self@, 604_800_000_000_000),
    {
        proof {
            lemma_div_trunc_denominator(self@, 86_400_000_000_000, 7);
            lemma_div_trunc_denominator(self@, 1_000_000_000, 86_400);
        }
        div_trunc_i64(self.num_days(), 7)
    }

    /// Returns the total number of whole days, truncated toward zero.
    pub fn num_days(self) -> (r: i64)
        requires
            self.wf(),
        ensures
            r == div_trunc(self@, 86_400_000_000_000),
    {
        proof {
            lemma_div_trunc_denominator(self@, 1_000_000_000, 86_400);
        }
        div_trunc_i64(self.num_seconds(), SECS_PER_DAY)
    }

    /// Returns the total number of whole hours, truncated toward zero.
    pub fn num_hours(self) -> (r: i64)
        requires
            self.wf(),
        ensures
            r == div_trunc(self@, 3_600_000_000_000),
    {
        proof {
            lemma_div_trunc_denominator(self@, 1_000_000_000, 3600);
        }
        div_trunc_i64(self.num_seconds(), SECS_PER_HOUR)
    }

    /// Returns the total number of whole minutes, truncated toward zero.
    pub fn num_minutes(self) -> (r: i64)
        requires
            self.wf(),
        ensures
            r == div_trunc(self@, 60_000_000_000),
    {
        proof {
            lemma_div_trunc_denominator(self@, 1_000_000_000, 60);
        }
        div_trunc_i64(self.num_seconds(), SECS_PER_MINUTE)
    }

    /// Negates the duration. The storage range is symmetric around zero, so
    /// this never fails.
    pub fn neg(self) -> (r: TimeDelta)
        requires
            self.wf(),
        ensures
            r.wf(),
            r@ == -self@,
    {
        if self.nanos == 0 {
            TimeDelta { secs: -self.secs, nanos: 0 }
        } else {
            TimeDelta { secs: -self.secs - 1, nanos: NANOS_PER_SEC - self.nanos }
        }
    }

    /// Returns the duration as an absolute (non-negative) value.
    pub fn abs(self) -> (r: TimeDelta)
        requires
            self.wf(),
        ensures
            r.wf(),
            r@ == if self@ >= 0 {
                self@
            } else {
                -self@
            },
    {
        if self.secs < 0 && self.nanos != 0 {
            TimeDelta { secs: -(self.secs + 1), nanos: NANOS_PER_SEC - self.nanos }
        } else if self.secs < 0 {
            TimeDelta { secs: -self.secs, nanos: self.nanos }
        } else {
            self
        }
    }

    /// Adds two durations, returning `None` when the sum would leave the
    /// representable range.
    pub fn checked_add(self, rhs: TimeDelta) -> (r: Option<TimeDelta>)
        requires
            self.wf(),
            rhs.wf(),
        ensures
            td_min_nanos() <= self@ + rhs@ <= td_max_nanos() ==> (r matches Some(d) && d.wf()
                && d@ == self@ + rhs@),
            !(td_min_nanos() <= self@ + rhs@ <= td_max_nanos()) ==> r is None,
    {
        let mut secs = self.secs + rhs.secs;
        let mut nanos = self.nanos + rhs.nanos;
        if nanos >= NANOS_PER_SEC {
            nanos -= NANOS_PER_SEC;
            secs += 1;
        }
        match TimeDelta::new(secs, nanos as u32) {
            Ok(d) => Some(d),
            Err(_) => None,
        }
    }

    /// Subtracts a duration, returning `None` when the difference would
    /// leave the representable range.
    pub fn checked_sub(self, rhs: TimeDelta) -> (r: Option<TimeDelta>)
        requires
            self.wf(),
            rhs.wf(),
        ensures
            td_min_nanos() <= self@ - rhs@ <= td_max_nanos() ==> (r matches Some(d) && d.wf()
                && d@ == self@ - rhs@),
            !(td_min_nanos() <= self@ - rhs@ <= td_max_nanos()) ==> r is None,
    {
        let mut secs = self.secs - rhs.secs;
        let mut nanos = self.nanos - rhs.nanos;
        if nanos < 0 {
            nanos += NANOS_PER_SEC;
            secs -= 1;
        }
        match TimeDelta::new(secs, nanos as u32) {
            Ok(d) => Some(d),
            Err(_) => None,
        }
    }
}

/// Sign and magnitude facts about truncated division and its remainder.
pub(crate) proof fn lemma_div_trunc_props(a: int, m: int)
    requires
        m > 0,
    ensures
        a >= 0 ==> div_trunc(a, m) >= 0 && 0 <= rem_trunc(a, m) < m,
        a <= 0 ==> div_trunc(a, m) <= 0 && -m < rem_trunc(a, m) <= 0,
        a == div_trunc(a, m) * m + rem_trunc(a, m),
{
    if a >= 0 {
        vstd::arithmetic::div_mod::lemma_div_pos_is_pos(a, m);
        lemma_fundamental_div_mod(a, m);
        vstd::arithmetic::div_mod::lemma_mod_division_less_than_divisor(a, m);
        vstd::arithmetic::mul::lemma_mul_is_commutative(m, a / m);
        assert(a == m * (a / m) + a % m);
        assert(rem_trunc(a, m) == a % m);
    } else {
        vstd::arithmetic::div_mod::lemma_div_pos_is_pos(-a, m);
        lemma_fundamental_div_mod(-a, m);
        vstd::arithmetic::div_mod::lemma_mod_division_less_than_divisor(-a, m);
        vstd::arithmetic::mul::lemma_mul_is_commutative(m, (-a) / m);
        assert((-((-a) / m)) * m == -(((-a) / m) * m)) by (nonlinear_arith);
        assert(-a == m * ((-a) / m) + (-a) % m);
        assert(rem_trunc(a, m) == -((-a) % m));
    }
}

/// Splitting a truncated division by `b` through the coarser divisor `b * k`:
/// first take whole multiples of `b * k`, then divide the remainder.
proof fn lemma_div_trunc_split(a: int, b: int, k: int)
    requires
        b > 0,
        k > 0,
    ensures
        div_trunc(a, b) == div_trunc(a, b * k) * k + div_trunc(rem_trunc(a, b * k), b),
{
    vstd::arithmetic::mul::lemma_mul_strictly_positive(b, k);
    if a >= 0 {
        lemma_div_split_pos(a, b, k);
        lemma_fundamental_div_mod(a, b * k);
        vstd::arithmetic::div_mod::lemma_div_pos_is_pos(a, b * k);
        vstd::arithmetic::div_mod::lemma_div_pos_is_pos(a % (b * k), b);
        vstd::arithmetic::mul::lemma_mul_is_commutative(b * k, a / (b * k));
        assert(a == (b * k) * (a / (b * k)) + a % (b * k));
        assert(rem_trunc(a, b * k) == a % (b * k));
    } else {
        lemma_div_split_pos(-a, b, k);
        lemma_fundamental_div_mod(-a, b * k);
        vstd::arithmetic::div_mod::lemma_div_pos_is_pos(-a, b * k);
        vstd::arithmetic::div_mod::lemma_div_pos_is_pos((-a) % (b * k), b);
        let qp = (-a) / (b * k);
        let rp = (-a) % (b * k);
        assert(div_trunc(a, b * k) == -qp);
        vstd::arithmetic::mul::lemma_mul_is_commutative(b * k, qp);
        assert((-qp) * (b * k) == -(qp * (b * k))) by (nonlinear_arith);
        assert(-a == (b * k) * qp + rp);
        assert(rem_trunc(a, b * k) == -rp);
        assert(div_trunc(-rp, b) == -(rp / b));
        assert((-qp) * k == -(qp * k)) by (nonlinear_arith);
        assert(div_trunc(a, b) == -((-a) / b));
    }
}

/// The non-negative case of [`lemma_div_trunc_split`], over Euclidean
/// division directly.
proof fn lemma_div_split_pos(a: int, b: int, k: int)
    requires
        a >= 0,
        b > 0,
        k > 0,
    ensures
        a / b == (a / (b * k)) * k + (a % (b * k)) / b,
{
    vstd::arithmetic::mul::lemma_mul_strictly_positive(b, k);
    let q = a / (b * k);
    let r = a % (b * k);
    lemma_fundamental_div_mod(a, b * k);
    vstd::arithmetic::div_mod::lemma_div_pos_is_pos(a, b * k);
    lemma_fundamental_div_mod(r, b);
    vstd::arithmetic::div_mod::lemma_div_pos_is_pos(r, b);
    assert(a == (q * k + r / b) * b + r % b) by (nonlinear_arith)
        requires
            a == (b * k) * q + r,
            r == b * (r / b) + r % b,
    ;
    lemma_fundamental_div_mod_converse(a, b, q * k + r / b, r % b);
}

impl TimeDelta {
    /// Returns the total number of whole milliseconds, truncated toward
    /// zero. A `TimeDelta` always fits in `i64` milliseconds, so this cannot
    /// fail.
    pub fn num_milliseconds(self) -> (r: i64)
        requires
            self.wf(),
        ensures
            r == div_trunc(self@, 1_000_000),
    {
        proof {
            lemma_div_trunc_split(self@, 1_000_000, 1000);
            lemma_td_trunc(self);
            lemma_div_trunc_props(rem_trunc(self@, 1_000_000_000), 1_000_000);
        }
        let secs_part = self.num_seconds() * MILLIS_PER_SEC;
        let nanos_part = div_trunc_i64(self.subsec_nanos() as i64, NANOS_PER_MILLI as i64);
        secs_part + nanos_part as i64
    }

    /// Returns the total number of whole microseconds, truncated toward
    /// zero, or [`Error::OutOfRange`] when that count exceeds the `i64`
    /// range.
    pub fn num_microseconds(self) -> (r: Result<i64, Error>)
        requires
            self.wf(),
        ensures
            i64::MIN <= div_trunc(self@, 1000) <= i64::MAX ==> r == Ok::<i64, Error>(
                div_trunc(self@, 1000) as i64,
            ),
            !(i64::MIN <= div_trunc(self@, 1000) <= i64::MAX) ==> r == Err::<i64, Error>(
                Error::OutOfRange,
            ),
    {
        proof {
            lemma_div_trunc_split(self@, 1000, 1_000_000);
            lemma_td_trunc(self);
            lemma_div_trunc_props(self@, 1_000_000_000);
            lemma_div_trunc_props(rem_trunc(self@, 1_000_000_000), 1000);
        }
        let secs = self.num_seconds();
        let secs_part = match secs.checked_mul(MICROS_PER_SEC) {
            Some(p) => p,
            None => {
                return Err(Error::OutOfRange);
            },
        };
        let nanos_part = div_trunc_i64(self.subsec_nanos() as i64, NANOS_PER_MICRO as i64);
        match secs_part.checked_add(nanos_part) {
            Some(r) => Ok(r),
            None => Err(Error::OutOfRange),
        }
    }

    /// Returns the total number of whole nanoseconds, or `None` when that
    /// count exceeds the `i64` range.
    pub fn num_nanoseconds(self) -> (r: Option<i64>)
        requires
            self.wf(),
        ensures
            i64::MIN <= self@ <= i64::MAX ==> r == Some(self@ as i64),
            !(i64::MIN <= self@ <= i64::MAX) ==> r is None,
    {
        proof {
            lemma_td_trunc(self);
            lemma_div_trunc_props(self@, 1_000_000_000);
            lemma_div_trunc_props(rem_trunc(self@, 1_000_000_000), 1);
        }
        let secs = self.num_seconds();
        let secs_part = match secs.checked_mul(NANOS_PER_SEC as i64) {
            Some(p) => p,
            None => {
                return None;
            },
        };
        secs_part.checked_add(self.subsec_nanos() as i64)
    }
}

/// Division of an `i64` by a positive divisor, truncated toward zero.
pub(crate) fn div_trunc_i64(x: i64, d: i64) -> (r: i64)
    requires
        d > 0,
        x > i64::MIN,
    ensures
        r == div_trunc(x as int, d as int),
{
    if x >= 0 {
        let q = (x as u64) / (d as u64);
        proof {
            vstd::arithmetic::div_mod::lemma_div_nonincreasing(x as int, d as int);
            vstd::arithmetic::div_mod::lemma_div_pos_is_pos(x as int, d as int);
        }
        q as i64
    } else {
        let q = ((-x) as u64) / (d as u64);
        proof {
            vstd::arithmetic::div_mod::lemma_div_nonincreasing(-x as int, d as int);
            vstd::arithmetic::div_mod::lemma_div_pos_is_pos(-x as int, d as int);
        }
        -(q as i64)
    }
}

impl Default for TimeDelta {
    /// The default duration has zero length.
    fn default() -> (r: TimeDelta)
        ensures
            r.wf(),
            r@ == 0,
    {
        TimeDelta::zero()
    }
}

/// The whole-second part of a standard-library duration. The pair of this
/// and [`std_duration_subsec_nanos`] determines the duration exactly.
pub uninterp spec fn std_duration_secs(d: core::time::Duration) -> u64;

/// The sub-second nanosecond part of a standard-library duration, always
/// below one second.
pub uninterp spec fn std_duration_subsec_nanos(d: core::time::Duration) -> u32;

/// Relies on `core::time::Duration::new`: with a nanosecond part below one
/// second no carry occurs, and the accessors return the two parts unchanged.
pub assume_specification [ core::time::Duration::new ](secs: u64, nanos: u32) -> (d:
    core::time::Duration)
    requires
        nanos < 1_000_000_000,
    ensures
        std_duration_secs(d) == secs,
        std_duration_subsec_nanos(d) == nanos,
;

/// Relies on `core::time::Duration::as_secs`: returns the whole-second part.
pub assume_specification [ core::time::Duration::as_secs ](d: &core::time::Duration) -> (r: u64)
    ensures
        r == std_duration_secs(*d),
;

/// Relies on `core::time::Duration::subsec_nanos`: returns the fractional
/// part in nanoseconds, which its documentation bounds below one second.
pub assume_specification [ core::time::Duration::subsec_nanos ](d: &core::time::Duration) -> (r:
    u32)
    ensures
        r == std_duration_subsec_nanos(*d),
        r < 1_000_000_000,
;

impl TimeDelta {
    /// Creates a `TimeDelta` from a standard-library duration, which fails
    /// when the source exceeds the maximum representable duration.
    pub fn from_std(duration: core::time::Duration) -> (r: Result<TimeDelta, OutOfRangeError>)
        ensures
            std_duration_secs(duration) * 1_000_000_000 + std_duration_subsec_nanos(duration)
                <= td_max_nanos() ==> (r matches Ok(d) && d.wf() && d@ == std_duration_secs(
                duration,
            ) * 1_000_000_000 + std_duration_subsec_nanos(duration)),
            std_duration_secs(duration) * 1_000_000_000 + std_duration_subsec_nanos(duration)
                > td_max_nanos() ==> r == Err::<TimeDelta, OutOfRangeError>(OutOfRangeError),
    {
        let secs = duration.as_secs();
        if secs > MAX_SECS as u64 {
            return Err(OutOfRangeError);
        }
        match TimeDelta::new(secs as i64, duration.subsec_nanos()) {
            Ok(d) => Ok(d),
            Err(_) => Err(OutOfRangeError),
        }
    }

    /// Converts into a standard-library duration, which fails when this
    /// duration is negative, since the target type is unsigned.
    pub fn to_std(self) -> (r: Result<core::time::Duration, OutOfRangeError>)
        requires
            self.wf(),
        ensures
            self@ < 0 ==> r == Err::<core::time::Duration, OutOfRangeError>(OutOfRangeError),
            self@ >= 0 ==> (r matches Ok(d) && std_duration_secs(d) * 1_000_000_000
                + std_duration_subsec_nanos(d) == self@ && std_duration_subsec_nanos(d)
                < 1_000_000_000),
    {
        if self.secs < 0 {
            return Err(OutOfRangeError);
        }
        Ok(core::time::Duration::new(self.secs as u64, self.nanos as u32))
    }

    /// Multiplies the duration by a 32-bit scalar, returning `None` when the
    /// product would leave the representable range.
    pub fn checked_mul(self, rhs: i32) -> (r: Option<TimeDelta>)
        requires
            self.wf(),
        ensures
            td_min_nanos() <= self@ * rhs <= td_max_nanos() ==> (r matches Some(d) && d.wf()
                && d@ == self@ * rhs),
            !(td_min_nanos() <= self@ * rhs <= td_max_nanos()) ==> r is None,
    {
        // Multiply the nanosecond part in 64 bits, where it cannot overflow.
        proof {
            assert(i64::MIN <= self.nanos * rhs <= i64::MAX) by (nonlinear_arith)
                requires
                    0 <= self.nanos < 1_000_000_000,
                    -0x8000_0000 <= rhs < 0x8000_0000,
            ;
        }
        let total_nanos = self.nanos as i64 * rhs as i64;
        let (extra_secs, nanos) = div_mod_floor_64(total_nanos, NANOS_PER_SEC as i64);
        proof {
            lemma_fundamental_div_mod(total_nanos as int, 1_000_000_000);
            assert((self.secs * rhs) * 1_000_000_000 + self.nanos * rhs == self@ * rhs)
                by (nonlinear_arith);
        }
        let secs_prod = match self.secs.checked_mul(rhs as i64) {
            Some(p) => p,
            None => {
                proof {
                    lemma_mul_out_of_range(self.secs as int, self.nanos as int, rhs as int);
                }
                return None;
            },
        };
        let secs = match secs_prod.checked_add(extra_secs) {
            Some(s) => s,
            None => {
                proof {
                    lemma_mul_carry_out_of_range(
                        self.secs as int,
                        self.nanos as int,
                        rhs as int,
                        extra_secs as int,
                        nanos as int,
                    );
                }
                return None;
            },
        };
        match TimeDelta::new(secs, nanos as u32) {
            Ok(d) => Some(d),
            Err(_) => None,
        }
    }
}

/// When the whole-second product alone overflows `i64`, the full product in
/// nanoseconds is far outside the representable range.
proof fn lemma_mul_out_of_range(s: int, n: int, k: int)
    requires
        0 <= n < 1_000_000_000,
        -0x8000_0000 <= k <= 0x7fff_ffff,
        !(i64::MIN <= s * k <= i64::MAX),
    ensures
        !(td_min_nanos() <= (s * 1_000_000_000 + n) * k <= td_max_nanos()),
{
    assert((s * 1_000_000_000 + n) * k == (s * k) * 1_000_000_000 + n * k) by (nonlinear_arith);
    assert(-1_000_000_000 * 0x8000_0000 <= n * k <= 1_000_000_000 * 0x7fff_ffff)
        by (nonlinear_arith)
        requires
            0 <= n < 1_000_000_000,
            -0x8000_0000 <= k <= 0x7fff_ffff,
    ;
}

/// When the second-plus-carry sum overflows `i64`, the full product in
/// nanoseconds is outside the representable range.
proof fn lemma_mul_carry_out_of_range(s: int, n: int, k: int, extra: int, rem: int)
    requires
        0 <= n < 1_000_000_000,
        n * k == extra * 1_000_000_000 + rem,
        0 <= rem < 1_000_000_000,
        !(i64::MIN <= s * k + extra <= i64::MAX),
    ensures
        !(td_min_nanos() <= (s * 1_000_000_000 + n) * k <= td_max_nanos()),
{
    assert((s * 1_000_000_000 + n) * k == (s * k) * 1_000_000_000 + n * k) by (nonlinear_arith);
    assert((s * k) * 1_000_000_000 + extra * 1_000_000_000 == (s * k + extra) * 1_000_000_000)
        by (nonlinear_arith);
}

/// Signed division truncated toward zero, for a divisor of either sign.
pub open spec fn div_trunc_any(a: int, b: int) -> int
    recommends
        b != 0,
{
    if b >= 0 {
        div_trunc(a, b)
    } else {
        -div_trunc(a, -b)
    }
}

/// The value, in nanoseconds, of dividing a duration of `s` seconds and `n`
/// nanoseconds by the scalar `k`: the whole-second quotient, the seconds
/// remainder scaled into nanoseconds and divided, and the nanosecond part
/// divided, each truncated toward zero.
pub open spec fn td_div_value(s: int, n: int, k: int) -> int
    recommends
        k != 0,
{
    let q = div_trunc_any(s, k);
    let c = s - q * k;
    q * 1_000_000_000 + div_trunc_any(c * 1_000_000_000, k) + div_trunc_any(n, k)
}

/// Facts about the componentwise truncated division of a duration by a
/// scalar: the whole-second quotient shrinks, the carry stays below the
/// divisor, and the two fractional quotients stay below one second together.
#[verifier::rlimit(100)]
#[verifier::spinoff_prover]
proof fn lemma_trunc_core(s: int, n: int, k: int)
    requires
        k != 0,
        0 <= n < 1_000_000_000,
    ensures
        ({
            let q = div_trunc_any(s, k);
            let c = s - q * k;
            let e = div_trunc_any(c * 1_000_000_000, k);
            let p = div_trunc_any(n, k);
            &&& absi(q) == absi(s) / absi(k) <= absi(s)
            &&& absi(q * k) <= absi(s)
            &&& absi(c) < absi(k)
            &&& absi(e) + absi(p) < 1_000_000_000
            &&& (k == 1 ==> q == s && c == 0 && e == 0 && p == n)
            &&& (k == -1 ==> q == -s && c == 0 && e == 0 && p == -n)
        }),
{
    let sa = absi(s);
    let kb = absi(k);
    let qa = sa / kb;
    lemma_fundamental_div_mod(sa, kb);
    vstd::arithmetic::div_mod::lemma_mod_division_less_than_divisor(sa, kb);
    vstd::arithmetic::div_mod::lemma_div_pos_is_pos(sa, kb);
    vstd::arithmetic::div_mod::lemma_div_nonincreasing(sa, kb);
    let q = div_trunc_any(s, k);
    assert(qa * kb == sa - sa % kb) by (nonlinear_arith)
        requires
            sa == kb * qa + sa % kb,
    ;
    assert(q * k == if s >= 0 {
        qa * kb
    } else {
        -(qa * kb)
    }) by (nonlinear_arith)
        requires
            q == if (s >= 0) == (k > 0) {
                qa
            } else {
                -qa
            },
            kb == if k > 0 {
                k
            } else {
                -k
            },
    ;
    let c = s - q * k;
    assert(absi(c) == sa % kb);
    let ca = absi(c);
    assert(c * 1_000_000_000 == if c >= 0 {
        ca * 1_000_000_000
    } else {
        -(ca * 1_000_000_000)
    }) by (nonlinear_arith)
        requires
            ca == if c >= 0 {
                c
            } else {
                -c
            },
    ;
    let e = div_trunc_any(c * 1_000_000_000, k);
    let ea = (ca * 1_000_000_000) / kb;
    vstd::arithmetic::mul::lemma_mul_nonnegative(ca, 1_000_000_000);
    vstd::arithmetic::div_mod::lemma_div_pos_is_pos(ca * 1_000_000_000, kb);
    assert(absi(e) == ea);
    let p = div_trunc_any(n, k);
    let pa = n / kb;
    vstd::arithmetic::div_mod::lemma_div_pos_is_pos(n, kb);
    assert(absi(p) == pa);
    assert(ea + pa < 1_000_000_000) by {
        assert(ca * 1_000_000_000 <= (kb - 1) * 1_000_000_000) by (nonlinear_arith)
            requires
                ca <= kb - 1,
        ;
        vstd::arithmetic::div_mod::lemma_div_is_ordered(
            ca * 1_000_000_000,
            (kb - 1) * 1_000_000_000,
            kb,
        );
        vstd::arithmetic::div_mod::lemma_div_is_ordered(n, 999_999_999, kb);
        lemma_div_sum_le((kb - 1) * 1_000_000_000, 999_999_999, kb);
        assert((kb - 1) * 1_000_000_000 + 999_999_999 == kb * 999_999_999 + (kb - 1))
            by (nonlinear_arith);
        lemma_fundamental_div_mod_converse(
            kb * 999_999_999 + (kb - 1),
            kb,
            999_999_999,
            kb - 1,
        );
    }
    if k == 1 || k == -1 {
        assert(qa == sa) by {
            vstd::arithmetic::div_mod::lemma_div_by_self(1);
            assert(sa == 1 * qa + sa % 1) by (nonlinear_arith)
                requires
                    sa == kb * qa + sa % kb,
                    kb == 1,
            ;
            lemma_fundamental_div_mod_converse(sa, 1, sa, 0);
        }
        assert(ca * 1_000_000_000 == 0) by (nonlinear_arith)
            requires
                ca == 0,
        ;
        lemma_fundamental_div_mod_converse(n, 1, n, 0);
        lemma_fundamental_div_mod_converse(0, 1, 0, 0);
    }
}

/// For non-negative operands, the sum of two quotients never exceeds the
/// quotient of the sum, and falls short of it by at most one.
proof fn lemma_div_sum_le(x: int, y: int, d: int)
    requires
        x >= 0,
        y >= 0,
        d > 0,
    ensures
        x / d + y / d <= (x + y) / d,
        (x + y) / d <= x / d + y / d + 1,
{
    lemma_fundamental_div_mod(x, d);
    lemma_fundamental_div_mod(y, d);
    vstd::arithmetic::div_mod::lemma_mod_division_less_than_divisor(x, d);
    vstd::arithmetic::div_mod::lemma_mod_division_less_than_divisor(y, d);
    let rx = x % d;
    let ry = y % d;
    if rx + ry < d {
        assert(x + y == (x / d + y / d) * d + (rx + ry)) by (nonlinear_arith)
            requires
                x == d * (x / d) + rx,
                y == d * (y / d) + ry,
        ;
        lemma_fundamental_div_mod_converse(x + y, d, x / d + y / d, rx + ry);
    } else {
        assert(x + y == (x / d + y / d + 1) * d + (rx + ry - d)) by (nonlinear_arith)
            requires
                x == d * (x / d) + rx,
                y == d * (y / d) + ry,
        ;
        lemma_fundamental_div_mod_converse(x + y, d, x / d + y / d + 1, rx + ry - d);
    }
}

/// Division of an `i64` by a nonzero divisor of either sign, truncated
/// toward zero.
fn div_trunc_any_i64(x: i64, k: i64) -> (r: i64)
    requires
        k != 0,
        k > i64::MIN,
        x > i64::MIN,
    ensures
        r == div_trunc_any(x as int, k as int),
{
    if k > 0 {
        div_trunc_i64(x, k)
    } else {
        -div_trunc_i64(x, -k)
    }
}

impl TimeDelta {
    /// Divides the duration by a 32-bit scalar, truncating each of the
    /// whole-second, carried and sub-second components toward zero at
    /// nanosecond precision; fails only for a zero divisor.
    pub fn checked_div(self, rhs: i32) -> (r: Option<TimeDelta>)
        requires
            self.wf(),
        ensures
            rhs == 0 ==> r is None,
            rhs != 0 ==> (r matches Some(d) && d.wf() && d@ == td_div_value(
                self.secs as int,
                self.nanos as int,
                rhs as int,
            )),
    {
        if rhs == 0 {
            return None;
        }
        let k = rhs as i64;
        proof {
            lemma_trunc_core(self.secs as int, self.nanos as int, k as int);
            lemma_td_div_in_range(self.secs as int, self.nanos as int, k as int);
        }
        let q = div_trunc_any_i64(self.secs, k);
        let c = self.secs - q * k;
        let extra = div_trunc_any_i64(c * NANOS_PER_SEC as i64, k);
        let part = div_trunc_any_i64(self.nanos as i64, k);
        let mut secs = q;
        let mut nanos = part + extra;
        if nanos >= NANOS_PER_SEC as i64 {
            nanos -= NANOS_PER_SEC as i64;
            secs += 1;
        } else if nanos < 0 {
            nanos += NANOS_PER_SEC as i64;
            secs -= 1;
        }
        Some(TimeDelta { secs, nanos: nanos as i32 })
    }
}

/// The componentwise-truncated quotient of a well-formed duration stays
/// within the representable range.
proof fn lemma_td_div_in_range(s: int, n: int, k: int)
    requires
        k != 0,
        -0x8000_0000 <= k <= 0x7fff_ffff,
        0 <= n < 1_000_000_000,
        td_min_nanos() <= s * 1_000_000_000 + n <= td_max_nanos(),
    ensures
        td_min_nanos() <= td_div_value(s, n, k) <= td_max_nanos(),
{
    lemma_trunc_core(s, n, k);
    let q = div_trunc_any(s, k);
    let c = s - q * k;
    let e = div_trunc_any(c * 1_000_000_000, k);
    let p = div_trunc_any(n, k);
    if k == 1 {
        assert(td_div_value(s, n, k) == s * 1_000_000_000 + n);
    } else if k == -1 {
        assert(td_div_value(s, n, k) == -(s * 1_000_000_000) - n);
    } else {
        let sa = absi(s);
        let kb = absi(k);
        assert(absi(s) <= 9_223_372_036_854_776_000) by (nonlinear_arith)
            requires
                -9_223_372_036_854_775_807_000_000int <= s * 1_000_000_000 + n
                    <= 9_223_372_036_854_775_807_000_000int,
                0 <= n < 1_000_000_000,
        ;
        vstd::arithmetic::div_mod::lemma_div_is_ordered_by_denominator(sa, 2, kb);
        vstd::arithmetic::div_mod::lemma_div_is_ordered(sa, 9_223_372_036_854_776_000, 2);
        assert(absi(q) <= 4_611_686_018_427_388_000);
        assert(absi(q * 1_000_000_000) <= 4_611_686_018_427_388_000_000_000_000)
            by (nonlinear_arith)
            requires
                absi(q) <= 4_611_686_018_427_388_000,
        ;
    }
}

/// The character for a single decimal digit.
pub open spec fn digit_char(d: int) -> char {
    if d == 0 {
        '0'
    } else if d == 1 {
        '1'
    } else if d == 2 {
        '2'
    } else if d == 3 {
        '3'
    } else if d == 4 {
        '4'
    } else if d == 5 {
        '5'
    } else if d == 6 {
        '6'
    } else if d == 7 {
        '7'
    } else if d == 8 {
        '8'
    } else {
        '9'
    }
}

/// The decimal digits of a non-negative number, most significant first and
/// without leading zeros.
pub open spec fn dec_digits(n: int) -> Seq<char>
    recommends
        n >= 0,
    decreases n,
{
    if n < 10 {
        seq![digit_char(n)]
    } else {
        dec_digits(n / 10) + seq![digit_char(n % 10)]
    }
}

/// A run of `k` zero characters.
pub open spec fn zeros_seq(k: int) -> Seq<char>
    decreases k,
{
    if k <= 0 {
        Seq::empty()
    } else {
        zeros_seq(k - 1) + seq!['0']
    }
}

/// Ten to the power `e`.
pub open spec fn pow10(e: int) -> int
    decreases e,
{
    if e <= 0 {
        1
    } else {
        10 * pow10(e - 1)
    }
}

/// Strips trailing zero digits from a fraction of `figs` significant
/// figures, keeping at least one digit: the pair of the remaining digits and
/// the remaining figure count.
pub open spec fn strip_trailing_zeros(n: int, figs: int) -> (int, int)
    decreases figs,
{
    if figs <= 1 || n % 10 != 0 {
        (n, figs)
    } else {
        strip_trailing_zeros(n / 10, figs - 1)
    }
}

/// The shortest decimal rendering of a nanosecond fraction: nine figures
/// with trailing zeros removed, padded with leading zeros to the remaining
/// width.
pub open spec fn frac_str(n: int) -> Seq<char> {
    let (f, w) = strip_trailing_zeros(n, 9);
    zeros_seq(w - dec_digits(f).len()) + dec_digits(f)
}

/// The ISO 8601 rendering of a duration of `v` nanoseconds: a sign for
/// negative durations, `P0D` for zero, and otherwise `PT<secs>[.<frac>]S`
/// with the shortest exact fraction.
pub open spec fn iso8601_str(v: int) -> Seq<char> {
    if v == 0 {
        seq!['P', '0', 'D']
    } else {
        let sign: Seq<char> = if v < 0 {
            seq!['-']
        } else {
            Seq::empty()
        };
        let a = if v < 0 {
            -v
        } else {
            v
        };
        let frac: Seq<char> = if a % 1_000_000_000 == 0 {
            Seq::empty()
        } else {
            seq!['.'] + frac_str(a % 1_000_000_000)
        };
        sign + seq!['P', 'T'] + dec_digits(a / 1_000_000_000) + frac + seq!['S']
    }
}

/// Appends one decimal digit character.
fn push_digit(s: &mut String, d: u64)
    requires
        d < 10,
    ensures
        final(s)@ == old(s)@ + seq![digit_char(d as int)],
{
    if d == 0 {
        s.append("0");
        proof {
            reveal_strlit("0");
            assert(s@ =~= old(s)@ + seq![digit_char(d as int)]);
        }
    } else if d == 1 {
        s.append("1");
        proof {
            reveal_strlit("1");
            assert(s@ =~= old(s)@ + seq![digit_char(d as int)]);
        }
    } else if d == 2 {
        s.append("2");
        proof {
            reveal_strlit("2");
            assert(s@ =~= old(s)@ + seq![digit_char(d as int)]);
        }
    } else if d == 3 {
        s.append("3");
        proof {
            reveal_strlit("3");
            assert(s@ =~= old(s)@ + seq![digit_char(d as int)]);
        }
    } else if d == 4 {
        s.append("4");
        proof {
            reveal_strlit("4");
            assert(s@ =~= old(s)@ + seq![digit_char(d as int)]);
        }
    } else if d == 5 {
        s.append("5");
        proof {
            reveal_strlit("5");
            assert(s@ =~= old(s)@ + seq![digit_char(d as int)]);
        }
    } else if d == 6 {
        s.append("6");
        proof {
            reveal_strlit("6");
            assert(s@ =~= old(s)@ + seq![digit_char(d as int)]);
        }
    } else if d == 7 {
        s.append("7");
        proof {
            reveal_strlit("7");
            assert(s@ =~= old(s)@ + seq![digit_char(d as int)]);
        }
    } else if d == 8 {
        s.append("8");
        proof {
            reveal_strlit("8");
            assert(s@ =~= old(s)@ + seq![digit_char(d as int)]);
        }
    } else {
        s.append("9");
        proof {
            reveal_strlit("9");
            assert(s@ =~= old(s)@ + seq![digit_char(d as int)]);
        }
    }
}

/// Appends the decimal digits of `n`, most significant first.
fn push_dec(s: &mut String, n: u64)
    ensures
        final(s)@ == old(s)@ + dec_digits(n as int),
    decreases n,
{
    if n < 10 {
        push_digit(s, n);
    } else {
        push_dec(s, n / 10);
        push_digit(s, n % 10);
        proof {
            assert(s@ =~= old(s)@ + dec_digits(n as int));
        }
    }
}

/// Appends `k` zero characters.
fn push_zeros(s: &mut String, k: u32)
    ensures
        final(s)@ == old(s)@ + zeros_seq(k as int),
    decreases k,
{
    if k > 0 {
        push_zeros(s, k - 1);
        s.append("0");
        proof {
            reveal_strlit("0");
            assert(s@ =~= old(s)@ + zeros_seq(k as int));
        }
    } else {
        proof {
            assert(s@ =~= old(s)@ + zeros_seq(0));
        }
    }
}

/// Counts the decimal digits of a number below ten billion.
fn num_digits_u32(n: u32) -> (r: u32)
    ensures
        r == dec_digits(n as int).len(),
    decreases n,
{
    if n < 10 {
        1
    } else {
        proof {
            lemma_pow10_10();
            vstd::arithmetic::div_mod::lemma_div_nonincreasing(n as int, 10);
            vstd::arithmetic::div_mod::lemma_div_pos_is_pos(n as int, 10);
            lemma_dec_digits_len_le(n as int / 10, 10);
        }
        1 + num_digits_u32(n / 10)
    }
}

/// Ten to the tenth power, spelled out for the solver.
proof fn lemma_pow10_10()
    ensures
        pow10(9) == 1_000_000_000,
        pow10(10) == 10_000_000_000,
{
    reveal_with_fuel(pow10, 11);
}

/// A number below `pow10(e)` has at most `e` decimal digits.
proof fn lemma_dec_digits_len_le(n: int, e: int)
    requires
        0 <= n < pow10(e),
        e >= 1,
    ensures
        1 <= dec_digits(n).len() <= e,
    decreases e,
{
    if n < 10 {
    } else {
        assert(pow10(e) == 10 * pow10(e - 1));
        assert(e >= 2) by {
            if e == 1 {
                assert(pow10(1) == 10) by {
                    reveal_with_fuel(pow10, 2);
                }
            }
        }
        assert(n / 10 < pow10(e - 1)) by {
            vstd::arithmetic::div_mod::lemma_fundamental_div_mod(n, 10);
            vstd::arithmetic::div_mod::lemma_mod_division_less_than_divisor(n, 10);
        }
        lemma_dec_digits_len_le(n / 10, e - 1);
    }
}

/// Stripping trailing zeros keeps the digits within the remaining width.
proof fn lemma_strip_bound(n: int, figs: int)
    requires
        0 <= n < pow10(figs),
        figs >= 1,
    ensures
        ({
            let (f, w) = strip_trailing_zeros(n, figs);
            &&& 0 <= f < pow10(w)
            &&& 1 <= w <= figs
        }),
    decreases figs,
{
    if figs <= 1 || n % 10 != 0 {
    } else {
        assert(pow10(figs) == 10 * pow10(figs - 1));
        assert(n / 10 < pow10(figs - 1)) by {
            vstd::arithmetic::div_mod::lemma_fundamental_div_mod(n, 10);
            vstd::arithmetic::div_mod::lemma_mod_division_less_than_divisor(n, 10);
        }
        vstd::arithmetic::div_mod::lemma_div_pos_is_pos(n, 10);
        lemma_strip_bound(n / 10, figs - 1);
    }
}

/// Strips trailing zero digits from a nanosecond fraction of `figs`
/// significant figures, keeping at least one digit.
fn strip_zeros(n: u32, figs: u32) -> (r: (u32, u32))
    requires
        figs >= 1,
    ensures
        (r.0 as int, r.1 as int) == strip_trailing_zeros(n as int, figs as int),
    decreases figs,
{
    if figs <= 1 || n % 10 != 0 {
        (n, figs)
    } else {
        strip_zeros(n / 10, figs - 1)
    }
}

impl TimeDelta {
    /// Renders the duration in the ISO 8601 duration format: `P0D` for the
    /// zero duration, otherwise `[-]PT<secs>[.<frac>]S` where the fraction
    /// holds the fewest digits that are exact.
    pub fn to_iso8601(self) -> (r: String)
        requires
            self.wf(),
        ensures
            r@ == iso8601_str(self@),
    {
        let (asecs, ananos) = if self.secs < 0 && self.nanos != 0 {
            (-(self.secs + 1), NANOS_PER_SEC - self.nanos)
        } else if self.secs < 0 {
            (-self.secs, self.nanos)
        } else {
            (self.secs, self.nanos)
        };
        let ghost a: int = if self@ < 0 {
            -self@
        } else {
            self@
        };
        proof {
            lemma_fundamental_div_mod_converse(a, 1_000_000_000, asecs as int, ananos as int);
        }
        let mut s = String::new();
        if self.secs < 0 {
            s.append("-");
        }
        s.append("P");
        if asecs == 0 && ananos == 0 {
            s.append("0D");
            proof {
                reveal_strlit("-");
                reveal_strlit("P");
                reveal_strlit("0D");
                assert(s@ =~= iso8601_str(self@));
            }
            return s;
        }
        s.append("T");
        push_dec(&mut s, asecs as u64);
        if ananos > 0 {
            s.append(".");
            let (f, figs) = strip_zeros(ananos as u32, 9);
            proof {
                lemma_pow10_10();
                lemma_strip_bound(ananos as int, 9);
                lemma_dec_digits_len_le(f as int, figs as int);
            }
            let nd = num_digits_u32(f);
            push_zeros(&mut s, figs - nd);
            push_dec(&mut s, f as u64);
        }
        s.append("S");
        proof {
            reveal_strlit("-");
            reveal_strlit("P");
            reveal_strlit("T");
            reveal_strlit(".");
            reveal_strlit("S");
            assert(s@ =~= iso8601_str(self@));
        }
        s
    }
}

/// Law: a duration built from any in-range seconds and nanoseconds pair is
/// reconstructed exactly by the truncating accessors: the whole seconds and
/// the signed nanosecond remainder they return always recombine into the
/// original pair, and coincide with it directly for non-negative durations.
pub proof fn lemma_new_round_trip(secs: i64, nanos: u32, d: TimeDelta)
    requires
        nanos < 1_000_000_000,
        td_min_nanos() <= secs * 1_000_000_000 + nanos <= td_max_nanos(),
        d.wf(),
        d@ == secs * 1_000_000_000 + nanos,
    ensures
        div_trunc(d@, 1_000_000_000) * 1_000_000_000 + rem_trunc(d@, 1_000_000_000) == secs
            * 1_000_000_000 + nanos,
        secs >= 0 ==> div_trunc(d@, 1_000_000_000) == secs && rem_trunc(d@, 1_000_000_000)
            == nanos,
        secs < 0 && nanos > 0 ==> div_trunc(d@, 1_000_000_000) == secs + 1 && rem_trunc(
            d@,
            1_000_000_000,
        ) == nanos - 1_000_000_000,
        secs < 0 && nanos == 0 ==> div_trunc(d@, 1_000_000_000) == secs && rem_trunc(
            d@,
            1_000_000_000,
        ) == 0,
{
    if secs >= 0 {
        lemma_fundamental_div_mod_converse(d@, 1_000_000_000, secs as int, nanos as int);
    } else if nanos == 0 {
        lemma_fundamental_div_mod_converse(-d@, 1_000_000_000, -(secs as int), 0);
    } else {
        lemma_fundamental_div_mod_converse(
            -d@,
            1_000_000_000,
            -(secs as int) - 1,
            1_000_000_000 - nanos,
        );
    }
}

/// Law: negation is an involution. Any duration meeting the negation
/// contract twice over returns the original value, field for field.
pub proof fn lemma_neg_involution(d: TimeDelta, n1: TimeDelta, n2: TimeDelta)
    requires
        d.wf(),
        n1.wf(),
        n2.wf(),
        n1@ == -d@,
        n2@ == -n1@,
    ensures
        n2 == d,
{
    lemma_timedelta_view_injective(n2, d);
}

/// Law: a duration and its negation have the same absolute value. Any two
/// durations meeting the absolute-value contract for a value and for its
/// negation are equal, field for field.
pub proof fn lemma_abs_neg_abs(d: TimeDelta, n: TimeDelta, a1: TimeDelta, a2: TimeDelta)
    requires
        d.wf(),
        n.wf(),
        a1.wf(),
        a2.wf(),
        n@ == -d@,
        a1@ == absi(d@),
        a2@ == absi(n@),
    ensures
        a1 == a2,
{
    lemma_timedelta_view_injective(a1, a2);
}

/// Two well-formed durations of the same length are the same value: the
/// normalized representation is unique.
pub proof fn lemma_timedelta_view_injective(a: TimeDelta, b: TimeDelta)
    requires
        a.wf(),
        b.wf(),
        a@ == b@,
    ensures
        a == b,
{
    lemma_fundamental_div_mod_converse(a@, 1_000_000_000, a.secs as int, a.nanos as int);
    lemma_fundamental_div_mod_converse(b@, 1_000_000_000, b.secs as int, b.nanos as int);
}

} // verus!
