//! Proleptic Gregorian calendar dates.

use vstd::arithmetic::div_mod::{
    lemma_fundamental_div_mod, lemma_fundamental_div_mod_converse, lemma_hoist_over_denominator,
    lemma_mod_add_multiples_vanish,
};
use vstd::prelude::*;

use crate::Error;

verus! {

/// The smallest year a [`NaiveDate`] can hold.
pub const MIN_YEAR: i32 = -262143;

/// The largest year a [`NaiveDate`] can hold.
pub const MAX_YEAR: i32 = 262142;

/// A shift that makes every in-range year non-negative while preserving the
/// leap-year pattern: a multiple of 400 larger than `-MIN_YEAR`.
pub const YEAR_SHIFT: i64 = 262_400;

/// The day number of year zero under the shifted formula; subtracting it
/// anchors day zero at the first of January of year zero.
pub const SHIFT_DAYS: i64 = 95_839_632;

/// Whether `y` is a leap year in the proleptic Gregorian calendar: divisible
/// by four, except centuries, which must be divisible by four hundred.
pub open spec fn is_leap_year(y: int) -> bool {
    (y % 4 == 0 && y % 100 != 0) || y % 400 == 0
}

/// The number of days in year `y`.
pub open spec fn days_in_year(y: int) -> int {
    if is_leap_year(y) {
        366
    } else {
        365
    }
}

/// The number of days from the first of January of year zero up to the first
/// of January of year `y` (negative for earlier years): 365 days per year
/// plus one for every leap year in between.
pub open spec fn days_before_year(y: int) -> int {
    365 * y + (y + 3) / 4 - (y + 99) / 100 + (y + 399) / 400
}

/// The number of days in month `m` of year `y`.
pub open spec fn days_in_month(y: int, m: int) -> int
    recommends
        1 <= m <= 12,
{
    if m == 2 {
        if is_leap_year(y) {
            29
        } else {
            28
        }
    } else if m == 4 || m == 6 || m == 9 || m == 11 {
        30
    } else {
        31
    }
}

/// The number of days in year `y` before the first of month `m`.
pub open spec fn days_before_month(y: int, m: int) -> int
    recommends
        1 <= m <= 12,
{
    let leap: int = if is_leap_year(y) {
        1
    } else {
        0
    };
    if m <= 1 {
        0
    } else if m == 2 {
        31
    } else if m == 3 {
        59 + leap
    } else if m == 4 {
        90 + leap
    } else if m == 5 {
        120 + leap
    } else if m == 6 {
        151 + leap
    } else if m == 7 {
        181 + leap
    } else if m == 8 {
        212 + leap
    } else if m == 9 {
        243 + leap
    } else if m == 10 {
        273 + leap
    } else if m == 11 {
        304 + leap
    } else {
        334 + leap
    }
}

/// Incrementing the numerator moves a quotient up exactly at multiples of
/// the divisor.
proof fn lemma_div_step_one(a: int, d: int)
    requires
        d > 0,
    ensures
        (a + 1) % d == if a % d == d - 1 {
            0int
        } else {
            a % d + 1
        },
        (a + 1) / d == if a % d == d - 1 {
            a / d + 1
        } else {
            a / d
        },
{
    lemma_fundamental_div_mod(a, d);
    vstd::arithmetic::div_mod::lemma_mod_division_less_than_divisor(a, d);
    if a % d == d - 1 {
        assert(a + 1 == (a / d + 1) * d + 0) by (nonlinear_arith)
            requires
                a == d * (a / d) + (d - 1),
        ;
        lemma_fundamental_div_mod_converse(a + 1, d, a / d + 1, 0);
    } else {
        assert(a + 1 == (a / d) * d + (a % d + 1)) by (nonlinear_arith)
            requires
                a == d * (a / d) + a % d,
        ;
        lemma_fundamental_div_mod_converse(a + 1, d, a / d, a % d + 1);
    }
}

/// Stepping one year forward adds exactly the length of the year stepped
/// over.
pub proof fn lemma_days_before_year_step(y: int)
    ensures
        days_before_year(y + 1) == days_before_year(y) + days_in_year(y),
{
    lemma_div_step_one(y + 3, 4);
    lemma_div_step_one(y + 99, 100);
    lemma_div_step_one(y + 399, 400);
    lemma_mod_add_multiples_vanish(y + 3, 4);
    assert((y + 3) % 4 == (y + 3 + 4) % 4 == ((y + 3) + 4) % 4);
    lemma_mod_add_multiples_vanish(y + 99, 100);
    lemma_mod_add_multiples_vanish(y + 399, 400);
    assert((y + 3) % 4 == 3 <==> y % 4 == 0) by {
        lemma_div_step_chain(y, 4, 3);
    }
    assert((y + 99) % 100 == 99 <==> y % 100 == 0) by {
        lemma_div_step_chain(y, 100, 99);
    }
    assert((y + 399) % 400 == 399 <==> y % 400 == 0) by {
        lemma_div_step_chain(y, 400, 399);
    }
}

/// Relates `(y + (d - 1)) % d` to `y % d`: the former reaches `d - 1`
/// exactly when `y` is a multiple of `d`.
proof fn lemma_div_step_chain(y: int, d: int, k: int)
    requires
        d > 0,
        k == d - 1,
    ensures
        (y + k) % d == d - 1 <==> y % d == 0,
{
    lemma_fundamental_div_mod(y, d);
    vstd::arithmetic::div_mod::lemma_mod_division_less_than_divisor(y, d);
    if y % d == 0 {
        assert(y + k == (y / d) * d + (d - 1)) by (nonlinear_arith)
            requires
                y == d * (y / d),
                k == d - 1,
        ;
        lemma_fundamental_div_mod_converse(y + k, d, y / d, d - 1);
    } else {
        assert(y + k == (y / d + 1) * d + (y % d - 1)) by (nonlinear_arith)
            requires
                y == d * (y / d) + y % d,
                k == d - 1,
        ;
        lemma_fundamental_div_mod_converse(y + k, d, y / d + 1, y % d - 1);
    }
}

/// The day-number formula is strictly increasing in the year: each year
/// contributes at least 365 days.
pub proof fn lemma_days_before_year_mono(y1: int, y2: int)
    requires
        y1 <= y2,
    ensures
        days_before_year(y1) + 365 * (y2 - y1) <= days_before_year(y2),
        days_before_year(y2) <= days_before_year(y1) + 366 * (y2 - y1),
    decreases y2 - y1,
{
    if y1 < y2 {
        lemma_days_before_year_mono(y1, y2 - 1);
        lemma_days_before_year_step(y2 - 1);
    }
}

/// The shifted-years leap pattern matches the unshifted one.
proof fn lemma_is_leap_shift(y: int)
    ensures
        is_leap_year(y + YEAR_SHIFT) == is_leap_year(y),
{
    lemma_mod_add_multiples_vanish_k(y, 4, 65_600);
    lemma_mod_add_multiples_vanish_k(y, 100, 2_624);
    lemma_mod_add_multiples_vanish_k(y, 400, 656);
}

/// Adding a multiple of the divisor leaves a remainder unchanged.
proof fn lemma_mod_add_multiples_vanish_k(x: int, d: int, k: int)
    requires
        d > 0,
        k >= 0,
    ensures
        (x + k * d) % d == x % d,
    decreases k,
{
    if k > 0 {
        lemma_mod_add_multiples_vanish_k(x, d, k - 1);
        lemma_mod_add_multiples_vanish(x + (k - 1) * d, d);
        assert(x + k * d == (x + (k - 1) * d) + d) by (nonlinear_arith);
    } else {
        assert(k * d == 0) by (nonlinear_arith)
            requires
                k == 0,
        ;
    }
}

/// Whether year `y` is a leap year.
fn is_leap_year_exec(y: i32) -> (r: bool)
    requires
        y >= -262_400,
    ensures
        r == is_leap_year(y as int),
{
    let ys = (y as i64 + YEAR_SHIFT) as u64;
    proof {
        lemma_is_leap_shift(y as int);
    }
    (ys % 4 == 0 && ys % 100 != 0) || ys % 400 == 0
}

/// The number of days from the first of January of year zero up to the
/// first of January of year `y`, negative for earlier years.
fn days_before_year_i64(y: i64) -> (r: i64)
    requires
        -262_400 <= y <= 262_400,
    ensures
        r == days_before_year(y as int),
{
    let ys = (y + YEAR_SHIFT) as u64;
    let total = 365 * ys + (ys + 3) / 4 - (ys + 99) / 100 + (ys + 399) / 400;
    proof {
        lemma_hoist_over_denominator(y as int + 3, 65_600, 4nat);
        lemma_hoist_over_denominator(y as int + 99, 2_624, 100nat);
        lemma_hoist_over_denominator(y as int + 399, 656, 400nat);
        vstd::arithmetic::div_mod::lemma_div_pos_is_pos(ys as int + 3, 4);
        vstd::arithmetic::div_mod::lemma_div_pos_is_pos(ys as int + 99, 100);
        vstd::arithmetic::div_mod::lemma_div_pos_is_pos(ys as int + 399, 400);
        vstd::arithmetic::div_mod::lemma_div_nonincreasing(ys as int + 3, 4);
        vstd::arithmetic::div_mod::lemma_div_nonincreasing(ys as int + 99, 100);
        vstd::arithmetic::div_mod::lemma_div_nonincreasing(ys as int + 399, 400);
    }
    total as i64 - SHIFT_DAYS
}

/// The number of days in month `m` of year `y`.
fn days_in_month_exec(y: i32, m: u32) -> (r: u32)
    requires
        y >= -262_400,
        1 <= m <= 12,
    ensures
        r == days_in_month(y as int, m as int),
{
    if m == 2 {
        if is_leap_year_exec(y) {
            29
        } else {
            28
        }
    } else if m == 4 || m == 6 || m == 9 || m == 11 {
        30
    } else {
        31
    }
}

/// The number of days in year `y` before the first of month `m`.
fn days_before_month_exec(y: i32, m: u32) -> (r: u32)
    requires
        y >= -262_400,
        1 <= m <= 12,
    ensures
        r == days_before_month(y as int, m as int),
{
    let leap: u32 = if m > 2 && is_leap_year_exec(y) {
        1
    } else {
        0
    };
    let base: u32 = if m == 1 {
        0
    } else if m == 2 {
        31
    } else if m == 3 {
        59
    } else if m == 4 {
        90
    } else if m == 5 {
        120
    } else if m == 6 {
        151
    } else if m == 7 {
        181
    } else if m == 8 {
        212
    } else if m == 9 {
        243
    } else if m == 10 {
        273
    } else if m == 11 {
        304
    } else {
        334
    };
    base + leap
}

/// ISO 8601 calendar date without timezone: a proleptic Gregorian year,
/// month and day of month.
#[derive(PartialEq, Eq, Hash, PartialOrd, Ord, Copy, Clone, Debug, Structural)]
pub struct NaiveDate {
    /// The year, which may be negative (proleptic).
    pub year: i32,
    /// The month of the year, from 1 to 12.
    pub month: u32,
    /// The day of the month, from 1 to the month's length.
    pub day: u32,
}

impl NaiveDate {
    /// The representation invariant: the year lies in the supported range
    /// and the month and day denote an existing calendar day.
    pub open spec fn wf(self) -> bool {
        &&& MIN_YEAR <= self.year <= MAX_YEAR
        &&& 1 <= self.month <= 12
        &&& 1 <= self.day <= days_in_month(self.year as int, self.month as int)
    }

    /// The date as a day number: the count of days since the first of
    /// January of year zero, negative for earlier days.
    pub open spec fn value(self) -> int {
        days_before_year(self.year as int) + days_before_month(
            self.year as int,
            self.month as int,
        ) + self.day - 1
    }

    /// The marker one day before the smallest date, used only while
    /// converting between timezones.
    pub open spec fn is_before_min(self) -> bool {
        self.year == MIN_YEAR - 1 && self.month == 12 && self.day == 31
    }

    /// The marker one day past the largest date, used only while converting
    /// between timezones.
    pub open spec fn is_after_max(self) -> bool {
        self.year == MAX_YEAR + 1 && self.month == 1 && self.day == 1
    }

    /// Makes a new date from a calendar year, month and day.
    ///
    /// Fails with [`Error::OutOfRange`] when the year lies outside the
    /// supported range, with [`Error::InvalidArgument`] when the month or
    /// day lies outside its nominal range, and with [`Error::DoesNotExist`]
    /// when the day does not exist in the month.
    pub fn from_ymd(year: i32, month: u32, day: u32) -> (r: Result<NaiveDate, Error>)
        ensures
            !(MIN_YEAR <= year <= MAX_YEAR) ==> r == Err::<NaiveDate, Error>(Error::OutOfRange),
            MIN_YEAR <= year <= MAX_YEAR && !(1 <= month <= 12 && 1 <= day <= 31) ==> r == Err::<
                NaiveDate,
                Error,
            >(Error::InvalidArgument),
            MIN_YEAR <= year <= MAX_YEAR && 1 <= month <= 12 && 1 <= day <= 31 && day
                > days_in_month(year as int, month as int) ==> r == Err::<NaiveDate, Error>(
                Error::DoesNotExist,
            ),
            MIN_YEAR <= year <= MAX_YEAR && 1 <= month <= 12 && 1 <= day <= days_in_month(
                year as int,
                month as int,
            ) ==> (r matches Ok(d) && d.wf() && d.year == year && d.month == month && d.day
                == day),
    {
        if year < MIN_YEAR || year > MAX_YEAR {
            return Err(Error::OutOfRange);
        }
        if month < 1 || month > 12 || day < 1 || day > 31 {
            return Err(Error::InvalidArgument);
        }
        if day > days_in_month_exec(year, month) {
            return Err(Error::DoesNotExist);
        }
        Ok(NaiveDate { year, month, day })
    }

    /// Makes a new date from a calendar year and a day of year starting
    /// from 1.
    ///
    /// Fails with [`Error::OutOfRange`] when the year lies outside the
    /// supported range, and with [`Error::DoesNotExist`] when the ordinal is
    /// zero or exceeds the number of days in the year.
    pub fn from_yo(year: i32, ordinal: u32) -> (r: Result<NaiveDate, Error>)
        ensures
            !(MIN_YEAR <= year <= MAX_YEAR) ==> r == Err::<NaiveDate, Error>(Error::OutOfRange),
            MIN_YEAR <= year <= MAX_YEAR && !(1 <= ordinal <= days_in_year(year as int)) ==> r
                == Err::<NaiveDate, Error>(Error::DoesNotExist),
            MIN_YEAR <= year <= MAX_YEAR && 1 <= ordinal <= days_in_year(year as int) ==> (
            r matches Ok(d) && d.wf() && d.year == year && days_before_month(
                year as int,
                d.month as int,
            ) + d.day == ordinal),
    {
        if year < MIN_YEAR || year > MAX_YEAR {
            return Err(Error::OutOfRange);
        }
        let leap = is_leap_year_exec(year);
        let year_days: u32 = if leap {
            366
        } else {
            365
        };
        if ordinal < 1 || ordinal > year_days {
            return Err(Error::DoesNotExist);
        }
        Ok(date_of_ordinal(year, ordinal))
    }

    /// Returns the year number.
    pub fn year(&self) -> (r: i32)
        ensures
            r == self.year,
    {
        self.year
    }

    /// Returns the month number starting from 1.
    pub fn month(&self) -> (r: u32)
        ensures
            r == self.month,
    {
        self.month
    }

    /// Returns the day of month starting from 1.
    pub fn day(&self) -> (r: u32)
        ensures
            r == self.day,
    {
        self.day
    }

    /// Returns the day of year starting from 1.
    pub fn ordinal(&self) -> (r: u32)
        requires
            self.wf(),
        ensures
            r == days_before_month(self.year as int, self.month as int) + self.day,
    {
        days_before_month_exec(self.year, self.month) + self.day
    }

    /// The date as a day number: the count of days since the first of
    /// January of year zero, negative for earlier days.
    pub fn num_days(&self) -> (r: i64)
        requires
            self.wf() || self.is_before_min() || self.is_after_max(),
        ensures
            r == self.value(),
    {
        days_before_year_i64(self.year as i64) + days_before_month_exec(
            self.year,
            self.month,
        ) as i64 + self.day as i64 - 1
    }

    /// The smallest representable date.
    pub fn min_value() -> (r: NaiveDate)
        ensures
            r.wf(),
            r.year == MIN_YEAR,
            r.month == 1,
            r.day == 1,
    {
        NaiveDate { year: MIN_YEAR, month: 1, day: 1 }
    }

    /// The largest representable date.
    pub fn max_value() -> (r: NaiveDate)
        ensures
            r.wf(),
            r.year == MAX_YEAR,
            r.month == 12,
            r.day == 31,
    {
        NaiveDate { year: MAX_YEAR, month: 12, day: 31 }
    }

    /// The marker one day before the smallest date. It is not a valid date
    /// itself and must never reach library users.
    pub fn before_min() -> (r: NaiveDate)
        ensures
            r.is_before_min(),
            r.value() == NaiveDate::min_value_spec() - 1,
    {
        proof {
            lemma_days_before_year_step(MIN_YEAR - 1);
        }
        NaiveDate { year: MIN_YEAR - 1, month: 12, day: 31 }
    }

    /// The marker one day past the largest date. It is not a valid date
    /// itself and must never reach library users.
    pub fn after_max() -> (r: NaiveDate)
        ensures
            r.is_after_max(),
            r.value() == NaiveDate::max_value_spec() + 1,
    {
        proof {
            lemma_days_before_year_step(MAX_YEAR as int);
        }
        NaiveDate { year: MAX_YEAR + 1, month: 1, day: 1 }
    }

    /// The day number of the smallest representable date.
    pub open spec fn min_value_spec() -> int {
        days_before_year(MIN_YEAR as int)
    }

    /// The day number of the largest representable date.
    pub open spec fn max_value_spec() -> int {
        days_before_year(MAX_YEAR + 1) - 1
    }
}

/// A well-formed date's day number lies between the day numbers of the
/// smallest and largest dates, which are both below one hundred million in
/// magnitude.
pub proof fn lemma_date_value_bounds(d: NaiveDate)
    requires
        d.wf(),
    ensures
        NaiveDate::min_value_spec() <= d.value() <= NaiveDate::max_value_spec(),
        -96_000_000 < d.value() < 96_000_000,
{
    let y = d.year as int;
    assert(days_before_month(y, d.month as int) + d.day - 1 < days_in_year(y));
    lemma_days_before_year_step(y);
    lemma_days_before_year_mono(MIN_YEAR as int, y);
    lemma_days_before_year_mono(y + 1, MAX_YEAR + 1);
    lemma_days_before_year_mono(MIN_YEAR as int, 0);
    lemma_days_before_year_mono(0, MAX_YEAR + 1);
}

/// The cumulative month table is monotone within a year.
proof fn lemma_days_before_month_mono(y: int, m1: int, m2: int)
    requires
        1 <= m1 <= m2 <= 12,
    ensures
        days_before_month(y, m1) <= days_before_month(y, m2),
{
}

/// Two well-formed dates with the same day number are the same date: the
/// calendar representation of a day is unique.
pub proof fn lemma_date_value_injective(a: NaiveDate, b: NaiveDate)
    requires
        a.wf(),
        b.wf(),
        a.value() == b.value(),
    ensures
        a == b,
{
    if (a.year, a.month, a.day) != (b.year, b.month, b.day) {
        lemma_date_value_order(a, b);
    }
}

/// A date strictly earlier in the calendar order has a strictly smaller day
/// number.
proof fn lemma_date_value_order(a: NaiveDate, b: NaiveDate)
    requires
        a.wf(),
        b.wf(),
        (a.year, a.month, a.day) != (b.year, b.month, b.day),
    ensures
        a.value() != b.value(),
{
    if a.year != b.year {
        let (lo, hi): (NaiveDate, NaiveDate) = if a.year < b.year {
            (a, b)
        } else {
            (b, a)
        };
        assert(days_before_month(lo.year as int, lo.month as int) + lo.day - 1 < days_in_year(
            lo.year as int,
        ));
        lemma_days_before_year_step(lo.year as int);
        lemma_days_before_year_mono(lo.year as int + 1, hi.year as int);
        assert(lo.value() < days_before_year(hi.year as int) <= hi.value());
    } else if a.month != b.month {
        let (lo, hi): (NaiveDate, NaiveDate) = if a.month < b.month {
            (a, b)
        } else {
            (b, a)
        };
        let y = a.year as int;
        assert(days_before_month(y, lo.month as int) + days_in_month(y, lo.month as int)
            == days_before_month(y, lo.month as int + 1));
        lemma_days_before_month_mono(y, lo.month as int + 1, hi.month as int);
        assert(lo.value() < hi.value());
    }
}

/// The year that day number `t` falls in: the unique year whose first day
/// is no later than `t` and whose successor's first day is after `t`.
fn year_of_day(t: i64) -> (y: i32)
    requires
        NaiveDate::min_value_spec() <= t <= NaiveDate::max_value_spec(),
    ensures
        MIN_YEAR <= y <= MAX_YEAR,
        days_before_year(y as int) <= t < days_before_year(y as int + 1),
{
    proof {
        lemma_days_before_year_mono(MIN_YEAR as int, 0);
        lemma_days_before_year_mono(0, MAX_YEAR + 1);
    }
    // An estimate from the mean year length of 146097 days per 400 years;
    // the loops below correct it wherever it lands.
    let (est, _) = crate::time_delta::div_mod_floor_64(t * 400, 146_097);
    let mut y: i64 = if est < MIN_YEAR as i64 {
        MIN_YEAR as i64
    } else if est > MAX_YEAR as i64 {
        MAX_YEAR as i64
    } else {
        est
    };
    while days_before_year_i64(y) > t
        invariant
            NaiveDate::min_value_spec() <= t <= NaiveDate::max_value_spec(),
            MIN_YEAR <= y <= MAX_YEAR,
        decreases y - MIN_YEAR,
    {
        proof {
            if y == MIN_YEAR as i64 {
                assert(days_before_year(y as int) <= t);
            }
        }
        y -= 1;
    }
    while days_before_year_i64(y + 1) <= t
        invariant
            NaiveDate::min_value_spec() <= t <= NaiveDate::max_value_spec(),
            MIN_YEAR <= y <= MAX_YEAR,
            days_before_year(y as int) <= t,
        decreases MAX_YEAR - y,
    {
        proof {
            if y == MAX_YEAR as i64 {
                assert(days_before_year(y as int + 1) > t);
            }
        }
        y += 1;
    }
    y as i32
}

/// The date with day number `t`: the inverse of [`NaiveDate::num_days`]
/// over the supported range.
fn date_of_days(t: i64) -> (r: NaiveDate)
    requires
        NaiveDate::min_value_spec() <= t <= NaiveDate::max_value_spec(),
    ensures
        r.wf(),
        r.value() == t,
{
    let y = year_of_day(t);
    proof {
        lemma_days_before_year_step(y as int);
    }
    let ordinal = (t - days_before_year_i64(y as i64)) as u32 + 1;
    date_of_ordinal(y, ordinal)
}

impl NaiveDate {
    /// Adds a number of whole days, which fails with [`Error::OutOfRange`]
    /// when the result would pass the largest representable date.
    pub fn checked_add_days(self, days: crate::month::Days) -> (r: Result<NaiveDate, Error>)
        requires
            self.wf(),
        ensures
            self.value() + days.0 <= NaiveDate::max_value_spec() ==> (r matches Ok(d) && d.wf()
                && d.value() == self.value() + days.0),
            self.value() + days.0 > NaiveDate::max_value_spec() ==> r == Err::<NaiveDate, Error>(
                Error::OutOfRange,
            ),
    {
        proof {
            lemma_date_value_bounds(self);
        }
        if days.0 > 200_000_000 {
            return Err(Error::OutOfRange);
        }
        let t = self.num_days() + days.0 as i64;
        let max_days = days_before_year_i64(MAX_YEAR as i64 + 1) - 1;
        if t > max_days {
            return Err(Error::OutOfRange);
        }
        Ok(date_of_days(t))
    }

    /// Subtracts a number of whole days, which fails with
    /// [`Error::OutOfRange`] when the result would pass the smallest
    /// representable date.
    pub fn checked_sub_days(self, days: crate::month::Days) -> (r: Result<NaiveDate, Error>)
        requires
            self.wf(),
        ensures
            self.value() - days.0 >= NaiveDate::min_value_spec() ==> (r matches Ok(d) && d.wf()
                && d.value() == self.value() - days.0),
            self.value() - days.0 < NaiveDate::min_value_spec() ==> r == Err::<NaiveDate, Error>(
                Error::OutOfRange,
            ),
    {
        proof {
            lemma_date_value_bounds(self);
        }
        if days.0 > 200_000_000 {
            return Err(Error::OutOfRange);
        }
        let t = self.num_days() - days.0 as i64;
        let min_days = days_before_year_i64(MIN_YEAR as i64);
        if t < min_days {
            return Err(Error::OutOfRange);
        }
        Ok(date_of_days(t))
    }

    /// Adds the whole days of a signed duration, which fails with
    /// [`Error::OutOfRange`] when the result would leave the representable
    /// range.
    pub fn checked_add_signed(self, rhs: crate::TimeDelta) -> (r: Result<NaiveDate, Error>)
        requires
            self.wf(),
            rhs.wf(),
        ensures
            ({
                let nd = self.value() + crate::time_delta::div_trunc(rhs@, 86_400_000_000_000);
                &&& (NaiveDate::min_value_spec() <= nd <= NaiveDate::max_value_spec() ==> (
                r matches Ok(d) && d.wf() && d.value() == nd))
                &&& (!(NaiveDate::min_value_spec() <= nd <= NaiveDate::max_value_spec()) ==> r
                    == Err::<NaiveDate, Error>(Error::OutOfRange))
            }),
    {
        proof {
            lemma_date_value_bounds(self);
        }
        let days = rhs.num_days();
        let t = self.num_days() + days;
        let min_days = days_before_year_i64(MIN_YEAR as i64);
        let max_days = days_before_year_i64(MAX_YEAR as i64 + 1) - 1;
        if t < min_days || t > max_days {
            return Err(Error::OutOfRange);
        }
        Ok(date_of_days(t))
    }

    /// Subtracts the whole days of a signed duration, which fails with
    /// [`Error::OutOfRange`] when the result would leave the representable
    /// range.
    pub fn checked_sub_signed(self, rhs: crate::TimeDelta) -> (r: Result<NaiveDate, Error>)
        requires
            self.wf(),
            rhs.wf(),
        ensures
            ({
                let nd = self.value() - crate::time_delta::div_trunc(rhs@, 86_400_000_000_000);
                &&& (NaiveDate::min_value_spec() <= nd <= NaiveDate::max_value_spec() ==> (
                r matches Ok(d) && d.wf() && d.value() == nd))
                &&& (!(NaiveDate::min_value_spec() <= nd <= NaiveDate::max_value_spec()) ==> r
                    == Err::<NaiveDate, Error>(Error::OutOfRange))
            }),
    {
        proof {
            lemma_date_value_bounds(self);
        }
        let days = rhs.num_days();
        let t = self.num_days() - days;
        let min_days = days_before_year_i64(MIN_YEAR as i64);
        let max_days = days_before_year_i64(MAX_YEAR as i64 + 1) - 1;
        if t < min_days || t > max_days {
            return Err(Error::OutOfRange);
        }
        Ok(date_of_days(t))
    }

    /// The exact signed duration between two dates, in whole days. The
    /// range of dates is narrow enough that this never fails.
    pub fn signed_duration_since(self, rhs: NaiveDate) -> (r: crate::TimeDelta)
        requires
            self.wf(),
            rhs.wf(),
        ensures
            r.wf(),
            r@ == (self.value() - rhs.value()) * 86_400_000_000_000,
    {
        proof {
            lemma_date_value_bounds(self);
            lemma_date_value_bounds(rhs);
        }
        let diff = self.num_days() - rhs.num_days();
        crate::TimeDelta { secs: diff * 86_400, nanos: 0 }
    }

    /// The next calendar day, which fails with [`Error::OutOfRange`] only
    /// on the largest representable date.
    pub fn succ(self) -> (r: Result<NaiveDate, Error>)
        requires
            self.wf(),
        ensures
            self.value() < NaiveDate::max_value_spec() ==> (r matches Ok(d) && d.wf()
                && d.value() == self.value() + 1),
            self.value() == NaiveDate::max_value_spec() ==> r == Err::<NaiveDate, Error>(
                Error::OutOfRange,
            ),
    {
        proof {
            lemma_date_value_bounds(self);
            lemma_days_before_year_step(self.year as int);
        }
        if self.day < days_in_month_exec(self.year, self.month) {
            let d = NaiveDate { day: self.day + 1, ..self };
            proof {
                lemma_date_value_bounds(d);
            }
            Ok(d)
        } else if self.month < 12 {
            let d = NaiveDate { month: self.month + 1, day: 1, ..self };
            proof {
                lemma_date_value_bounds(d);
            }
            Ok(d)
        } else if self.year < MAX_YEAR {
            let d = NaiveDate { year: self.year + 1, month: 1, day: 1 };
            proof {
                lemma_date_value_bounds(d);
            }
            Ok(d)
        } else {
            Err(Error::OutOfRange)
        }
    }

    /// The previous calendar day, which fails with [`Error::OutOfRange`]
    /// only on the smallest representable date.
    pub fn pred(self) -> (r: Result<NaiveDate, Error>)
        requires
            self.wf(),
        ensures
            self.value() > NaiveDate::min_value_spec() ==> (r matches Ok(d) && d.wf()
                && d.value() == self.value() - 1),
            self.value() == NaiveDate::min_value_spec() ==> r == Err::<NaiveDate, Error>(
                Error::OutOfRange,
            ),
    {
        proof {
            lemma_date_value_bounds(self);
            lemma_days_before_year_step(self.year as int - 1);
        }
        if self.day > 1 {
            let d = NaiveDate { day: self.day - 1, ..self };
            proof {
                lemma_date_value_bounds(d);
            }
            Ok(d)
        } else if self.month > 1 {
            let pm = self.month - 1;
            let d = NaiveDate {
                month: pm,
                day: days_in_month_exec(self.year, pm),
                ..self
            };
            proof {
                lemma_date_value_bounds(d);
            }
            Ok(d)
        } else if self.year > MIN_YEAR {
            let py = self.year - 1;
            let d = NaiveDate { year: py, month: 12, day: 31 };
            proof {
                lemma_date_value_bounds(d);
            }
            Ok(d)
        } else {
            Err(Error::OutOfRange)
        }
    }
}

impl NaiveDate {
    /// Adds a number of calendar months, keeping the day of month but
    /// clamping it to the last day of the resulting month where it would
    /// not exist. Fails when the resulting year leaves the supported range.
    pub fn checked_add_months(self, months: crate::month::Months) -> (r: Option<NaiveDate>)
        requires
            self.wf(),
        ensures
            ({
                let total = self.year * 12 + self.month - 1 + months.0;
                let ny = total / 12;
                let nm = total % 12 + 1;
                &&& (MIN_YEAR <= ny <= MAX_YEAR ==> (r matches Some(d) && d.wf() && d.year == ny
                    && d.month == nm && d.day == if self.day <= days_in_month(ny, nm) {
                    self.day as int
                } else {
                    days_in_month(ny, nm)
                }))
                &&& (!(MIN_YEAR <= ny <= MAX_YEAR) ==> r is None)
            }),
    {
        let total = self.year as i64 * 12 + (self.month as i64 - 1) + months.0 as i64;
        let (qy, rm) = crate::time_delta::div_mod_floor_64(total, 12);
        if qy < MIN_YEAR as i64 || qy > MAX_YEAR as i64 {
            return None;
        }
        let nm = rm as u32 + 1;
        let dim = days_in_month_exec(qy as i32, nm);
        let nd = if self.day <= dim {
            self.day
        } else {
            dim
        };
        Some(NaiveDate { year: qy as i32, month: nm, day: nd })
    }

    /// Subtracts a number of calendar months, clamping the day of month as
    /// [`NaiveDate::checked_add_months`] does. Fails when the resulting
    /// year leaves the supported range.
    pub fn checked_sub_months(self, months: crate::month::Months) -> (r: Option<NaiveDate>)
        requires
            self.wf(),
        ensures
            ({
                let total = self.year * 12 + self.month - 1 - months.0;
                let ny = total / 12;
                let nm = total % 12 + 1;
                &&& (MIN_YEAR <= ny <= MAX_YEAR ==> (r matches Some(d) && d.wf() && d.year == ny
                    && d.month == nm && d.day == if self.day <= days_in_month(ny, nm) {
                    self.day as int
                } else {
                    days_in_month(ny, nm)
                }))
                &&& (!(MIN_YEAR <= ny <= MAX_YEAR) ==> r is None)
            }),
    {
        let total = self.year as i64 * 12 + (self.month as i64 - 1) - months.0 as i64;
        let (qy, rm) = crate::time_delta::div_mod_floor_64(total, 12);
        if qy < MIN_YEAR as i64 || qy > MAX_YEAR as i64 {
            return None;
        }
        let nm = rm as u32 + 1;
        let dim = days_in_month_exec(qy as i32, nm);
        let nd = if self.day <= dim {
            self.day
        } else {
            dim
        };
        Some(NaiveDate { year: qy as i32, month: nm, day: nd })
    }

    /// Replaces the year, keeping month and day.
    ///
    /// Fails with [`Error::OutOfRange`] when the year leaves the supported
    /// range, and with [`Error::DoesNotExist`] when the day does not exist
    /// in that year (February 29 in a common year).
    pub fn with_year(self, year: i32) -> (r: Result<NaiveDate, Error>)
        requires
            self.wf(),
        ensures
            !(MIN_YEAR <= year <= MAX_YEAR) ==> r == Err::<NaiveDate, Error>(Error::OutOfRange),
            MIN_YEAR <= year <= MAX_YEAR && self.day > days_in_month(
                year as int,
                self.month as int,
            ) ==> r == Err::<NaiveDate, Error>(Error::DoesNotExist),
            MIN_YEAR <= year <= MAX_YEAR && self.day <= days_in_month(
                year as int,
                self.month as int,
            ) ==> (r matches Ok(d) && d.wf() && d.year == year && d.month == self.month && d.day
                == self.day),
    {
        if year < MIN_YEAR || year > MAX_YEAR {
            return Err(Error::OutOfRange);
        }
        if self.day > days_in_month_exec(year, self.month) {
            return Err(Error::DoesNotExist);
        }
        Ok(NaiveDate { year, ..self })
    }

    /// Replaces the month, keeping year and day.
    ///
    /// Fails with [`Error::InvalidArgument`] for a month number outside 1
    /// through 12, and with [`Error::DoesNotExist`] when the day does not
    /// exist in the new month.
    pub fn with_month(self, month: u32) -> (r: Result<NaiveDate, Error>)
        requires
            self.wf(),
        ensures
            !(1 <= month <= 12) ==> r == Err::<NaiveDate, Error>(Error::InvalidArgument),
            1 <= month <= 12 && self.day > days_in_month(self.year as int, month as int) ==> r
                == Err::<NaiveDate, Error>(Error::DoesNotExist),
            1 <= month <= 12 && self.day <= days_in_month(self.year as int, month as int) ==> (
            r matches Ok(d) && d.wf() && d.year == self.year && d.month == month && d.day
                == self.day),
    {
        if month < 1 || month > 12 {
            return Err(Error::InvalidArgument);
        }
        if self.day > days_in_month_exec(self.year, month) {
            return Err(Error::DoesNotExist);
        }
        Ok(NaiveDate { month, ..self })
    }

    /// Replaces the day of month, keeping year and month.
    ///
    /// Fails with [`Error::InvalidArgument`] for a day number outside 1
    /// through 31, and with [`Error::DoesNotExist`] when the month has no
    /// such day.
    pub fn with_day(self, day: u32) -> (r: Result<NaiveDate, Error>)
        requires
            self.wf(),
        ensures
            !(1 <= day <= 31) ==> r == Err::<NaiveDate, Error>(Error::InvalidArgument),
            1 <= day <= 31 && day > days_in_month(self.year as int, self.month as int) ==> r
                == Err::<NaiveDate, Error>(Error::DoesNotExist),
            1 <= day <= 31 && day <= days_in_month(self.year as int, self.month as int) ==> (
            r matches Ok(d) && d.wf() && d.year == self.year && d.month == self.month && d.day
                == day),
    {
        if day < 1 || day > 31 {
            return Err(Error::InvalidArgument);
        }
        if day > days_in_month_exec(self.year, self.month) {
            return Err(Error::DoesNotExist);
        }
        Ok(NaiveDate { day, ..self })
    }

    /// Replaces the date with the one of the given day of year, keeping the
    /// year. Returns `None` when the ordinal is zero or exceeds the number
    /// of days in the year.
    pub fn with_ordinal(self, ordinal: u32) -> (r: Option<NaiveDate>)
        requires
            self.wf(),
        ensures
            1 <= ordinal <= days_in_year(self.year as int) ==> (r matches Some(d) && d.wf()
                && d.year == self.year && days_before_month(self.year as int, d.month as int)
                + d.day == ordinal),
            !(1 <= ordinal <= days_in_year(self.year as int)) ==> r is None,
    {
        let leap = is_leap_year_exec(self.year);
        let year_days: u32 = if leap {
            366
        } else {
            365
        };
        if ordinal < 1 || ordinal > year_days {
            return None;
        }
        Some(date_of_ordinal(self.year, ordinal))
    }
}

/// The date with the given in-range ordinal in year `year`.
fn date_of_ordinal(year: i32, ordinal: u32) -> (r: NaiveDate)
    requires
        MIN_YEAR <= year <= MAX_YEAR,
        1 <= ordinal <= days_in_year(year as int),
    ensures
        r.wf(),
        r.year == year,
        days_before_month(year as int, r.month as int) + r.day == ordinal,
{
    let mut m: u32 = 1;
    while m < 12 && days_before_month_exec(year, m + 1) < ordinal
        invariant
            MIN_YEAR <= year <= MAX_YEAR,
            1 <= ordinal <= days_in_year(year as int),
            1 <= m <= 12,
            days_before_month(year as int, m as int) < ordinal,
        decreases 12 - m,
    {
        m += 1;
    }
    let day = ordinal - days_before_month_exec(year, m);
    NaiveDate { year, month: m, day }
}

} // verus!
