//! Combined calendar dates and times of day.

use vstd::arithmetic::div_mod::{
    lemma_fundamental_div_mod, lemma_fundamental_div_mod_converse,
};
use vstd::prelude::*;

use crate::date::NaiveDate;
use crate::month::{Days, Months};
use crate::offset::FixedOffset;
use crate::time::{time_repr, NaiveTime};
use crate::time_delta::TimeDelta;
use crate::Error;

verus! {

/// The number of nanoseconds in a day.
pub const NANOS_PER_DAY: i64 = 86_400_000_000_000;

/// ISO 8601 combined date and time without timezone: a calendar date paired
/// with a leap-second-aware time of day.
#[derive(PartialEq, Eq, Hash, PartialOrd, Ord, Copy, Clone, Debug, Structural)]
pub struct NaiveDateTime {
    /// The calendar date.
    pub date: NaiveDate,
    /// The time of day.
    pub time: NaiveTime,
}

/// The combined value as a count of nanoseconds since the midnight opening
/// year zero, counting every day at exactly 86 400 seconds and any
/// leap-second fraction linearly within its day.
pub open spec fn dt_repr(dt: NaiveDateTime) -> int {
    dt.date.value() * 86_400_000_000_000 + time_repr(dt.time)
}

/// Dividing an exact multiple returns the factor.
proof fn lemma_div_exact_multiple(q: int, d: int)
    requires
        d > 0,
    ensures
        crate::time_delta::div_trunc(q * d, d) == q,
{
    if q >= 0 {
        vstd::arithmetic::mul::lemma_mul_nonnegative(q, d);
        lemma_fundamental_div_mod_converse(q * d, d, q, 0);
    } else {
        vstd::arithmetic::mul::lemma_mul_nonnegative(-q, d);
        assert(-(q * d) == (-q) * d) by (nonlinear_arith);
        lemma_fundamental_div_mod_converse((-q) * d, d, -q, 0);
    }
}

impl NaiveDateTime {
    /// The representation invariant: both halves are well formed.
    pub open spec fn wf(self) -> bool {
        &&& self.date.wf()
        &&& self.time.wf()
    }

    /// Makes a new `NaiveDateTime` from date and time components.
    pub fn new(date: NaiveDate, time: NaiveTime) -> (r: NaiveDateTime)
        ensures
            r.date == date,
            r.time == time,
    {
        NaiveDateTime { date, time }
    }

    /// Retrieves the date component.
    pub fn date(self) -> (r: NaiveDate)
        ensures
            r == self.date,
    {
        self.date
    }

    /// Retrieves the time component.
    pub fn time(self) -> (r: NaiveTime)
        ensures
            r == self.time,
    {
        self.time
    }

    /// The smallest representable date and time.
    pub fn min_value() -> (r: NaiveDateTime)
        ensures
            r.wf(),
            r.date.year == crate::date::MIN_YEAR && r.date.month == 1 && r.date.day == 1,
            r.time.secs == 0 && r.time.frac == 0,
    {
        NaiveDateTime { date: NaiveDate::min_value(), time: NaiveTime::min_value() }
    }

    /// The largest representable date and time.
    pub fn max_value() -> (r: NaiveDateTime)
        ensures
            r.wf(),
            r.date.year == crate::date::MAX_YEAR && r.date.month == 12 && r.date.day == 31,
            r.time.secs == 86_399 && r.time.frac == 999_999_999,
    {
        NaiveDateTime { date: NaiveDate::max_value(), time: NaiveTime::max_value() }
    }

    /// The Unix epoch, 1970-01-01 00:00:00.
    pub fn unix_epoch() -> (r: NaiveDateTime)
        ensures
            r.wf(),
            r.date.year == 1970 && r.date.month == 1 && r.date.day == 1,
            r.time.secs == 0 && r.time.frac == 0,
    {
        NaiveDateTime {
            date: NaiveDate { year: 1970, month: 1, day: 1 },
            time: NaiveTime { secs: 0, frac: 0 },
        }
    }

    /// Adds the given signed duration.
    ///
    /// A starting point inside a leap second stays inside it while the
    /// result fits; otherwise the inserted second is crossed like a real
    /// one. Fails with [`Error::OutOfRange`] exactly when the resulting
    /// date would leave the representable range.
    #[verifier::rlimit(100)]
    pub fn checked_add_signed(self, rhs: TimeDelta) -> (r: Result<NaiveDateTime, Error>)
        requires
            self.wf(),
            rhs.wf(),
        ensures
            (self.time.frac >= 1_000_000_000 && -(self.time.frac as int) <= rhs@ && rhs@
                < 2_000_000_000 - self.time.frac) ==> (r matches Ok(dt) && dt.wf() && dt.date
                == self.date && dt.time.secs == self.time.secs && dt.time.frac == self.time.frac
                + rhs@),
            !(self.time.frac >= 1_000_000_000 && -(self.time.frac as int) <= rhs@ && rhs@
                < 2_000_000_000 - self.time.frac) ==> ({
                let total = dt_repr(self) + rhs@ - (if self.time.frac >= 1_000_000_000 && rhs@
                    >= 2_000_000_000 - self.time.frac {
                    1_000_000_000int
                } else {
                    0int
                });
                let nd = total / 86_400_000_000_000;
                &&& (NaiveDate::min_value_spec() <= nd <= NaiveDate::max_value_spec() ==> (
                r matches Ok(dt) && dt.wf() && dt.date.value() == nd && time_repr(dt.time)
                    == total - nd * 86_400_000_000_000 && dt.time.frac < 1_000_000_000))
                &&& (!(NaiveDate::min_value_spec() <= nd <= NaiveDate::max_value_spec()) ==> r
                    == Err::<NaiveDateTime, Error>(Error::OutOfRange))
            }),
    {
        let ghost stay: bool = self.time.frac >= 1_000_000_000 && -(self.time.frac as int)
            <= rhs@ && rhs@ < 2_000_000_000 - self.time.frac;
        let (time, carry) = self.time.overflowing_add_signed(rhs);
        let ghost q: int = carry as int / 86_400;
        proof {
            lemma_fundamental_div_mod(carry as int, 86_400);
            crate::date::lemma_date_value_bounds(self.date);
        }
        let remainder = match TimeDelta::new(carry, 0) {
            Ok(d) => d,
            Err(_) => {
                proof {
                    if !stay {
                        lemma_datetime_decompose(
                            self.date.value() + q,
                            time_repr(time),
                            carry as int,
                        );
                    }
                }
                return Err(Error::OutOfRange);
            },
        };
        proof {
            lemma_div_exact_multiple(q, 86_400_000_000_000);
            assert(remainder@ == q * 86_400_000_000_000) by (nonlinear_arith)
                requires
                    remainder@ == carry * 1_000_000_000,
                    carry == 86_400 * q,
            ;
        }
        let date = match self.date.checked_add_signed(remainder) {
            Ok(d) => d,
            Err(_) => {
                proof {
                    if !stay {
                        lemma_datetime_decompose(
                            self.date.value() + q,
                            time_repr(time),
                            carry as int,
                        );
                    }
                }
                return Err(Error::OutOfRange);
            },
        };
        proof {
            if stay {
                crate::date::lemma_date_value_injective(date, self.date);
            } else {
                lemma_datetime_decompose(self.date.value() + q, time_repr(time), carry as int);
            }
        }
        Ok(NaiveDateTime { date, time })
    }

    /// Subtracts the given signed duration, with the same leap-second
    /// handling as [`NaiveDateTime::checked_add_signed`]. Fails with
    /// [`Error::OutOfRange`] exactly when the resulting date would leave
    /// the representable range.
    #[verifier::rlimit(100)]
    pub fn checked_sub_signed(self, rhs: TimeDelta) -> (r: Result<NaiveDateTime, Error>)
        requires
            self.wf(),
            rhs.wf(),
        ensures
            (self.time.frac >= 1_000_000_000 && -(self.time.frac as int) <= -rhs@ && -rhs@
                < 2_000_000_000 - self.time.frac) ==> (r matches Ok(dt) && dt.wf() && dt.date
                == self.date && dt.time.secs == self.time.secs && dt.time.frac == self.time.frac
                - rhs@),
            !(self.time.frac >= 1_000_000_000 && -(self.time.frac as int) <= -rhs@ && -rhs@
                < 2_000_000_000 - self.time.frac) ==> ({
                let total = dt_repr(self) - rhs@ - (if self.time.frac >= 1_000_000_000 && -rhs@
                    >= 2_000_000_000 - self.time.frac {
                    1_000_000_000int
                } else {
                    0int
                });
                let nd = total / 86_400_000_000_000;
                &&& (NaiveDate::min_value_spec() <= nd <= NaiveDate::max_value_spec() ==> (
                r matches Ok(dt) && dt.wf() && dt.date.value() == nd && time_repr(dt.time)
                    == total - nd * 86_400_000_000_000 && dt.time.frac < 1_000_000_000))
                &&& (!(NaiveDate::min_value_spec() <= nd <= NaiveDate::max_value_spec()) ==> r
                    == Err::<NaiveDateTime, Error>(Error::OutOfRange))
            }),
    {
        let ghost stay: bool = self.time.frac >= 1_000_000_000 && -(self.time.frac as int)
            <= -rhs@ && -rhs@ < 2_000_000_000 - self.time.frac;
        let (time, carry) = self.time.overflowing_sub_signed(rhs);
        let ghost q: int = carry as int / 86_400;
        proof {
            lemma_fundamental_div_mod(carry as int, 86_400);
            crate::date::lemma_date_value_bounds(self.date);
        }
        let remainder = match TimeDelta::new(carry, 0) {
            Ok(d) => d,
            Err(_) => {
                proof {
                    if !stay {
                        lemma_datetime_decompose(
                            self.date.value() - q,
                            time_repr(time),
                            carry as int,
                        );
                    }
                }
                return Err(Error::OutOfRange);
            },
        };
        proof {
            lemma_div_exact_multiple(q, 86_400_000_000_000);
            assert(remainder@ == q * 86_400_000_000_000) by (nonlinear_arith)
                requires
                    remainder@ == carry * 1_000_000_000,
                    carry == 86_400 * q,
            ;
        }
        let date = match self.date.checked_sub_signed(remainder) {
            Ok(d) => d,
            Err(_) => {
                proof {
                    if !stay {
                        lemma_datetime_decompose(
                            self.date.value() - q,
                            time_repr(time),
                            carry as int,
                        );
                    }
                }
                return Err(Error::OutOfRange);
            },
        };
        proof {
            if stay {
                crate::date::lemma_date_value_injective(date, self.date);
            } else {
                lemma_datetime_decompose(self.date.value() - q, time_repr(time), carry as int);
            }
        }
        Ok(NaiveDateTime { date, time })
    }

    /// The exact signed duration since another date and time. The range of
    /// dates is narrow enough beside the range of durations that this never
    /// fails.
    pub fn signed_duration_since(self, rhs: NaiveDateTime) -> (r: TimeDelta)
        requires
            self.wf(),
            rhs.wf(),
        ensures
            r.wf(),
            r@ == dt_repr(self) - dt_repr(rhs),
    {
        proof {
            crate::date::lemma_date_value_bounds(self.date);
            crate::date::lemma_date_value_bounds(rhs.date);
        }
        let date_diff = self.date.signed_duration_since(rhs.date);
        let time_diff = self.time.signed_duration_since(rhs.time);
        match date_diff.checked_add(time_diff) {
            Some(d) => d,
            None => {
                proof {
                    assert(false);
                }
                date_diff
            },
        }
    }
}

impl NaiveDate {
    /// Combines this date with a time of day.
    pub fn and_time(self, time: NaiveTime) -> (r: NaiveDateTime)
        ensures
            r.date == self,
            r.time == time,
    {
        NaiveDateTime { date: self, time }
    }

    /// Combines this date with an hour, minute and second. Fails with
    /// [`Error::InvalidArgument`] when any part lies outside its range.
    pub fn and_hms(self, hour: u32, min: u32, sec: u32) -> (r: Result<NaiveDateTime, Error>)
        ensures
            hour < 24 && min < 60 && sec < 60 ==> (r matches Ok(dt) && dt.date == self
                && dt.time.secs == hour * 3600 + min * 60 + sec && dt.time.frac == 0),
            !(hour < 24 && min < 60 && sec < 60) ==> r == Err::<NaiveDateTime, Error>(
                Error::InvalidArgument,
            ),
    {
        match NaiveTime::from_hms(hour, min, sec) {
            Ok(t) => Ok(NaiveDateTime { date: self, time: t }),
            Err(e) => Err(e),
        }
    }

    /// Combines this date with an hour, minute, second and millisecond; a
    /// millisecond part of one second or more (below two) marks a leap
    /// second. Fails with [`Error::InvalidArgument`] when any part lies
    /// outside its range.
    pub fn and_hms_milli(self, hour: u32, min: u32, sec: u32, milli: u32) -> (r: Result<
        NaiveDateTime,
        Error,
    >)
        ensures
            hour < 24 && min < 60 && sec < 60 && milli < 2000 ==> (r matches Ok(dt) && dt.date
                == self && dt.time.secs == hour * 3600 + min * 60 + sec && dt.time.frac == milli
                * 1_000_000),
            !(hour < 24 && min < 60 && sec < 60 && milli < 2000) ==> r == Err::<
                NaiveDateTime,
                Error,
            >(Error::InvalidArgument),
    {
        match NaiveTime::from_hms_milli(hour, min, sec, milli) {
            Ok(t) => Ok(NaiveDateTime { date: self, time: t }),
            Err(e) => Err(e),
        }
    }

    /// Combines this date with an hour, minute, second and microsecond; a
    /// microsecond part of one second or more (below two) marks a leap
    /// second. Fails with [`Error::InvalidArgument`] when any part lies
    /// outside its range.
    pub fn and_hms_micro(self, hour: u32, min: u32, sec: u32, micro: u32) -> (r: Result<
        NaiveDateTime,
        Error,
    >)
        ensures
            hour < 24 && min < 60 && sec < 60 && micro < 2_000_000 ==> (r matches Ok(dt)
                && dt.date == self && dt.time.secs == hour * 3600 + min * 60 + sec
                && dt.time.frac == micro * 1000),
            !(hour < 24 && min < 60 && sec < 60 && micro < 2_000_000) ==> r == Err::<
                NaiveDateTime,
                Error,
            >(Error::InvalidArgument),
    {
        match NaiveTime::from_hms_micro(hour, min, sec, micro) {
            Ok(t) => Ok(NaiveDateTime { date: self, time: t }),
            Err(e) => Err(e),
        }
    }

    /// Combines this date with an hour, minute, second and nanosecond; a
    /// nanosecond part of one second or more (below two) marks a leap
    /// second. Fails with [`Error::InvalidArgument`] when any part lies
    /// outside its range.
    pub fn and_hms_nano(self, hour: u32, min: u32, sec: u32, nano: u32) -> (r: Result<
        NaiveDateTime,
        Error,
    >)
        ensures
            hour < 24 && min < 60 && sec < 60 && nano < 2_000_000_000 ==> (r matches Ok(dt)
                && dt.date == self && dt.time.secs == hour * 3600 + min * 60 + sec
                && dt.time.frac == nano),
            !(hour < 24 && min < 60 && sec < 60 && nano < 2_000_000_000) ==> r == Err::<
                NaiveDateTime,
                Error,
            >(Error::InvalidArgument),
    {
        match NaiveTime::from_hms_nano(hour, min, sec, nano) {
            Ok(t) => Ok(NaiveDateTime { date: self, time: t }),
            Err(e) => Err(e),
        }
    }
}

impl NaiveDateTime {
    /// Adds the given number of calendar months, clamping the day of month
    /// to the last day of the resulting month where it would not exist;
    /// the time of day is untouched. Fails when the resulting year leaves
    /// the supported range.
    pub fn checked_add_months(self, rhs: Months) -> (r: Option<NaiveDateTime>)
        requires
            self.wf(),
        ensures
            ({
                let total = self.date.year * 12 + self.date.month - 1 + rhs.0;
                let ny = total / 12;
                let nm = total % 12 + 1;
                &&& (crate::date::MIN_YEAR <= ny <= crate::date::MAX_YEAR ==> (r matches Some(dt)
                    && dt.wf() && dt.time == self.time && dt.date.year == ny && dt.date.month
                    == nm && dt.date.day == if self.date.day <= crate::date::days_in_month(
                    ny,
                    nm,
                ) {
                    self.date.day as int
                } else {
                    crate::date::days_in_month(ny, nm)
                }))
                &&& (!(crate::date::MIN_YEAR <= ny <= crate::date::MAX_YEAR) ==> r is None)
            }),
    {
        match self.date.checked_add_months(rhs) {
            Some(d) => Some(NaiveDateTime { date: d, time: self.time }),
            None => None,
        }
    }

    /// Subtracts the given number of calendar months, clamping the day of
    /// month as [`NaiveDateTime::checked_add_months`] does; the time of day
    /// is untouched. Fails when the resulting year leaves the supported
    /// range.
    pub fn checked_sub_months(self, rhs: Months) -> (r: Option<NaiveDateTime>)
        requires
            self.wf(),
        ensures
            ({
                let total = self.date.year * 12 + self.date.month - 1 - rhs.0;
                let ny = total / 12;
                let nm = total % 12 + 1;
                &&& (crate::date::MIN_YEAR <= ny <= crate::date::MAX_YEAR ==> (r matches Some(dt)
                    && dt.wf() && dt.time == self.time && dt.date.year == ny && dt.date.month
                    == nm && dt.date.day == if self.date.day <= crate::date::days_in_month(
                    ny,
                    nm,
                ) {
                    self.date.day as int
                } else {
                    crate::date::days_in_month(ny, nm)
                }))
                &&& (!(crate::date::MIN_YEAR <= ny <= crate::date::MAX_YEAR) ==> r is None)
            }),
    {
        match self.date.checked_sub_months(rhs) {
            Some(d) => Some(NaiveDateTime { date: d, time: self.time }),
            None => None,
        }
    }

    /// Adds a number of whole days to the date part, leaving the time of
    /// day untouched. Fails with [`Error::OutOfRange`] when the resulting
    /// date would pass the largest representable date.
    pub fn checked_add_days(self, days: Days) -> (r: Result<NaiveDateTime, Error>)
        requires
            self.wf(),
        ensures
            self.date.value() + days.0 <= NaiveDate::max_value_spec() ==> (r matches Ok(dt)
                && dt.wf() && dt.time == self.time && dt.date.value() == self.date.value()
                + days.0),
            self.date.value() + days.0 > NaiveDate::max_value_spec() ==> r == Err::<
                NaiveDateTime,
                Error,
            >(Error::OutOfRange),
    {
        match self.date.checked_add_days(days) {
            Ok(d) => Ok(NaiveDateTime { date: d, time: self.time }),
            Err(e) => Err(e),
        }
    }

    /// Subtracts a number of whole days from the date part, leaving the
    /// time of day untouched. Fails with [`Error::OutOfRange`] when the
    /// resulting date would pass the smallest representable date.
    pub fn checked_sub_days(self, days: Days) -> (r: Result<NaiveDateTime, Error>)
        requires
            self.wf(),
        ensures
            self.date.value() - days.0 >= NaiveDate::min_value_spec() ==> (r matches Ok(dt)
                && dt.wf() && dt.time == self.time && dt.date.value() == self.date.value()
                - days.0),
            self.date.value() - days.0 < NaiveDate::min_value_spec() ==> r == Err::<
                NaiveDateTime,
                Error,
            >(Error::OutOfRange),
    {
        match self.date.checked_sub_days(days) {
            Ok(d) => Ok(NaiveDateTime { date: d, time: self.time }),
            Err(e) => Err(e),
        }
    }

    /// Adds a fixed offset, carrying at most one day into the date part and
    /// preserving any leap second in the time of day. Fails with
    /// [`Error::OutOfRange`] when the carried day leaves the representable
    /// range.
    pub fn checked_add_offset(self, rhs: FixedOffset) -> (r: Result<NaiveDateTime, Error>)
        requires
            self.wf(),
            rhs.wf(),
        ensures
            ({
                let total = self.date.value() * 86_400 + self.time.secs + rhs.local_minus_utc;
                let nd = total / 86_400;
                &&& (NaiveDate::min_value_spec() <= nd <= NaiveDate::max_value_spec() ==> (
                r matches Ok(dt) && dt.wf() && dt.date.value() == nd && dt.time.secs == total
                    - nd * 86_400 && dt.time.frac == self.time.frac))
                &&& (!(NaiveDate::min_value_spec() <= nd <= NaiveDate::max_value_spec()) ==> r
                    == Err::<NaiveDateTime, Error>(Error::OutOfRange))
            }),
    {
        proof {
            crate::date::lemma_date_value_bounds(self.date);
        }
        let (time, days) = self.time.overflowing_add_offset(rhs);
        let date = if days == -1 {
            match self.date.pred() {
                Ok(d) => d,
                Err(e) => {
                    proof {
                        lemma_offset_decompose(
                            self.date.value() + days as int,
                            time.secs as int,
                        );
                    }
                    return Err(e);
                },
            }
        } else if days == 1 {
            match self.date.succ() {
                Ok(d) => d,
                Err(e) => {
                    proof {
                        lemma_offset_decompose(
                            self.date.value() + days as int,
                            time.secs as int,
                        );
                    }
                    return Err(e);
                },
            }
        } else {
            self.date
        };
        proof {
            lemma_offset_decompose(self.date.value() + days as int, time.secs as int);
        }
        Ok(NaiveDateTime { date, time })
    }

    /// Subtracts a fixed offset, carrying at most one day into the date
    /// part and preserving any leap second in the time of day. Fails with
    /// [`Error::OutOfRange`] when the carried day leaves the representable
    /// range.
    pub fn checked_sub_offset(self, rhs: FixedOffset) -> (r: Result<NaiveDateTime, Error>)
        requires
            self.wf(),
            rhs.wf(),
        ensures
            ({
                let total = self.date.value() * 86_400 + self.time.secs - rhs.local_minus_utc;
                let nd = total / 86_400;
                &&& (NaiveDate::min_value_spec() <= nd <= NaiveDate::max_value_spec() ==> (
                r matches Ok(dt) && dt.wf() && dt.date.value() == nd && dt.time.secs == total
                    - nd * 86_400 && dt.time.frac == self.time.frac))
                &&& (!(NaiveDate::min_value_spec() <= nd <= NaiveDate::max_value_spec()) ==> r
                    == Err::<NaiveDateTime, Error>(Error::OutOfRange))
            }),
    {
        proof {
            crate::date::lemma_date_value_bounds(self.date);
        }
        let (time, days) = self.time.overflowing_sub_offset(rhs);
        let date = if days == -1 {
            match self.date.pred() {
                Ok(d) => d,
                Err(e) => {
                    proof {
                        lemma_offset_decompose(
                            self.date.value() + days as int,
                            time.secs as int,
                        );
                    }
                    return Err(e);
                },
            }
        } else if days == 1 {
            match self.date.succ() {
                Ok(d) => d,
                Err(e) => {
                    proof {
                        lemma_offset_decompose(
                            self.date.value() + days as int,
                            time.secs as int,
                        );
                    }
                    return Err(e);
                },
            }
        } else {
            self.date
        };
        proof {
            lemma_offset_decompose(self.date.value() + days as int, time.secs as int);
        }
        Ok(NaiveDateTime { date, time })
    }

    /// Replaces the year, keeping every other field; see
    /// [`NaiveDate::with_year`] for the failure cases.
    pub fn with_year(self, year: i32) -> (r: Result<NaiveDateTime, Error>)
        requires
            self.wf(),
        ensures
            !(crate::date::MIN_YEAR <= year <= crate::date::MAX_YEAR) ==> r == Err::<
                NaiveDateTime,
                Error,
            >(Error::OutOfRange),
            crate::date::MIN_YEAR <= year <= crate::date::MAX_YEAR && self.date.day
                > crate::date::days_in_month(year as int, self.date.month as int) ==> r == Err::<
                NaiveDateTime,
                Error,
            >(Error::DoesNotExist),
            crate::date::MIN_YEAR <= year <= crate::date::MAX_YEAR && self.date.day
                <= crate::date::days_in_month(year as int, self.date.month as int) ==> (
            r matches Ok(dt) && dt.wf() && dt.time == self.time && dt.date.year == year
                && dt.date.month == self.date.month && dt.date.day == self.date.day),
    {
        match self.date.with_year(year) {
            Ok(d) => Ok(NaiveDateTime { date: d, time: self.time }),
            Err(e) => Err(e),
        }
    }

    /// Replaces the month, keeping every other field; see
    /// [`NaiveDate::with_month`] for the failure cases.
    pub fn with_month(self, month: u32) -> (r: Result<NaiveDateTime, Error>)
        requires
            self.wf(),
        ensures
            !(1 <= month <= 12) ==> r == Err::<NaiveDateTime, Error>(Error::InvalidArgument),
            1 <= month <= 12 && self.date.day > crate::date::days_in_month(
                self.date.year as int,
                month as int,
            ) ==> r == Err::<NaiveDateTime, Error>(Error::DoesNotExist),
            1 <= month <= 12 && self.date.day <= crate::date::days_in_month(
                self.date.year as int,
                month as int,
            ) ==> (r matches Ok(dt) && dt.wf() && dt.time == self.time && dt.date.year
                == self.date.year && dt.date.month == month && dt.date.day == self.date.day),
    {
        match self.date.with_month(month) {
            Ok(d) => Ok(NaiveDateTime { date: d, time: self.time }),
            Err(e) => Err(e),
        }
    }

    /// Replaces the day of month, keeping every other field; see
    /// [`NaiveDate::with_day`] for the failure cases.
    pub fn with_day(self, day: u32) -> (r: Result<NaiveDateTime, Error>)
        requires
            self.wf(),
        ensures
            !(1 <= day <= 31) ==> r == Err::<NaiveDateTime, Error>(Error::InvalidArgument),
            1 <= day <= 31 && day > crate::date::days_in_month(
                self.date.year as int,
                self.date.month as int,
            ) ==> r == Err::<NaiveDateTime, Error>(Error::DoesNotExist),
            1 <= day <= 31 && day <= crate::date::days_in_month(
                self.date.year as int,
                self.date.month as int,
            ) ==> (r matches Ok(dt) && dt.wf() && dt.time == self.time && dt.date.year
                == self.date.year && dt.date.month == self.date.month && dt.date.day == day),
    {
        match self.date.with_day(day) {
            Ok(d) => Ok(NaiveDateTime { date: d, time: self.time }),
            Err(e) => Err(e),
        }
    }

    /// Replaces the date with the one of the given day of year, keeping
    /// the year and the time; see [`NaiveDate::with_ordinal`] for the
    /// failure cases.
    pub fn with_ordinal(self, ordinal: u32) -> (r: Option<NaiveDateTime>)
        requires
            self.wf(),
        ensures
            1 <= ordinal <= crate::date::days_in_year(self.date.year as int) ==> (r matches Some(
                dt,
            ) && dt.wf() && dt.time == self.time && dt.date.year == self.date.year
                && crate::date::days_before_month(self.date.year as int, dt.date.month as int)
                + dt.date.day == ordinal),
            !(1 <= ordinal <= crate::date::days_in_year(self.date.year as int)) ==> r is None,
    {
        match self.date.with_ordinal(ordinal) {
            Some(d) => Some(NaiveDateTime { date: d, time: self.time }),
            None => None,
        }
    }

    /// Replaces the hour, keeping every other field; see
    /// [`NaiveTime::with_hour`] for the failure case.
    pub fn with_hour(self, hour: u32) -> (r: Result<NaiveDateTime, Error>)
        requires
            self.wf(),
        ensures
            hour < 24 ==> (r matches Ok(dt) && dt.wf() && dt.date == self.date && dt.time.secs
                == hour * 3600 + self.time.secs % 3600 && dt.time.frac == self.time.frac),
            hour >= 24 ==> r == Err::<NaiveDateTime, Error>(Error::InvalidArgument),
    {
        match self.time.with_hour(hour) {
            Ok(t) => Ok(NaiveDateTime { date: self.date, time: t }),
            Err(e) => Err(e),
        }
    }

    /// Replaces the minute, keeping every other field; see
    /// [`NaiveTime::with_minute`] for the failure case.
    pub fn with_minute(self, min: u32) -> (r: Result<NaiveDateTime, Error>)
        requires
            self.wf(),
        ensures
            min < 60 ==> (r matches Ok(dt) && dt.wf() && dt.date == self.date && dt.time.secs
                == (self.time.secs / 3600) * 3600 + min * 60 + self.time.secs % 60
                && dt.time.frac == self.time.frac),
            min >= 60 ==> r == Err::<NaiveDateTime, Error>(Error::InvalidArgument),
    {
        match self.time.with_minute(min) {
            Ok(t) => Ok(NaiveDateTime { date: self.date, time: t }),
            Err(e) => Err(e),
        }
    }

    /// Replaces the second, keeping every other field; see
    /// [`NaiveTime::with_second`] for the failure case.
    pub fn with_second(self, sec: u32) -> (r: Result<NaiveDateTime, Error>)
        requires
            self.wf(),
        ensures
            sec < 60 ==> (r matches Ok(dt) && dt.wf() && dt.date == self.date && dt.time.secs
                == (self.time.secs / 60) * 60 + sec && dt.time.frac == self.time.frac),
            sec >= 60 ==> r == Err::<NaiveDateTime, Error>(Error::InvalidArgument),
    {
        match self.time.with_second(sec) {
            Ok(t) => Ok(NaiveDateTime { date: self.date, time: t }),
            Err(e) => Err(e),
        }
    }

    /// Replaces the nanoseconds since the whole non-leap second, keeping
    /// every other field; a value of one billion or more (below two) marks
    /// a leap second. See [`NaiveTime::with_nanosecond`] for the failure
    /// case.
    pub fn with_nanosecond(self, nano: u32) -> (r: Result<NaiveDateTime, Error>)
        requires
            self.wf(),
        ensures
            nano < 2_000_000_000 ==> (r matches Ok(dt) && dt.wf() && dt.date == self.date
                && dt.time.secs == self.time.secs && dt.time.frac == nano),
            nano >= 2_000_000_000 ==> r == Err::<NaiveDateTime, Error>(Error::InvalidArgument),
    {
        match self.time.with_nanosecond(nano) {
            Ok(t) => Ok(NaiveDateTime { date: self.date, time: t }),
            Err(e) => Err(e),
        }
    }

    /// Returns the year number of the date part.
    pub fn year(&self) -> (r: i32)
        ensures
            r == self.date.year,
    {
        self.date.year
    }

    /// Returns the month number of the date part, starting from 1.
    pub fn month(&self) -> (r: u32)
        ensures
            r == self.date.month,
    {
        self.date.month
    }

    /// Returns the day of month of the date part, starting from 1.
    pub fn day(&self) -> (r: u32)
        ensures
            r == self.date.day,
    {
        self.date.day
    }

    /// Returns the day of year of the date part, starting from 1.
    pub fn ordinal(&self) -> (r: u32)
        requires
            self.wf(),
        ensures
            r == crate::date::days_before_month(self.date.year as int, self.date.month as int)
                + self.date.day,
    {
        self.date.ordinal()
    }

    /// Returns the hour number of the time part, from 0 to 23.
    pub fn hour(&self) -> (r: u32)
        requires
            self.wf(),
        ensures
            r == self.time.secs / 3600,
    {
        self.time.hour()
    }

    /// Returns the minute number of the time part, from 0 to 59.
    pub fn minute(&self) -> (r: u32)
        requires
            self.wf(),
        ensures
            r == (self.time.secs / 60) % 60,
    {
        self.time.minute()
    }

    /// Returns the second number of the time part, from 0 to 59; a leap
    /// second shows as 59 with a nanosecond overflow.
    pub fn second(&self) -> (r: u32)
        requires
            self.wf(),
        ensures
            r == self.time.secs % 60,
    {
        self.time.second()
    }

    /// Returns the nanoseconds of the time part since the whole non-leap
    /// second; one billion or more marks a leap second.
    pub fn nanosecond(&self) -> (r: u32)
        ensures
            r == self.time.frac,
    {
        self.time.nanosecond()
    }

    /// Adds a fixed offset, clamping an out-of-range result to markers one
    /// day beyond the representable dates instead of failing. The markers
    /// support timezone conversion pipelines and must never reach library
    /// users.
    #[allow(dead_code)]
    pub(crate) fn overflowing_add_offset(self, rhs: FixedOffset) -> (r: NaiveDateTime)
        requires
            self.wf(),
            rhs.wf(),
        ensures
            r.date.wf() || r.date.is_before_min() || r.date.is_after_max(),
            r.time.wf(),
            r.time.frac == self.time.frac,
            r.date.value() * 86_400 + r.time.secs == self.date.value() * 86_400 + self.time.secs
                + rhs.local_minus_utc,
    {
        proof {
            crate::date::lemma_date_value_bounds(self.date);
        }
        let (time, days) = self.time.overflowing_add_offset(rhs);
        let date = if days == -1 {
            match self.date.pred() {
                Ok(d) => d,
                Err(_) => NaiveDate::before_min(),
            }
        } else if days == 1 {
            match self.date.succ() {
                Ok(d) => d,
                Err(_) => NaiveDate::after_max(),
            }
        } else {
            self.date
        };
        NaiveDateTime { date, time }
    }

    /// Subtracts a fixed offset, clamping an out-of-range result to markers
    /// one day beyond the representable dates instead of failing. The
    /// markers support timezone conversion pipelines and must never reach
    /// library users.
    #[allow(dead_code)]
    pub(crate) fn overflowing_sub_offset(self, rhs: FixedOffset) -> (r: NaiveDateTime)
        requires
            self.wf(),
            rhs.wf(),
        ensures
            r.date.wf() || r.date.is_before_min() || r.date.is_after_max(),
            r.time.wf(),
            r.time.frac == self.time.frac,
            r.date.value() * 86_400 + r.time.secs == self.date.value() * 86_400 + self.time.secs
                - rhs.local_minus_utc,
    {
        proof {
            crate::date::lemma_date_value_bounds(self.date);
        }
        let (time, days) = self.time.overflowing_sub_offset(rhs);
        let date = if days == -1 {
            match self.date.pred() {
                Ok(d) => d,
                Err(_) => NaiveDate::before_min(),
            }
        } else if days == 1 {
            match self.date.succ() {
                Ok(d) => d,
                Err(_) => NaiveDate::after_max(),
            }
        } else {
            self.date
        };
        NaiveDateTime { date, time }
    }
}

/// Law: the signed duration between two date-times is antisymmetric: the
/// duration from `b` to `a` is the exact negation of the duration from `a`
/// to `b`, and both always exist because the date range is far narrower
/// than the duration range.
pub proof fn lemma_signed_duration_since_antisymmetric(
    a: NaiveDateTime,
    b: NaiveDateTime,
    d1: TimeDelta,
    d2: TimeDelta,
)
    requires
        a.wf(),
        b.wf(),
        d1.wf(),
        d2.wf(),
        d1@ == dt_repr(a) - dt_repr(b),
        d2@ == dt_repr(b) - dt_repr(a),
    ensures
        d1@ == -d2@,
{
}

/// A day count plus an in-day remainder of seconds decomposes uniquely:
/// the day count is the floor quotient of the total in seconds.
proof fn lemma_offset_decompose(nd: int, ts: int)
    requires
        0 <= ts < 86_400,
    ensures
        (nd * 86_400 + ts) / 86_400 == nd,
{
    lemma_fundamental_div_mod_converse(nd * 86_400 + ts, 86_400, nd, ts);
}

/// A day count plus an in-day remainder of nanoseconds decomposes uniquely:
/// the day count is the floor quotient of the total.
proof fn lemma_datetime_decompose(nd: int, tr: int, carry: int)
    requires
        0 <= tr < 86_400_000_000_000,
    ensures
        (nd * 86_400_000_000_000 + tr) / 86_400_000_000_000 == nd,
        nd * 86_400_000_000_000 + tr - nd * 86_400_000_000_000 == tr,
{
    lemma_fundamental_div_mod_converse(nd * 86_400_000_000_000 + tr, 86_400_000_000_000, nd, tr);
}

} // verus!
