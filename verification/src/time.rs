//! Times of day with leap-second awareness.

use vstd::prelude::*;

use crate::offset::FixedOffset;
use crate::time_delta::TimeDelta;
use crate::Error;

verus! {

/// ISO 8601 time of day without timezone.
///
/// The time is stored as seconds since midnight, below one day, and a
/// nanosecond fraction. A fraction of one second or more marks a leap
/// second: the stored second is stretched to two, so `23:59:59` with a
/// fraction of 1.5 seconds reads as `23:59:60.5`.
#[derive(PartialEq, Eq, Hash, PartialOrd, Ord, Copy, Clone, Debug, Structural)]
pub struct NaiveTime {
    /// Seconds since midnight, always below 86 400.
    pub secs: u32,
    /// Nanoseconds since the start of the stored second, below two seconds;
    /// one second or more marks a leap second.
    pub frac: u32,
}

/// The time as a count of nanoseconds since midnight, where a leap-second
/// fraction keeps counting linearly through the stretched second.
pub open spec fn time_repr(t: NaiveTime) -> int {
    t.secs * 1_000_000_000 + t.frac
}

impl NaiveTime {
    /// The representation invariant: the second of day is below one day and
    /// the fraction below two seconds.
    pub open spec fn wf(self) -> bool {
        &&& self.secs < 86_400
        &&& self.frac < 2_000_000_000
    }

    /// Midnight, the smallest time of day.
    pub fn min_value() -> (r: NaiveTime)
        ensures
            r.wf(),
            r.secs == 0,
            r.frac == 0,
    {
        NaiveTime { secs: 0, frac: 0 }
    }

    /// The last representable instant of a day without a leap second,
    /// `23:59:59.999999999`.
    pub fn max_value() -> (r: NaiveTime)
        ensures
            r.wf(),
            r.secs == 86_399,
            r.frac == 999_999_999,
    {
        NaiveTime { secs: 86_399, frac: 999_999_999 }
    }

    /// Makes a new time of day from hour, minute and second. Fails with
    /// [`Error::InvalidArgument`] when any part lies outside its range.
    pub fn from_hms(hour: u32, min: u32, sec: u32) -> (r: Result<NaiveTime, Error>)
        ensures
            hour < 24 && min < 60 && sec < 60 ==> (r matches Ok(t) && t.wf() && t.secs == hour
                * 3600 + min * 60 + sec && t.frac == 0),
            !(hour < 24 && min < 60 && sec < 60) ==> r == Err::<NaiveTime, Error>(
                Error::InvalidArgument,
            ),
    {
        NaiveTime::from_hms_nano(hour, min, sec, 0)
    }

    /// Makes a new time of day from hour, minute, second and millisecond.
    /// A millisecond part of one second or more (below two) marks a leap
    /// second. Fails with [`Error::InvalidArgument`] when any part lies
    /// outside its range.
    pub fn from_hms_milli(hour: u32, min: u32, sec: u32, milli: u32) -> (r: Result<
        NaiveTime,
        Error,
    >)
        ensures
            hour < 24 && min < 60 && sec < 60 && milli < 2000 ==> (r matches Ok(t) && t.wf()
                && t.secs == hour * 3600 + min * 60 + sec && t.frac == milli * 1_000_000),
            !(hour < 24 && min < 60 && sec < 60 && milli < 2000) ==> r == Err::<NaiveTime, Error>(
                Error::InvalidArgument,
            ),
    {
        if milli >= 2000 {
            return Err(Error::InvalidArgument);
        }
        NaiveTime::from_hms_nano(hour, min, sec, milli * 1_000_000)
    }

    /// Makes a new time of day from hour, minute, second and microsecond.
    /// A microsecond part of one second or more (below two) marks a leap
    /// second. Fails with [`Error::InvalidArgument`] when any part lies
    /// outside its range.
    pub fn from_hms_micro(hour: u32, min: u32, sec: u32, micro: u32) -> (r: Result<
        NaiveTime,
        Error,
    >)
        ensures
            hour < 24 && min < 60 && sec < 60 && micro < 2_000_000 ==> (r matches Ok(t) && t.wf()
                && t.secs == hour * 3600 + min * 60 + sec && t.frac == micro * 1000),
            !(hour < 24 && min < 60 && sec < 60 && micro < 2_000_000) ==> r == Err::<
                NaiveTime,
                Error,
            >(Error::InvalidArgument),
    {
        if micro >= 2_000_000 {
            return Err(Error::InvalidArgument);
        }
        NaiveTime::from_hms_nano(hour, min, sec, micro * 1000)
    }

    /// Makes a new time of day from hour, minute, second and nanosecond. A
    /// nanosecond part of one second or more (below two) marks a leap
    /// second. Fails with [`Error::InvalidArgument`] when any part lies
    /// outside its range.
    pub fn from_hms_nano(hour: u32, min: u32, sec: u32, nano: u32) -> (r: Result<NaiveTime, Error>)
        ensures
            hour < 24 && min < 60 && sec < 60 && nano < 2_000_000_000 ==> (r matches Ok(t)
                && t.wf() && t.secs == hour * 3600 + min * 60 + sec && t.frac == nano),
            !(hour < 24 && min < 60 && sec < 60 && nano < 2_000_000_000) ==> r == Err::<
                NaiveTime,
                Error,
            >(Error::InvalidArgument),
    {
        if hour >= 24 || min >= 60 || sec >= 60 || nano >= 2_000_000_000 {
            return Err(Error::InvalidArgument);
        }
        Ok(NaiveTime { secs: hour * 3600 + min * 60 + sec, frac: nano })
    }

    /// Returns the hour number from 0 to 23.
    pub fn hour(&self) -> (r: u32)
        requires
            self.wf(),
        ensures
            r == self.secs / 3600,
    {
        self.secs / 3600
    }

    /// Returns the minute number from 0 to 59.
    pub fn minute(&self) -> (r: u32)
        requires
            self.wf(),
        ensures
            r == (self.secs / 60) % 60,
    {
        (self.secs / 60) % 60
    }

    /// Returns the second number from 0 to 59. A leap second shows as 59
    /// here, with the overflow carried by [`NaiveTime::nanosecond`].
    pub fn second(&self) -> (r: u32)
        requires
            self.wf(),
        ensures
            r == self.secs % 60,
    {
        self.secs % 60
    }

    /// Returns the number of nanoseconds since the whole non-leap second.
    /// A value of one billion or more marks a leap second.
    pub fn nanosecond(&self) -> (r: u32)
        ensures
            r == self.frac,
    {
        self.frac
    }

    /// Replaces the hour number. Fails with [`Error::InvalidArgument`] for
    /// an hour of 24 or more.
    pub fn with_hour(self, hour: u32) -> (r: Result<NaiveTime, Error>)
        requires
            self.wf(),
        ensures
            hour < 24 ==> (r matches Ok(t) && t.wf() && t.secs == hour * 3600 + self.secs % 3600
                && t.frac == self.frac),
            hour >= 24 ==> r == Err::<NaiveTime, Error>(Error::InvalidArgument),
    {
        if hour >= 24 {
            return Err(Error::InvalidArgument);
        }
        Ok(NaiveTime { secs: hour * 3600 + self.secs % 3600, frac: self.frac })
    }

    /// Replaces the minute number. Fails with [`Error::InvalidArgument`]
    /// for a minute of 60 or more.
    pub fn with_minute(self, min: u32) -> (r: Result<NaiveTime, Error>)
        requires
            self.wf(),
        ensures
            min < 60 ==> (r matches Ok(t) && t.wf() && t.secs == (self.secs / 3600) * 3600 + min
                * 60 + self.secs % 60 && t.frac == self.frac),
            min >= 60 ==> r == Err::<NaiveTime, Error>(Error::InvalidArgument),
    {
        if min >= 60 {
            return Err(Error::InvalidArgument);
        }
        Ok(NaiveTime { secs: (self.secs / 3600) * 3600 + min * 60 + self.secs % 60, frac: self.frac })
    }

    /// Replaces the second number. Fails with [`Error::InvalidArgument`]
    /// for a second of 60 or more; a leap second is expressed through
    /// [`NaiveTime::with_nanosecond`] instead.
    pub fn with_second(self, sec: u32) -> (r: Result<NaiveTime, Error>)
        requires
            self.wf(),
        ensures
            sec < 60 ==> (r matches Ok(t) && t.wf() && t.secs == (self.secs / 60) * 60 + sec
                && t.frac == self.frac),
            sec >= 60 ==> r == Err::<NaiveTime, Error>(Error::InvalidArgument),
    {
        if sec >= 60 {
            return Err(Error::InvalidArgument);
        }
        Ok(NaiveTime { secs: (self.secs / 60) * 60 + sec, frac: self.frac })
    }

    /// Replaces the nanoseconds since the whole non-leap second; a value of
    /// one billion or more (below two) marks a leap second. Fails with
    /// [`Error::InvalidArgument`] for two seconds or more.
    pub fn with_nanosecond(self, nano: u32) -> (r: Result<NaiveTime, Error>)
        requires
            self.wf(),
        ensures
            nano < 2_000_000_000 ==> (r matches Ok(t) && t.wf() && t.secs == self.secs && t.frac
                == nano),
            nano >= 2_000_000_000 ==> r == Err::<NaiveTime, Error>(Error::InvalidArgument),
    {
        if nano >= 2_000_000_000 {
            return Err(Error::InvalidArgument);
        }
        Ok(NaiveTime { secs: self.secs, frac: nano })
    }

    /// The exact signed duration since another time of day, counting any
    /// leap-second fraction linearly.
    pub fn signed_duration_since(self, rhs: NaiveTime) -> (r: TimeDelta)
        requires
            self.wf(),
            rhs.wf(),
        ensures
            r.wf(),
            r@ == time_repr(self) - time_repr(rhs),
    {
        let total: i64 = (self.secs as i64 - rhs.secs as i64) * 1_000_000_000 + (self.frac as i64
            - rhs.frac as i64);
        let (q, m) = crate::time_delta::div_mod_floor_64(total, 1_000_000_000);
        proof {
            vstd::arithmetic::div_mod::lemma_fundamental_div_mod(total as int, 1_000_000_000);
        }
        TimeDelta { secs: q, nanos: m as i32 }
    }

    /// Adds a signed duration, wrapping around midnight; the second
    /// component of the pair carries the wrapped whole days as seconds
    /// (a multiple of 86 400, negative for wrapping backward).
    ///
    /// A time inside a leap second stays inside it as long as the result
    /// fits; otherwise the inserted second is crossed like a real one, so
    /// moving past it absorbs one second of the duration.
    pub fn overflowing_add_signed(self, rhs: TimeDelta) -> (r: (NaiveTime, i64))
        requires
            self.wf(),
            rhs.wf(),
        ensures
            r.0.wf(),
            r.1 % 86_400 == 0,
            (self.frac >= 1_000_000_000 && -(self.frac as int) <= rhs@ && rhs@ < 2_000_000_000
                - self.frac) ==> (r.0.secs == self.secs && r.0.frac == self.frac + rhs@ && r.1
                == 0),
            !(self.frac >= 1_000_000_000 && -(self.frac as int) <= rhs@ && rhs@ < 2_000_000_000
                - self.frac) ==> r.0.frac < 1_000_000_000,
            r.0.secs * 1_000_000_000 + r.0.frac + r.1 * 1_000_000_000 == self.secs
                * 1_000_000_000 + self.frac + rhs@ - (if self.frac >= 1_000_000_000 && rhs@
                >= 2_000_000_000 - self.frac {
                1_000_000_000int
            } else {
                0int
            }),
    {
        let mut secs1: u32 = self.secs;
        let mut frac1: u32 = self.frac;
        let mut rhs2: TimeDelta = rhs;
        if frac1 >= 1_000_000_000 {
            // The time lies inside a leap second: either stay inside it, or
            // leave it and absorb the inserted second.
            let rfe: u32 = 2_000_000_000 - frac1;
            let rsecs = rhs.num_seconds();
            let rfrac = rhs.subsec_nanos();
            proof {
                crate::time_delta::lemma_div_trunc_props(rhs@, 1_000_000_000);
            }
            let forward: bool = if rsecs > 0 {
                true
            } else if rsecs < 0 {
                false
            } else {
                rfrac >= rfe as i32
            };
            if forward {
                rhs2 = match rhs.checked_sub(TimeDelta::nanoseconds(rfe as i64)) {
                    Some(d) => d,
                    None => {
                        proof {
                            assert(false);
                        }
                        rhs
                    },
                };
                secs1 = secs1 + 1;
                frac1 = 0;
            } else {
                let backward: bool = if rsecs <= -3 {
                    true
                } else {
                    let small: i64 = rsecs * 1_000_000_000 + rfrac as i64;
                    small < -(frac1 as i64)
                };
                if backward {
                    rhs2 = match rhs.checked_add(TimeDelta::nanoseconds(frac1 as i64)) {
                        Some(d) => d,
                        None => {
                            proof {
                                assert(false);
                            }
                            rhs
                        },
                    };
                    frac1 = 0;
                } else {
                    let small: i64 = rsecs * 1_000_000_000 + rfrac as i64;
                    let nf = (frac1 as i64 + small) as u32;
                    return (NaiveTime { secs: secs1, frac: nf }, 0);
                }
            }
        }
        let ghost adj: int = if self.frac >= 1_000_000_000 && rhs@ >= 2_000_000_000 - self.frac {
            1_000_000_000int
        } else {
            0int
        };
        proof {
            assert(secs1 * 1_000_000_000 + frac1 + rhs2@ == self.secs * 1_000_000_000 + self.frac
                + rhs@ - adj);
            assert(secs1 == 86_400 ==> frac1 == 0 && rhs2@ >= 0);
        }
        let r2secs = rhs2.num_seconds();
        let r2frac = rhs2.subsec_nanos();
        proof {
            crate::time_delta::lemma_div_trunc_props(rhs2@, 1_000_000_000);
            crate::time_delta::lemma_div_trunc_props(r2secs as int, 86_400);
        }
        let q = crate::time_delta::div_trunc_i64(r2secs, 86_400);
        let rhssecsinday = r2secs - q * 86_400;
        let morerhssecs = q * 86_400;
        let mut secs2: i64 = secs1 as i64 + rhssecsinday;
        let mut frac2: i64 = frac1 as i64 + r2frac as i64;
        let mut carry: i64 = morerhssecs;
        let ghost qfinal: int = q as int;
        if frac2 < 0 {
            frac2 = frac2 + 1_000_000_000;
            secs2 = secs2 - 1;
        } else if frac2 >= 1_000_000_000 {
            frac2 = frac2 - 1_000_000_000;
            secs2 = secs2 + 1;
        }
        let ghost qadj: int = if secs2 < 0 {
            qfinal - 1
        } else if secs2 >= 86_400 {
            qfinal + 1
        } else {
            qfinal
        };
        if secs2 < 0 {
            secs2 = secs2 + 86_400;
            carry = carry - 86_400;
        } else if secs2 >= 86_400 {
            secs2 = secs2 - 86_400;
            carry = carry + 86_400;
        }
        proof {
            assert(carry == qadj * 86_400);
            vstd::arithmetic::div_mod::lemma_mod_multiples_basic(qadj, 86_400);
        }
        (NaiveTime { secs: secs2 as u32, frac: frac2 as u32 }, carry)
    }

    /// Subtracts a signed duration, wrapping around midnight; the second
    /// component of the pair carries the wrapped whole days as seconds,
    /// counted positively when the time wrapped backward, so that the
    /// caller subtracts it from the date part as well.
    pub fn overflowing_sub_signed(self, rhs: TimeDelta) -> (r: (NaiveTime, i64))
        requires
            self.wf(),
            rhs.wf(),
        ensures
            r.0.wf(),
            r.1 % 86_400 == 0,
            (self.frac >= 1_000_000_000 && -(self.frac as int) <= -rhs@ && -rhs@ < 2_000_000_000
                - self.frac) ==> (r.0.secs == self.secs && r.0.frac == self.frac - rhs@ && r.1
                == 0),
            !(self.frac >= 1_000_000_000 && -(self.frac as int) <= -rhs@ && -rhs@ < 2_000_000_000
                - self.frac) ==> r.0.frac < 1_000_000_000,
            r.0.secs * 1_000_000_000 + r.0.frac - r.1 * 1_000_000_000 == self.secs
                * 1_000_000_000 + self.frac - rhs@ - (if self.frac >= 1_000_000_000 && -rhs@
                >= 2_000_000_000 - self.frac {
                1_000_000_000int
            } else {
                0int
            }),
    {
        let (t, carry) = self.overflowing_add_signed(rhs.neg());
        (t, -carry)
    }

    /// Shifts the time by a fixed offset, wrapping around midnight; the
    /// second component of the pair carries the wrapped day, always -1, 0
    /// or 1. Any leap-second fraction is preserved unchanged.
    pub fn overflowing_add_offset(self, offset: FixedOffset) -> (r: (NaiveTime, i32))
        requires
            self.wf(),
            offset.wf(),
        ensures
            r.0.wf(),
            r.0.frac == self.frac,
            -1 <= r.1 <= 1,
            r.0.secs + r.1 * 86_400 == self.secs + offset.local_minus_utc,
    {
        let secs = self.secs as i32 + offset.local_minus_utc;
        if secs >= 86_400 {
            (NaiveTime { secs: (secs - 86_400) as u32, frac: self.frac }, 1)
        } else if secs < 0 {
            (NaiveTime { secs: (secs + 86_400) as u32, frac: self.frac }, -1)
        } else {
            (NaiveTime { secs: secs as u32, frac: self.frac }, 0)
        }
    }

    /// Shifts the time backward by a fixed offset, wrapping around
    /// midnight, as [`NaiveTime::overflowing_add_offset`] does for the
    /// negated offset.
    pub fn overflowing_sub_offset(self, offset: FixedOffset) -> (r: (NaiveTime, i32))
        requires
            self.wf(),
            offset.wf(),
        ensures
            r.0.wf(),
            r.0.frac == self.frac,
            -1 <= r.1 <= 1,
            r.0.secs + r.1 * 86_400 == self.secs - offset.local_minus_utc,
    {
        let secs = self.secs as i32 - offset.local_minus_utc;
        if secs >= 86_400 {
            (NaiveTime { secs: (secs - 86_400) as u32, frac: self.frac }, 1)
        } else if secs < 0 {
            (NaiveTime { secs: (secs + 86_400) as u32, frac: self.frac }, -1)
        } else {
            (NaiveTime { secs: secs as u32, frac: self.frac }, 0)
        }
    }
}

} // verus!
