//! Multi-unit durations mixing nominal and accurate components.

use vstd::prelude::*;

verus! {

/// The lowest minute count that does not fit the packed encoding: `2^56`.
pub const MINUTES_LIMIT: u64 = 0x100_0000_0000_0000;

/// The lowest seconds-only count that does not fit the packed encoding:
/// `2^62`.
pub const SECONDS_LIMIT: u64 = 0x4000_0000_0000_0000;

/// The packed word holding minutes and up to 60 seconds, or a plain seconds
/// count.
///
/// A large seconds count is mutually exclusive with a minutes component: if
/// minutes are present the seconds are limited to 60 (a value of exactly 60
/// leaves room for one leap second).
///
/// The encoding keeps the word nonzero so that an empty duration is still
/// distinguishable:
/// - seconds only: `seconds << 2 | 0b10`
/// - minutes and up to 60 seconds: `minutes << 8 | seconds << 2 | 0b11`
///
/// A value built from zero minutes and some seconds uses the seconds-only
/// encoding, so equal component pairs built that way compare equal.
#[derive(Clone, Copy, PartialEq, Eq, Hash, Debug, Structural)]
pub struct MinutesAndSeconds(pub u64);

/// The packed word `e` is one of the two legal encodings.
pub open spec fn ms_wf(e: u64) -> bool {
    &&& e & 0b10 == 0b10
    &&& (e & 0b01 == 0b01 ==> (e >> 8) > 0 && ((e >> 2) & 0x3f) <= 60)
}

/// The minutes component packed in `e`.
pub open spec fn ms_mins(e: u64) -> u64 {
    if e & 0b01 == 0 {
        0
    } else {
        e >> 8
    }
}

/// The seconds component packed in `e`.
pub open spec fn ms_secs(e: u64) -> u64 {
    if e & 0b01 == 0 {
        e >> 2
    } else {
        (e >> 2) & 0x3f
    }
}

/// The packed word for `mins` minutes and `secs` seconds; seconds-only when
/// `mins` is zero.
pub open spec fn ms_encode(mins: u64, secs: u64) -> u64 {
    if mins == 0 {
        secs << 2 | 0b10
    } else {
        mins << 8 | secs << 2 | 0b11
    }
}

/// Packing minutes and seconds within their limits and unpacking them again
/// returns exactly the original pair, and the packed word is a legal
/// encoding.
pub proof fn lemma_ms_encode_round_trip(mins: u64, secs: u64)
    requires
        mins < MINUTES_LIMIT,
        secs <= 60 || (mins == 0 && secs < SECONDS_LIMIT),
    ensures
        ms_wf(ms_encode(mins, secs)),
        ms_mins(ms_encode(mins, secs)) == mins,
        ms_secs(ms_encode(mins, secs)) == secs,
{
    if mins == 0 {
        assert((secs << 2 | 0b10) & 0b10 == 0b10 && (secs << 2 | 0b10) & 0b01 == 0 && ((secs
            << 2 | 0b10) >> 2) == secs) by (bit_vector)
            requires
                secs < 0x4000_0000_0000_0000u64,
        ;
    } else {
        let e = mins << 8 | secs << 2 | 0b11;
        assert(e & 0b10 == 0b10 && e & 0b01 == 0b01 && (e >> 8) == mins && ((e >> 2) & 0x3f)
            == secs) by (bit_vector)
            requires
                e == mins << 8 | secs << 2 | 0b11,
                0 < mins < 0x100_0000_0000_0000u64,
                secs <= 60,
        ;
    }
}

impl MinutesAndSeconds {
    /// Packs a plain seconds count, which fails when it needs more than 62
    /// bits.
    pub fn from_seconds(secs: u64) -> (r: Option<MinutesAndSeconds>)
        ensures
            secs < SECONDS_LIMIT ==> (r matches Some(m) && m.0 == ms_encode(0, secs) && ms_wf(
                m.0,
            ) && ms_mins(m.0) == 0 && ms_secs(m.0) == secs),
            secs >= SECONDS_LIMIT ==> r is None,
    {
        if secs >= SECONDS_LIMIT {
            return None;
        }
        proof {
            lemma_ms_encode_round_trip(0, secs);
        }
        Some(MinutesAndSeconds(secs << 2 | 0b10))
    }

    /// Packs minutes with up to 60 seconds, which fails when the minutes
    /// need more than 56 bits or the seconds exceed 60.
    pub fn from_minutes_and_seconds(mins: u64, secs: u64) -> (r: Option<MinutesAndSeconds>)
        ensures
            mins < MINUTES_LIMIT && secs <= 60 ==> (r matches Some(m) && m.0 == ms_encode(
                mins,
                secs,
            ) && ms_wf(m.0) && ms_mins(m.0) == mins && ms_secs(m.0) == secs),
            !(mins < MINUTES_LIMIT && secs <= 60) ==> r is None,
    {
        if mins >= MINUTES_LIMIT || secs > 60 {
            return None;
        }
        proof {
            lemma_ms_encode_round_trip(mins, secs);
        }
        if mins == 0 {
            Some(MinutesAndSeconds(secs << 2 | 0b10))
        } else {
            Some(MinutesAndSeconds(mins << 8 | secs << 2 | 0b11))
        }
    }

    /// Returns the packed minutes and seconds components.
    pub fn mins_and_secs(&self) -> (r: (u64, u64))
        ensures
            r.0 == ms_mins(self.0),
            r.1 == ms_secs(self.0),
    {
        let value = self.0;
        if value & 0b01 == 0 {
            (0, value >> 2)
        } else {
            (value >> 8, (value >> 2) & 0x3f)
        }
    }
}

/// Duration type capable of expressing a duration as a combination of
/// multiple units, compatible with the ISO 8601 notion of a duration.
///
/// The *months* and *days* components have a nominal length: how long they
/// are in seconds depends on the calendar stretch they are applied to. The
/// *minutes*, and *seconds and nanoseconds* components have an accurate
/// length; minutes are kept apart from seconds so that a minute may one day
/// count 59 or 61 seconds around a leap second, although both components
/// currently behave the same.
///
/// | component           | limit                    |
/// |---------------------|--------------------------|
/// | months              | `u32::MAX`               |
/// | days                | `u32::MAX`               |
/// | minutes and seconds | `2^56 - 1` and `60`      |
/// | seconds             | `2^62 - 1`               |
/// | nanoseconds         | `999_999_999`            |
#[derive(Clone, Copy, PartialEq, Eq, Hash, Debug, Structural)]
pub struct CalendarDuration {
    /// Whole calendar months; also expresses years.
    pub months: u32,
    /// Whole calendar days; also expresses weeks.
    pub days: u32,
    /// The packed accurate component: minutes plus seconds, or seconds only.
    pub mins_and_secs: MinutesAndSeconds,
    /// Nanoseconds below one second.
    pub nanos: u32,
}

impl CalendarDuration {
    /// The representation invariant: the packed word is a legal encoding and
    /// the nanoseconds stay below one second.
    pub open spec fn wf(self) -> bool {
        &&& ms_wf(self.mins_and_secs.0)
        &&& self.nanos < 1_000_000_000
    }

    /// The decoded minutes component.
    pub open spec fn spec_mins(self) -> u64 {
        ms_mins(self.mins_and_secs.0)
    }

    /// The decoded seconds component.
    pub open spec fn spec_secs(self) -> u64 {
        ms_secs(self.mins_and_secs.0)
    }

    /// Creates a new duration with every component zero.
    pub fn new() -> (r: CalendarDuration)
        ensures
            r.wf(),
            r.months == 0,
            r.days == 0,
            r.spec_mins() == 0,
            r.spec_secs() == 0,
            r.nanos == 0,
    {
        let ms = MinutesAndSeconds::from_seconds(0);
        CalendarDuration { months: 0, days: 0, mins_and_secs: ms.unwrap(), nanos: 0 }
    }

    /// Sets the months component of this duration to `months`.
    pub fn with_months(self, months: u32) -> (r: CalendarDuration)
        ensures
            r == (CalendarDuration { months, ..self }),
    {
        CalendarDuration { months, ..self }
    }

    /// Sets the days component of this duration to `days`.
    pub fn with_days(self, days: u32) -> (r: CalendarDuration)
        ensures
            r == (CalendarDuration { days, ..self }),
    {
        CalendarDuration { days, ..self }
    }

    /// Sets the accurate component of this duration to a value in hours,
    /// minutes and seconds, carried as `hours * 60 + minutes` minutes.
    ///
    /// Fails when `seconds` exceeds 60 (60 itself is allowed, leaving room
    /// for a leap second) or the minute total needs more than 56 bits.
    pub fn with_hms(self, hours: u64, minutes: u64, seconds: u8) -> (r: Option<CalendarDuration>)
        ensures
            hours * 60 + minutes < MINUTES_LIMIT && seconds <= 60 ==> (r matches Some(d)
                && d.months == self.months && d.days == self.days && d.nanos == self.nanos
                && d.spec_mins() == hours * 60 + minutes && d.spec_secs() == seconds && ms_wf(
                d.mins_and_secs.0,
            )),
            !(hours * 60 + minutes < MINUTES_LIMIT && seconds <= 60) ==> r is None,
    {
        let hour_mins = match hours.checked_mul(60) {
            Some(h) => h,
            None => {
                return None;
            },
        };
        let total = match hour_mins.checked_add(minutes) {
            Some(t) => t,
            None => {
                return None;
            },
        };
        match MinutesAndSeconds::from_minutes_and_seconds(total, seconds as u64) {
            Some(ms) => Some(CalendarDuration { mins_and_secs: ms, ..self }),
            None => None,
        }
    }

    /// Sets the accurate component of this duration to a plain seconds
    /// count, clearing the minutes component. Fails when the count needs
    /// more than 62 bits.
    pub fn with_seconds(self, seconds: u64) -> (r: Option<CalendarDuration>)
        ensures
            seconds < SECONDS_LIMIT ==> (r matches Some(d) && d.months == self.months && d.days
                == self.days && d.nanos == self.nanos && d.spec_mins() == 0 && d.spec_secs()
                == seconds && ms_wf(d.mins_and_secs.0)),
            seconds >= SECONDS_LIMIT ==> r is None,
    {
        match MinutesAndSeconds::from_seconds(seconds) {
            Some(ms) => Some(CalendarDuration { mins_and_secs: ms, ..self }),
            None => None,
        }
    }

    /// Sets the nanoseconds component of this duration to `nanos`, which
    /// fails when it is a second or more.
    pub fn with_nanos(self, nanos: u32) -> (r: Option<CalendarDuration>)
        ensures
            nanos < 1_000_000_000 ==> r == Some(CalendarDuration { nanos, ..self }),
            nanos >= 1_000_000_000 ==> r is None,
    {
        if nanos >= 1_000_000_000 {
            return None;
        }
        Some(CalendarDuration { nanos, ..self })
    }

    /// Returns the months component of this calendar duration.
    pub fn months(&self) -> (r: u32)
        ensures
            r == self.months,
    {
        self.months
    }

    /// Returns the days component of this calendar duration.
    pub fn days(&self) -> (r: u32)
        ensures
            r == self.days,
    {
        self.days
    }

    /// Returns the minutes and seconds components of this calendar
    /// duration.
    pub fn mins_and_secs(&self) -> (r: (u64, u64))
        ensures
            r.0 == self.spec_mins(),
            r.1 == self.spec_secs(),
    {
        self.mins_and_secs.mins_and_secs()
    }

    /// Returns the nanoseconds component of this calendar duration.
    pub fn nanos(&self) -> (r: u32)
        ensures
            r == self.nanos,
    {
        self.nanos
    }

    /// Returns `true` exactly when every component of this duration is
    /// zero. The two encodings of a zero accurate component are distinct
    /// words, so this decodes the components rather than comparing the word
    /// against a single sentinel.
    pub fn is_zero(&self) -> (r: bool)
        ensures
            r <==> (self.months == 0 && self.days == 0 && self.spec_mins() == 0
                && self.spec_secs() == 0 && self.nanos == 0),
    {
        let (mins, secs) = self.mins_and_secs();
        self.months == 0 && self.days == 0 && mins == 0 && secs == 0 && self.nanos == 0
    }
}

impl Default for CalendarDuration {
    /// The default duration spans no time.
    fn default() -> (r: CalendarDuration)
        ensures
            r.wf(),
            r.months == 0,
            r.days == 0,
            r.spec_mins() == 0,
            r.spec_secs() == 0,
            r.nanos == 0,
    {
        CalendarDuration::new()
    }
}

} // verus!
