//! A proleptic-Gregorian calendar and civil-time arithmetic library.
//!
//! The crate centres on three value types: [`TimeDelta`], a signed duration
//! with nanosecond precision bounded to `i64` milliseconds;
//! [`CalendarDuration`], a multi-unit duration mixing nominal (months, days)
//! and accurate (minutes, seconds, nanoseconds) components; and
//! [`NaiveDateTime`], a timezone-less combination of a calendar date and a
//! leap-second-aware time of day. All arithmetic is overflow-checked and
//! every operation is a pure function from values to a new value or an error.

use vstd::prelude::*;

pub mod calendar_duration;
pub mod date;
pub mod datetime;
pub mod month;
pub mod offset;
pub mod time;
pub mod time_delta;

pub use calendar_duration::CalendarDuration;
pub use date::NaiveDate;
pub use datetime::NaiveDateTime;
pub use offset::FixedOffset;
pub use time::NaiveTime;
pub use month::{Days, Month, Months, ParseMonthError};
pub use time_delta::OutOfRangeError;
pub use time_delta::TimeDelta;

verus! {

/// The error cases shared by the fallible operations of this crate.
#[derive(Clone, Copy, Debug, PartialEq, Eq, Structural)]
pub enum Error {
    /// A value or an arithmetic result falls outside the representable range.
    OutOfRange,
    /// A structurally malformed argument, such as a nanosecond count of a
    /// second or more, or a thirteenth month.
    InvalidArgument,
    /// The requested calendar date does not exist, such as February 30.
    DoesNotExist,
}

} // verus!
