//! The months of the year, and month-counted durations.

use vstd::prelude::*;

verus! {

/// The month of the year.
///
/// Maps between month names and month-of-year numbers from 1 (January) to
/// 12 (December).
#[derive(PartialEq, Eq, Copy, Clone, Debug, Hash, Structural)]
pub enum Month {
    /// January
    January,
    /// February
    February,
    /// March
    March,
    /// April
    April,
    /// May
    May,
    /// June
    June,
    /// July
    July,
    /// August
    August,
    /// September
    September,
    /// October
    October,
    /// November
    November,
    /// December
    December,
}

/// The month-of-year number of `m`, from 1 for January to 12 for December.
pub open spec fn month_number(m: Month) -> int {
    match m {
        Month::January => 1,
        Month::February => 2,
        Month::March => 3,
        Month::April => 4,
        Month::May => 5,
        Month::June => 6,
        Month::July => 7,
        Month::August => 8,
        Month::September => 9,
        Month::October => 10,
        Month::November => 11,
        Month::December => 12,
    }
}

impl Month {
    /// The next month, wrapping from December back to January.
    pub fn succ(&self) -> (r: Month)
        ensures
            month_number(r) == if month_number(*self) == 12 {
                1int
            } else {
                month_number(*self) + 1
            },
    {
        match *self {
            Month::January => Month::February,
            Month::February => Month::March,
            Month::March => Month::April,
            Month::April => Month::May,
            Month::May => Month::June,
            Month::June => Month::July,
            Month::July => Month::August,
            Month::August => Month::September,
            Month::September => Month::October,
            Month::October => Month::November,
            Month::November => Month::December,
            Month::December => Month::January,
        }
    }

    /// The previous month, wrapping from January back to December.
    pub fn pred(&self) -> (r: Month)
        ensures
            month_number(r) == if month_number(*self) == 1 {
                12int
            } else {
                month_number(*self) - 1
            },
    {
        match *self {
            Month::January => Month::December,
            Month::February => Month::January,
            Month::March => Month::February,
            Month::April => Month::March,
            Month::May => Month::April,
            Month::June => Month::May,
            Month::July => Month::June,
            Month::August => Month::July,
            Month::September => Month::August,
            Month::October => Month::September,
            Month::November => Month::October,
            Month::December => Month::November,
        }
    }

    /// Returns the month-of-year number starting from January = 1.
    pub fn number_from_month(&self) -> (r: u8)
        ensures
            r == month_number(*self),
    {
        match *self {
            Month::January => 1,
            Month::February => 2,
            Month::March => 3,
            Month::April => 4,
            Month::May => 5,
            Month::June => 6,
            Month::July => 7,
            Month::August => 8,
            Month::September => 9,
            Month::October => 10,
            Month::November => 11,
            Month::December => 12,
        }
    }

    /// The English name of the month.
    pub fn name(&self) -> (r: &'static str)
        ensures
            r@ == month_name(*self),
    {
        match *self {
            Month::January => "January",
            Month::February => "February",
            Month::March => "March",
            Month::April => "April",
            Month::May => "May",
            Month::June => "June",
            Month::July => "July",
            Month::August => "August",
            Month::September => "September",
            Month::October => "October",
            Month::November => "November",
            Month::December => "December",
        }
    }

    /// The month with the number `val`, from 1 for January to 12 for
    /// December, or `None` for any other number.
    pub fn try_from_u8(val: u8) -> (r: Option<Month>)
        ensures
            1 <= val <= 12 ==> (r matches Some(m) && month_number(m) == val),
            !(1 <= val <= 12) ==> r is None,
    {
        match val {
            1 => Some(Month::January),
            2 => Some(Month::February),
            3 => Some(Month::March),
            4 => Some(Month::April),
            5 => Some(Month::May),
            6 => Some(Month::June),
            7 => Some(Month::July),
            8 => Some(Month::August),
            9 => Some(Month::September),
            10 => Some(Month::October),
            11 => Some(Month::November),
            12 => Some(Month::December),
            _ => None,
        }
    }

    /// The month with the number `val`, as [`Month::try_from_u8`] but over
    /// the wider unsigned domain.
    pub fn try_from_u16(val: u16) -> (r: Option<Month>)
        ensures
            1 <= val <= 12 ==> (r matches Some(m) && month_number(m) == val),
            !(1 <= val <= 12) ==> r is None,
    {
        if val >= 1 && val <= 12 {
            Month::try_from_u8(val as u8)
        } else {
            None
        }
    }

    /// The month with the number `val`, as [`Month::try_from_u8`] but over
    /// a signed domain.
    pub fn try_from_i16(val: i16) -> (r: Option<Month>)
        ensures
            1 <= val <= 12 ==> (r matches Some(m) && month_number(m) == val),
            !(1 <= val <= 12) ==> r is None,
    {
        if val >= 1 && val <= 12 {
            Month::try_from_u8(val as u8)
        } else {
            None
        }
    }
}

/// The English name of `m` as a character sequence.
pub open spec fn month_name(m: Month) -> Seq<char> {
    match m {
        Month::January => "January"@,
        Month::February => "February"@,
        Month::March => "March"@,
        Month::April => "April"@,
        Month::May => "May"@,
        Month::June => "June"@,
        Month::July => "July"@,
        Month::August => "August"@,
        Month::September => "September"@,
        Month::October => "October"@,
        Month::November => "November"@,
        Month::December => "December"@,
    }
}

/// A duration in whole calendar months.
#[derive(Clone, Copy, Debug, Eq, Hash, PartialEq, PartialOrd, Ord, Structural)]
pub struct Months(pub u32);

impl Months {
    /// Constructs a new `Months` from a number of months.
    pub fn new(num: u32) -> (r: Months)
        ensures
            r.0 == num,
    {
        Months(num)
    }
}

/// A duration in whole calendar days.
#[derive(Clone, Copy, Debug, Eq, Hash, PartialEq, PartialOrd, Ord, Structural)]
pub struct Days(pub u64);

impl Days {
    /// Constructs a new `Days` from a number of days.
    pub fn new(num: u64) -> (r: Days)
        ensures
            r.0 == num,
    {
        Days(num)
    }
}

/// The error left behind when a month name cannot be read.
#[derive(Clone, Copy, PartialEq, Eq, Debug, Structural)]
pub struct ParseMonthError;

} // verus!
