use civiltime::{CalendarDuration, Days, Error, FixedOffset, Month, Months, NaiveDate, NaiveDateTime, TimeDelta};

fn ymd(y: i32, m: u32, d: u32) -> NaiveDate {
    NaiveDate::from_ymd(y, m, d).unwrap()
}

#[test]
fn new_round_trips_through_accessors() {
    // A non-negative duration reads back its parts directly.
    let d = TimeDelta::new(12, 345_678_901).unwrap();
    assert_eq!(d.num_seconds(), 12);
    assert_eq!(d.subsec_nanos(), 345_678_901);
    // A negative duration truncates toward zero, but the parts always
    // recombine into the exact value.
    let d = TimeDelta::new(-3, 250_000_000).unwrap();
    assert_eq!(d.num_seconds(), -2);
    assert_eq!(d.subsec_nanos(), -750_000_000);
    assert_eq!(
        d.subsec_nanos() as i64 + d.num_seconds() * 1_000_000_000,
        -3 * 1_000_000_000 + 250_000_000
    );
    let d = TimeDelta::new(-3, 0).unwrap();
    assert_eq!(d.num_seconds(), -3);
    assert_eq!(d.subsec_nanos(), 0);
}

#[test]
fn new_rejects_bad_arguments() {
    assert_eq!(TimeDelta::new(0, 1_000_000_000), Err(Error::InvalidArgument));
    assert_eq!(TimeDelta::new(i64::MAX, 0), Err(Error::OutOfRange));
    assert_eq!(TimeDelta::new(i64::MIN, 0), Err(Error::OutOfRange));
    assert_eq!(TimeDelta::milliseconds(i64::MIN), Err(Error::OutOfRange));
    assert!(TimeDelta::new(9_223_372_036_854_775, 807_000_000).is_ok());
    assert_eq!(TimeDelta::new(9_223_372_036_854_775, 807_000_001), Err(Error::OutOfRange));
}

#[test]
fn negation_is_an_involution() {
    let cases: [TimeDelta; 5] = [
        TimeDelta::zero(),
        TimeDelta::milliseconds(-1300).unwrap(),
        TimeDelta::nanoseconds(1),
        TimeDelta::max_value(),
        TimeDelta::min_value(),
    ];
    for d in cases {
        assert_eq!(d.neg().neg(), d);
        assert_eq!(d.abs(), d.neg().abs());
    }
    assert_eq!(TimeDelta::max_value().neg(), TimeDelta::min_value());
}

#[test]
fn calendar_duration_zero_encodings_agree() {
    let by_default = CalendarDuration::new();
    let by_seconds = CalendarDuration::new().with_seconds(0).unwrap();
    assert_eq!(by_default.mins_and_secs(), (0, 0));
    assert_eq!(by_seconds.mins_and_secs(), (0, 0));
    assert_eq!(by_default, by_seconds);
    assert!(by_seconds.is_zero());
    // Zero written as minutes-and-seconds decodes to the same components.
    let by_hms = CalendarDuration::new().with_hms(0, 0, 0).unwrap();
    assert_eq!(by_hms.mins_and_secs(), (0, 0));
    assert!(by_hms.is_zero());
}

#[test]
fn calendar_duration_rejects_out_of_range_components() {
    assert!(CalendarDuration::new().with_hms(0, 0, 61).is_none());
    assert!(CalendarDuration::new().with_hms(0, 1 << 56, 0).is_none());
    assert!(CalendarDuration::new().with_hms(u64::MAX, 0, 0).is_none());
    assert!(CalendarDuration::new().with_seconds(1 << 62).is_none());
    assert!(CalendarDuration::new().with_nanos(1_000_000_000).is_none());
    assert!(CalendarDuration::new().with_seconds((1 << 62) - 1).is_some());
    assert!(CalendarDuration::new().with_hms(0, (1 << 56) - 1, 60).is_some());
}

#[test]
fn calendar_duration_large_round_trip() {
    let d = CalendarDuration::new().with_hms(0, (1 << 56) - 1, 60).unwrap();
    assert_eq!(d.mins_and_secs(), ((1 << 56) - 1, 60));
    let d = CalendarDuration::new().with_seconds((1 << 62) - 1).unwrap();
    assert_eq!(d.mins_and_secs(), (0, (1 << 62) - 1));
}

#[test]
fn leap_second_arithmetic() {
    let d = ymd(2016, 7, 8);
    let hmsm = |h: u32, m: u32, s: u32, milli: u32| d.and_hms_milli(h, m, s, milli).unwrap();
    // A time 300 ms into the leap second 03:05:60.
    let leap = hmsm(3, 5, 59, 1_300);

    assert_eq!(leap.checked_add_signed(TimeDelta::zero()).unwrap(), hmsm(3, 5, 59, 1_300));
    assert_eq!(
        leap.checked_add_signed(TimeDelta::milliseconds(-500).unwrap()).unwrap(),
        hmsm(3, 5, 59, 800)
    );
    assert_eq!(
        leap.checked_add_signed(TimeDelta::milliseconds(500).unwrap()).unwrap(),
        hmsm(3, 5, 59, 1_800)
    );
    assert_eq!(
        leap.checked_add_signed(TimeDelta::milliseconds(800).unwrap()).unwrap(),
        hmsm(3, 6, 0, 100)
    );
    assert_eq!(leap.checked_add_signed(TimeDelta::seconds(10)).unwrap(), hmsm(3, 6, 9, 300));
    assert_eq!(leap.checked_add_signed(TimeDelta::seconds(-10)).unwrap(), hmsm(3, 5, 50, 300));
    assert_eq!(
        leap.checked_add_signed(TimeDelta::days(1)).unwrap(),
        ymd(2016, 7, 9).and_hms_milli(3, 5, 59, 300).unwrap()
    );

    assert_eq!(leap.checked_sub_signed(TimeDelta::zero()).unwrap(), hmsm(3, 5, 59, 1_300));
    assert_eq!(
        leap.checked_sub_signed(TimeDelta::milliseconds(200).unwrap()).unwrap(),
        hmsm(3, 5, 59, 1_100)
    );
    assert_eq!(
        leap.checked_sub_signed(TimeDelta::milliseconds(500).unwrap()).unwrap(),
        hmsm(3, 5, 59, 800)
    );
    assert_eq!(leap.checked_sub_signed(TimeDelta::seconds(60)).unwrap(), hmsm(3, 5, 0, 300));
    assert_eq!(
        leap.checked_sub_signed(TimeDelta::days(1)).unwrap(),
        ymd(2016, 7, 7).and_hms_milli(3, 6, 0, 300).unwrap()
    );
}

#[test]
fn checked_add_signed_examples() {
    let d = ymd(2016, 7, 8);
    let hms = |h: u32, m: u32, s: u32| d.and_hms(h, m, s).unwrap();
    assert_eq!(hms(3, 5, 7).checked_add_signed(TimeDelta::zero()).unwrap(), hms(3, 5, 7));
    assert_eq!(hms(3, 5, 7).checked_add_signed(TimeDelta::seconds(1)).unwrap(), hms(3, 5, 8));
    assert_eq!(hms(3, 5, 7).checked_add_signed(TimeDelta::seconds(-1)).unwrap(), hms(3, 5, 6));
    assert_eq!(
        hms(3, 5, 7).checked_add_signed(TimeDelta::seconds(3600 + 60)).unwrap(),
        hms(4, 6, 7)
    );
    assert_eq!(
        hms(3, 5, 7).checked_add_signed(TimeDelta::seconds(86_400)).unwrap(),
        ymd(2016, 7, 9).and_hms(3, 5, 7).unwrap()
    );
    assert_eq!(
        d.and_hms_milli(3, 5, 7, 980).unwrap()
            .checked_add_signed(TimeDelta::milliseconds(450).unwrap())
            .unwrap(),
        d.and_hms_milli(3, 5, 8, 430).unwrap()
    );
    assert_eq!(
        hms(3, 5, 7).checked_add_signed(TimeDelta::days(1_000_000_000)),
        Err(Error::OutOfRange)
    );
}

#[test]
fn checked_sub_signed_examples() {
    let d = ymd(2016, 7, 8);
    let hms = |h: u32, m: u32, s: u32| d.and_hms(h, m, s).unwrap();
    assert_eq!(hms(3, 5, 7).checked_sub_signed(TimeDelta::zero()).unwrap(), hms(3, 5, 7));
    assert_eq!(hms(3, 5, 7).checked_sub_signed(TimeDelta::seconds(1)).unwrap(), hms(3, 5, 6));
    assert_eq!(hms(3, 5, 7).checked_sub_signed(TimeDelta::seconds(-1)).unwrap(), hms(3, 5, 8));
    assert_eq!(
        hms(3, 5, 7).checked_sub_signed(TimeDelta::seconds(3600 + 60)).unwrap(),
        hms(2, 4, 7)
    );
    assert_eq!(
        hms(3, 5, 7).checked_sub_signed(TimeDelta::seconds(86_400)).unwrap(),
        ymd(2016, 7, 7).and_hms(3, 5, 7).unwrap()
    );
    assert_eq!(
        hms(3, 5, 7).checked_sub_signed(TimeDelta::days(1_000_000_000)),
        Err(Error::OutOfRange)
    );
}

#[test]
fn month_end_clamping() {
    assert_eq!(
        ymd(2020, 1, 31).and_hms(6, 0, 0).unwrap().checked_add_months(Months::new(1)).unwrap(),
        ymd(2020, 2, 29).and_hms(6, 0, 0).unwrap()
    );
    assert_eq!(
        ymd(2020, 3, 31).checked_sub_months(Months::new(1)).unwrap(),
        ymd(2020, 2, 29)
    );
    assert_eq!(
        ymd(2020, 3, 31).checked_sub_months(Months::new(2)).unwrap(),
        ymd(2020, 1, 31)
    );
    // A common year clamps one day earlier.
    assert_eq!(
        ymd(2014, 1, 31).checked_add_months(Months::new(1)).unwrap(),
        ymd(2014, 2, 28)
    );
}

#[test]
fn signed_duration_since_examples() {
    let d = ymd(2016, 7, 8);
    assert_eq!(
        d.and_hms(3, 5, 7).unwrap().signed_duration_since(d.and_hms(2, 4, 6).unwrap()),
        TimeDelta::seconds(3600 + 60 + 1)
    );

    // July 8 is the 190th day of 2016.
    let d0 = ymd(2016, 1, 1);
    assert_eq!(
        d.and_hms_milli(0, 7, 6, 500).unwrap()
            .signed_duration_since(d0.and_hms(0, 0, 0).unwrap()),
        TimeDelta::seconds(189 * 86_400 + 7 * 60 + 6)
            .checked_add(TimeDelta::milliseconds(500).unwrap())
            .unwrap()
    );

    let leap = ymd(2015, 6, 30).and_hms_milli(23, 59, 59, 1_500).unwrap();
    assert_eq!(
        leap.signed_duration_since(ymd(2015, 6, 30).and_hms(23, 0, 0).unwrap()),
        TimeDelta::seconds(3600).checked_add(TimeDelta::milliseconds(500).unwrap()).unwrap()
    );
    assert_eq!(
        ymd(2015, 7, 1).and_hms(1, 0, 0).unwrap().signed_duration_since(leap),
        TimeDelta::seconds(3600).checked_sub(TimeDelta::milliseconds(500).unwrap()).unwrap()
    );
}

#[test]
fn signed_duration_since_at_the_range_edges() {
    let lo = NaiveDateTime::min_value();
    let hi = NaiveDateTime::max_value();
    let span = hi.signed_duration_since(lo);
    let back = lo.signed_duration_since(hi);
    assert_eq!(span, back.neg());
    assert!(span > TimeDelta::zero());
}

#[test]
fn date_errors_name_the_cause() {
    assert_eq!(NaiveDate::from_ymd(2015, 13, 1), Err(Error::InvalidArgument));
    assert_eq!(NaiveDate::from_ymd(2015, 2, 30), Err(Error::DoesNotExist));
    assert_eq!(NaiveDate::from_ymd(400_000, 1, 1), Err(Error::OutOfRange));
    assert_eq!(NaiveDate::from_ymd(-400_000, 1, 1), Err(Error::OutOfRange));
    // The century rule: 2000 is a leap year, 1900 and 2001 are not.
    assert!(NaiveDate::from_ymd(2000, 2, 29).is_ok());
    assert_eq!(NaiveDate::from_ymd(1900, 2, 29), Err(Error::DoesNotExist));
    assert_eq!(NaiveDate::from_ymd(2001, 2, 29), Err(Error::DoesNotExist));
}

#[test]
fn setters_validate_only_their_field() {
    let dt = ymd(2015, 9, 30).and_hms(12, 34, 56).unwrap();
    assert_eq!(dt.with_month(10).unwrap(), ymd(2015, 10, 30).and_hms(12, 34, 56).unwrap());
    assert_eq!(dt.with_month(13), Err(Error::InvalidArgument));
    assert_eq!(dt.with_month(2), Err(Error::DoesNotExist));

    let dt = ymd(2015, 9, 8).and_hms(12, 34, 56).unwrap();
    assert_eq!(dt.with_day(30).unwrap(), ymd(2015, 9, 30).and_hms(12, 34, 56).unwrap());
    assert_eq!(dt.with_day(31), Err(Error::DoesNotExist));
    assert_eq!(dt.with_day(32), Err(Error::InvalidArgument));

    let dt = ymd(2015, 9, 25).and_hms(12, 34, 56).unwrap();
    assert_eq!(dt.with_year(2016).unwrap(), ymd(2016, 9, 25).and_hms(12, 34, 56).unwrap());
    assert_eq!(dt.with_year(-308).unwrap(), ymd(-308, 9, 25).and_hms(12, 34, 56).unwrap());
    assert_eq!(ymd(2016, 2, 29).with_year(2017), Err(Error::DoesNotExist));

    let dt = ymd(2015, 9, 8).and_hms_milli(12, 34, 56, 789).unwrap();
    assert_eq!(
        dt.with_hour(7).unwrap(),
        ymd(2015, 9, 8).and_hms_milli(7, 34, 56, 789).unwrap()
    );
    assert_eq!(dt.with_hour(24), Err(Error::InvalidArgument));
    assert_eq!(
        dt.with_minute(45).unwrap(),
        ymd(2015, 9, 8).and_hms_milli(12, 45, 56, 789).unwrap()
    );
    assert_eq!(dt.with_minute(60), Err(Error::InvalidArgument));
    assert_eq!(
        dt.with_second(17).unwrap(),
        ymd(2015, 9, 8).and_hms_milli(12, 34, 17, 789).unwrap()
    );
    assert_eq!(dt.with_second(60), Err(Error::InvalidArgument));
    assert_eq!(
        dt.with_nanosecond(333_333_333).unwrap(),
        ymd(2015, 9, 8).and_hms_nano(12, 34, 56, 333_333_333).unwrap()
    );
    assert_eq!(
        dt.with_nanosecond(1_333_333_333).unwrap(),
        ymd(2015, 9, 8).and_hms_nano(12, 34, 56, 1_333_333_333).unwrap()
    );
    assert_eq!(dt.with_nanosecond(2_000_000_000), Err(Error::InvalidArgument));
}

#[test]
fn with_ordinal_stays_inside_the_year() {
    let dt = ymd(2015, 9, 8).and_hms(12, 34, 56).unwrap();
    assert_eq!(
        dt.with_ordinal(60).unwrap(),
        ymd(2015, 3, 1).and_hms(12, 34, 56).unwrap()
    );
    assert!(dt.with_ordinal(366).is_none());

    let dt = ymd(2016, 9, 8).and_hms(12, 34, 56).unwrap();
    assert_eq!(
        dt.with_ordinal(60).unwrap(),
        ymd(2016, 2, 29).and_hms(12, 34, 56).unwrap()
    );
    assert_eq!(
        dt.with_ordinal(366).unwrap(),
        ymd(2016, 12, 31).and_hms(12, 34, 56).unwrap()
    );
}

#[test]
fn arithmetic_stops_at_the_range_edges() {
    let hi = NaiveDateTime::max_value();
    assert_eq!(hi.checked_add_days(Days::new(1)), Err(Error::OutOfRange));
    assert!(hi.checked_sub_days(Days::new(1)).is_ok());
    let lo = NaiveDateTime::min_value();
    assert_eq!(lo.checked_sub_days(Days::new(1)), Err(Error::OutOfRange));
    assert!(lo.checked_add_days(Days::new(1)).is_ok());

    assert_eq!(NaiveDate::max_value().succ(), Err(Error::OutOfRange));
    assert_eq!(NaiveDate::min_value().pred(), Err(Error::OutOfRange));
    assert_eq!(NaiveDate::max_value().pred().unwrap(), ymd(262142, 12, 30));
    assert_eq!(NaiveDate::min_value().succ().unwrap(), ymd(-262143, 1, 2));
}

#[test]
fn day_stepping_crosses_month_and_year_edges() {
    assert_eq!(ymd(2014, 2, 28).succ().unwrap(), ymd(2014, 3, 1));
    assert_eq!(ymd(2016, 2, 28).succ().unwrap(), ymd(2016, 2, 29));
    assert_eq!(ymd(2015, 12, 31).succ().unwrap(), ymd(2016, 1, 1));
    assert_eq!(ymd(2016, 1, 1).pred().unwrap(), ymd(2015, 12, 31));
    assert_eq!(ymd(2016, 3, 1).pred().unwrap(), ymd(2016, 2, 29));
}

#[test]
fn from_yo_matches_from_ymd() {
    assert_eq!(NaiveDate::from_yo(2015, 1).unwrap(), ymd(2015, 1, 1));
    assert_eq!(NaiveDate::from_yo(2015, 365).unwrap(), ymd(2015, 12, 31));
    assert_eq!(NaiveDate::from_yo(2016, 366).unwrap(), ymd(2016, 12, 31));
    assert_eq!(NaiveDate::from_yo(2015, 366), Err(Error::DoesNotExist));
    assert_eq!(NaiveDate::from_yo(2015, 0), Err(Error::DoesNotExist));
    assert_eq!(ymd(2016, 7, 8).ordinal(), 190);
}

#[test]
fn month_names_and_numbers() {
    assert_eq!(Month::January.name(), "January");
    assert_eq!(Month::September.name(), "September");
    assert_eq!(Month::December.number_from_month(), 12);
    assert_eq!(Month::try_from_u16(12), Some(Month::December));
    assert_eq!(Month::try_from_u16(0), None);
    assert_eq!(Month::try_from_i16(-1), None);
    assert_eq!(Month::try_from_i16(7), Some(Month::July));
}

#[test]
fn offset_shifts_preserve_leap_seconds() {
    let leap = ymd(2015, 6, 30).and_hms_milli(23, 59, 59, 1_500).unwrap();
    let east = FixedOffset::east(3600).unwrap();
    let shifted = leap.checked_add_offset(east).unwrap();
    assert_eq!(shifted, ymd(2015, 7, 1).and_hms_milli(0, 59, 59, 1_500).unwrap());
    let back = shifted.checked_sub_offset(east).unwrap();
    assert_eq!(back, leap);
}
