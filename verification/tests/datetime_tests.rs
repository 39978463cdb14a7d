use civiltime::{Days, FixedOffset, Months, NaiveDate, NaiveDateTime, NaiveTime, TimeDelta};
use core::time::Duration;

fn ymd(y: i32, m: u32, d: u32) -> NaiveDate {
    NaiveDate::from_ymd(y, m, d).unwrap()
}

fn ymdhms(y: i32, m: u32, d: u32, h: u32, mi: u32, s: u32) -> NaiveDateTime {
    ymd(y, m, d).and_hms(h, mi, s).unwrap()
}

#[test]
fn test_datetime_add_days() {
    assert_eq!(
        ymdhms(2014, 5, 6, 7, 8, 9).checked_add_days(Days::new(5)).unwrap(),
        ymdhms(2014, 5, 11, 7, 8, 9)
    );
    assert_eq!(
        ymdhms(2014, 5, 6, 7, 8, 9).checked_add_days(Days::new(35)).unwrap(),
        ymdhms(2014, 6, 10, 7, 8, 9)
    );
}

#[test]
fn test_datetime_sub_days() {
    assert_eq!(
        ymdhms(2014, 5, 6, 7, 8, 9).checked_sub_days(Days::new(5)).unwrap(),
        ymdhms(2014, 5, 1, 7, 8, 9)
    );
    assert_eq!(
        ymdhms(2014, 5, 6, 7, 8, 9).checked_sub_days(Days::new(35)).unwrap(),
        ymdhms(2014, 4, 1, 7, 8, 9)
    );
}

#[test]
fn test_datetime_add_months() {
    assert_eq!(
        ymdhms(2014, 5, 6, 7, 8, 9).checked_add_months(Months::new(1)).unwrap(),
        ymdhms(2014, 6, 6, 7, 8, 9)
    );
    assert_eq!(
        ymdhms(2014, 5, 6, 7, 8, 9).checked_add_months(Months::new(5)).unwrap(),
        ymdhms(2014, 10, 6, 7, 8, 9)
    );
}

#[test]
fn test_datetime_sub_months() {
    assert_eq!(
        ymdhms(2014, 5, 6, 7, 8, 9).checked_sub_months(Months::new(1)).unwrap(),
        ymdhms(2014, 4, 6, 7, 8, 9)
    );
    assert_eq!(
        ymdhms(2014, 5, 6, 7, 8, 9).checked_sub_months(Months::new(5)).unwrap(),
        ymdhms(2013, 12, 6, 7, 8, 9)
    );
}

#[test]
fn test_add_sub_months() {
    let dt = ymdhms(2018, 9, 5, 23, 58, 0);
    assert_eq!(
        dt.checked_add_months(Months::new(15)).unwrap(),
        ymdhms(2019, 12, 5, 23, 58, 0)
    );

    let dt = ymdhms(2020, 1, 31, 23, 58, 0);
    assert_eq!(
        dt.checked_add_months(Months::new(1)).unwrap(),
        ymdhms(2020, 2, 29, 23, 58, 0)
    );
    assert_eq!(
        dt.checked_add_months(Months::new(2)).unwrap(),
        ymdhms(2020, 3, 31, 23, 58, 0)
    );

    let dt = ymdhms(2018, 9, 5, 23, 58, 0);
    assert_eq!(
        dt.checked_sub_months(Months::new(15)).unwrap(),
        ymdhms(2017, 6, 5, 23, 58, 0)
    );

    let dt = ymdhms(2020, 3, 31, 23, 58, 0);
    assert_eq!(
        dt.checked_sub_months(Months::new(1)).unwrap(),
        ymdhms(2020, 2, 29, 23, 58, 0)
    );
    assert_eq!(
        dt.checked_sub_months(Months::new(2)).unwrap(),
        ymdhms(2020, 1, 31, 23, 58, 0)
    );
}

#[test]
fn test_datetime_add_assign() {
    let naivedatetime = ymdhms(2000, 1, 1, 0, 0, 0);
    let datetime = naivedatetime;
    let mut datetime_add = datetime;

    datetime_add = datetime_add.checked_add_signed(TimeDelta::seconds(60)).unwrap();
    assert_eq!(datetime_add, datetime.checked_add_signed(TimeDelta::seconds(60)).unwrap());

    let timezone = FixedOffset::east(60 * 60).unwrap();
    let datetime = datetime.checked_add_offset(timezone).unwrap();
    let datetime_add_tz = datetime_add.checked_add_offset(timezone).unwrap();
    assert_eq!(
        datetime_add_tz,
        datetime.checked_add_signed(TimeDelta::seconds(60)).unwrap()
    );

    let timezone = FixedOffset::west(2 * 60 * 60).unwrap();
    let datetime = datetime.checked_add_offset(timezone).unwrap();
    let datetime_add_tz = datetime_add_tz.checked_add_offset(timezone).unwrap();
    assert_eq!(
        datetime_add_tz,
        datetime.checked_add_signed(TimeDelta::seconds(60)).unwrap()
    );
}

#[test]
fn test_datetime_sub_assign() {
    let naivedatetime = ymdhms(2000, 1, 1, 12, 0, 0);
    let datetime = naivedatetime;
    let mut datetime_sub = datetime;

    datetime_sub = datetime_sub.checked_sub_signed(TimeDelta::minutes(90)).unwrap();
    assert_eq!(datetime_sub, datetime.checked_sub_signed(TimeDelta::minutes(90)).unwrap());

    let timezone = FixedOffset::east(60 * 60).unwrap();
    let datetime = datetime.checked_add_offset(timezone).unwrap();
    let datetime_sub_tz = datetime_sub.checked_add_offset(timezone).unwrap();
    assert_eq!(
        datetime_sub_tz,
        datetime.checked_sub_signed(TimeDelta::minutes(90)).unwrap()
    );

    let timezone = FixedOffset::west(2 * 60 * 60).unwrap();
    let datetime = datetime.checked_add_offset(timezone).unwrap();
    let datetime_sub_tz = datetime_sub_tz.checked_add_offset(timezone).unwrap();
    assert_eq!(
        datetime_sub_tz,
        datetime.checked_sub_signed(TimeDelta::minutes(90)).unwrap()
    );
}

#[test]
fn signed_duration_since_autoref() {
    let dt1 = ymdhms(2014, 5, 6, 7, 8, 9);
    let dt2 = ymdhms(2014, 3, 4, 5, 6, 7);
    let diff1 = dt1.signed_duration_since(dt2);
    let diff2 = dt2.signed_duration_since(dt1);
    assert_eq!(diff1, diff2.neg());

    let diff3 = dt1.signed_duration_since(dt2);
    let diff4 = dt2.signed_duration_since(dt1);
    assert_eq!(diff3, diff4.neg());
}

#[test]
fn test_datetime_date_and_time() {
    let d = ymdhms(2014, 5, 6, 7, 8, 9);
    assert_eq!(d.time(), NaiveTime::from_hms(7, 8, 9).unwrap());
    assert_eq!(d.date(), NaiveDate::from_ymd(2014, 5, 6).unwrap());

    let d = ymdhms(2016, 5, 4, 3, 2, 1);
    assert_eq!(d.time(), NaiveTime::from_hms(3, 2, 1).unwrap());
    assert_eq!(d.date(), NaiveDate::from_ymd(2016, 5, 4).unwrap());

    let tz = FixedOffset::west(13 * 60 * 60).unwrap();
    let d = ymdhms(2017, 8, 9, 12, 34, 56);
    assert_eq!(d.time(), NaiveTime::from_hms(12, 34, 56).unwrap());
    assert_eq!(d.date(), NaiveDate::from_ymd(2017, 8, 9).unwrap());

    let utc_d = ymdhms(2017, 8, 9, 12, 34, 56);
    // The same wall clock thirteen hours west of UTC denotes a later
    // instant; compare both as UTC.
    let d_in_utc = d.checked_sub_offset(tz).unwrap();
    assert!(utc_d < d_in_utc);
}

#[test]
fn test_datetime_from_timestamp_millis() {
    // 2000-01-12T01:02:03:004Z
    let naive_dt = ymd(2000, 1, 12).and_hms_milli(1, 2, 3, 4).unwrap();
    let epoch = NaiveDateTime::unix_epoch();
    let millis = naive_dt.signed_duration_since(epoch).num_milliseconds();
    assert_eq!(
        naive_dt,
        epoch.checked_add_signed(TimeDelta::milliseconds(millis).unwrap()).unwrap()
    );
}

#[test]
fn nano_roundrip() {
    let billion: i64 = 1_000_000_000;

    for nanos in [
        i64::MIN,
        i64::MIN + 1,
        i64::MIN + 2,
        i64::MIN + billion - 1,
        i64::MIN + billion,
        i64::MIN + billion + 1,
        -billion - 1,
        -billion,
        -billion + 1,
        0,
        billion - 1,
        billion,
        billion + 1,
        i64::MAX - billion - 1,
        i64::MAX - billion,
        i64::MAX - billion + 1,
        i64::MAX - 2,
        i64::MAX - 1,
        i64::MAX,
    ] {
        println!("nanos: {}", nanos);
        let epoch = NaiveDateTime::unix_epoch();
        let dt = epoch.checked_add_signed(TimeDelta::nanoseconds(nanos)).unwrap();
        let nanos2 = dt.signed_duration_since(epoch).num_nanoseconds().expect("value roundtrips");
        assert_eq!(nanos, nanos2);
    }
}

#[test]
fn test_core_duration_ops() {
    let mut utc_dt = ymdhms(2023, 8, 29, 11, 34, 12);
    let same = utc_dt.checked_add_signed(TimeDelta::from_std(Duration::ZERO).unwrap()).unwrap();
    assert_eq!(utc_dt, same);

    utc_dt = utc_dt
        .checked_add_signed(TimeDelta::from_std(Duration::new(3600, 0)).unwrap())
        .unwrap();
    assert_eq!(utc_dt, ymdhms(2023, 8, 29, 12, 34, 12));
}

#[test]
fn test_subsecond_part() {
    let datetime = ymd(2014, 7, 8).and_hms_nano(9, 10, 11, 1234567).unwrap();

    assert_eq!(1, datetime.nanosecond() / 1_000_000);
    assert_eq!(1234, datetime.nanosecond() / 1000);
    assert_eq!(1234567, datetime.nanosecond());
}

#[test]
fn init_macros() {
    assert_eq!(ymd(2023, 9, 8), NaiveDate::from_ymd(2023, 9, 8).unwrap());
    assert_eq!(NaiveDate::from_yo(2023, 253).unwrap(), ymd(2023, 9, 10));
    assert_eq!(
        NaiveTime::from_hms(7, 3, 0).unwrap(),
        NaiveTime::from_hms(7, 3, 0).unwrap()
    );
    assert_eq!(
        NaiveTime::from_hms(7, 3, 25).unwrap(),
        NaiveTime::from_hms(7, 3, 25).unwrap()
    );
    assert_eq!(
        NaiveTime::from_hms_nano(23, 59, 59, 1_000_000_000).unwrap().nanosecond(),
        1_000_000_000
    );
    assert_eq!(
        ymd(2023, 9, 8).and_time(NaiveTime::from_hms(7, 3, 0).unwrap()),
        ymd(2023, 9, 8).and_hms(7, 3, 0).unwrap(),
    );
    assert_eq!(
        ymd(2023, 9, 8).and_time(NaiveTime::from_hms(7, 3, 25).unwrap()),
        ymd(2023, 9, 8).and_hms(7, 3, 25).unwrap(),
    );
    // A local time of 2023-09-08 07:03:25 at +02:00 denotes the UTC instant
    // two hours earlier.
    assert_eq!(
        ymdhms(2023, 9, 8, 7, 3, 25)
            .checked_sub_offset(FixedOffset::east(7200).unwrap())
            .unwrap(),
        ymdhms(2023, 9, 8, 5, 3, 25)
    );
    assert_eq!(
        ymdhms(2023, 9, 8, 7, 3, 25)
            .checked_sub_offset(FixedOffset::east(-7200).unwrap())
            .unwrap(),
        ymdhms(2023, 9, 8, 9, 3, 25)
    );
    assert_eq!(FixedOffset::east(5 * 3600 + 43 * 60).unwrap(), FixedOffset::east(20_580).unwrap());
    assert_eq!(
        FixedOffset::east(-(5 * 3600 + 43 * 60)).unwrap(),
        FixedOffset::east(-20_580).unwrap()
    );
    assert_eq!(
        FixedOffset::east(5 * 3600 + 43 * 60 + 21).unwrap(),
        FixedOffset::east(20_601).unwrap()
    );
    assert_eq!(
        FixedOffset::east(-(5 * 3600 + 43 * 60 + 21)).unwrap(),
        FixedOffset::east(-20_601).unwrap()
    );
}

#[test]
fn macros_are_const() {
    let date: NaiveDate = ymd(2023, 9, 8);
    let time: NaiveTime = NaiveTime::from_hms(7, 3, 25).unwrap();
    let naivedatetime: NaiveDateTime = ymdhms(2023, 9, 8, 7, 3, 25);
    assert_eq!(date.and_time(time), naivedatetime);

    let offset_1: FixedOffset = FixedOffset::east(2 * 3600).unwrap();
    let datetime_1_utc = naivedatetime.checked_sub_offset(offset_1).unwrap();
    assert_eq!(datetime_1_utc, ymdhms(2023, 9, 8, 5, 3, 25));

    let offset_2: FixedOffset = FixedOffset::east(-2 * 3600).unwrap();
    let datetime_2_utc = naivedatetime.checked_sub_offset(offset_2).unwrap();
    assert_eq!(datetime_2_utc, ymdhms(2023, 9, 8, 9, 3, 25));
}
