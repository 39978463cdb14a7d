use civiltime::CalendarDuration;

fn compare(d: CalendarDuration, months: u32, days: u32, mins: u64, secs: u64, nanos: u32) {
    assert_eq!(d.months(), months);
    assert_eq!(d.days(), days);
    assert_eq!(d.mins_and_secs(), (mins, secs));
    assert_eq!(d.nanos(), nanos);
}

#[test]
fn test_basic_functionality() {
    let duration = CalendarDuration::new()
        .with_months(1)
        .with_days(2)
        .with_hms(3, 4, 5)
        .unwrap()
        .with_nanos(6)
        .unwrap();
    compare(duration, 1, 2, 3 * 60 + 4, 5, 6);

    compare(CalendarDuration::new().with_months(18), 18, 0, 0, 0, 0);
    compare(CalendarDuration::new().with_days(15), 0, 15, 0, 0, 0);
    compare(CalendarDuration::new().with_hms(3, 4, 5).unwrap(), 0, 0, 3 * 60 + 4, 5, 0);
    compare(CalendarDuration::new().with_seconds(123_456).unwrap(), 0, 0, 0, 123_456, 0);
    compare(CalendarDuration::new().with_nanos(123_456_789).unwrap(), 0, 0, 0, 0, 123_456_789);

    compare(CalendarDuration::new(), 0, 0, 0, 0, 0);
    assert!(CalendarDuration::new().is_zero());
    assert!(CalendarDuration::default().is_zero());
}
