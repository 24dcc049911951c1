use std::cmp::Ordering;

use treasury_service::{Date, DateError};

#[test]
fn ord() {
    let a = Date::new(1, 3, 2022);
    let b = Date::new(2, 3, 2022);
    let c = Date::new(2, 3, 2022);
    let d = Date::new(1, 4, 2022);

    assert_eq!(a.cmp(&b), Ordering::Less);
    assert_eq!(b.cmp(&a), Ordering::Greater);
    assert_eq!(b.cmp(&c), Ordering::Equal);

    assert_eq!(b.cmp(&d), Ordering::Less);
}

#[test]
fn ordering_operators() {
    assert!(Date::new(1, 3, 2022) < Date::new(2, 3, 2022));
    assert!(Date::new(2, 3, 2022) < Date::new(1, 4, 2022));
    assert!(Date::new(1, 4, 2022) < Date::new(1, 1, 2023));
    assert!(Date::new(2, 3, 2022) == Date::new(2, 3, 2022));
    assert!(!(Date::new(2, 3, 2022) < Date::new(2, 3, 2022)));
}

#[test]
fn format_exactness() {
    assert_eq!(Date::new(6, 7, 2004).to_text(), "06-07-2004");
    assert_eq!(Date::new(1, 1, 0).to_text(), "01-01-0");
    assert_eq!(Date::new(31, 12, 9999).to_text(), "31-12-9999");
    assert_eq!(Date::new(10, 11, 12).to_text(), "10-11-12");
}

#[test]
fn parse_reads_the_fields() {
    let date = Date::parse("06-07-2004").unwrap();
    assert_eq!(date.day(), 6);
    assert_eq!(date.month(), 7);
    assert_eq!(date.year(), 2004);
    assert_eq!(Date::parse("31-12-0").unwrap(), Date::new(31, 12, 0));
    assert_eq!(
        Date::parse("01-01-18446744073709551615").unwrap(),
        Date::new(1, 1, u64::MAX)
    );
}

#[test]
fn parse_round_trip() {
    for (day, month, year) in [
        (1u8, 1u8, 0u64),
        (6, 7, 2004),
        (29, 2, 2024),
        (31, 12, 9999),
        (28, 2, 1),
    ] {
        let date = Date::new(day, month, year);
        assert_eq!(Date::parse(&date.to_text()).unwrap(), date);
    }
}

#[test]
fn parse_rejects_wrong_shape() {
    assert_eq!(Date::parse("2024-03-01"), Err(DateError::InvalidFormat));
    assert_eq!(Date::parse(""), Err(DateError::InvalidFormat));
    assert_eq!(Date::parse("6-7-2004"), Err(DateError::InvalidFormat));
    assert_eq!(Date::parse("06/07/2004"), Err(DateError::InvalidFormat));
    assert_eq!(Date::parse("06-07"), Err(DateError::InvalidFormat));
    assert_eq!(Date::parse("06-07-"), Err(DateError::InvalidFormat));
}

#[test]
fn parse_rejects_bad_numbers() {
    assert_eq!(Date::parse("aa-01-2024"), Err(DateError::InvalidValue));
    assert_eq!(Date::parse("01-xy-2024"), Err(DateError::InvalidValue));
    assert_eq!(Date::parse("01-01-20x4"), Err(DateError::InvalidValue));
    // One past u64::MAX overflows the year field.
    assert_eq!(
        Date::parse("01-01-18446744073709551616"),
        Err(DateError::InvalidValue)
    );
}

#[test]
fn calendar_validation() {
    assert!(Date::new(29, 2, 2024).to_calendar_instant().is_ok());
    assert_eq!(
        Date::new(29, 2, 2023).to_calendar_instant().unwrap_err(),
        DateError::ValueOutOfBounds
    );
    assert_eq!(
        Date::new(31, 4, 2023).to_calendar_instant().unwrap_err(),
        DateError::ValueOutOfBounds
    );
    assert_eq!(
        Date::new(0, 1, 2023).to_calendar_instant().unwrap_err(),
        DateError::ValueOutOfBounds
    );
    assert_eq!(
        Date::new(1, 13, 2023).to_calendar_instant().unwrap_err(),
        DateError::ValueOutOfBounds
    );
    // The year 262143 is beyond what a calendar instant can carry.
    assert_eq!(
        Date::new(1, 1, 262143).to_calendar_instant().unwrap_err(),
        DateError::ValueOutOfBounds
    );
}

#[test]
fn calendar_instant_round_trip() {
    for (day, month, year) in [(6u8, 7u8, 2004u64), (29, 2, 2000), (1, 1, 0), (31, 12, 262142)] {
        let date = Date::new(day, month, year);
        let instant = date.to_calendar_instant().unwrap();
        assert_eq!(Date::from_calendar_instant(&instant), date);
    }
}
