//! Calendar dates: validity, arithmetic, formatting, and parsing.

use klikbca::dates::Date;
use klikbca::error::Error;

#[test]
fn rejects_impossible_dates() {
    assert!(Date::new(2023, 2, 29).is_none());
    assert!(Date::new(2024, 2, 29).is_some());
    assert!(Date::new(1900, 2, 29).is_none());
    assert!(Date::new(2000, 2, 29).is_some());
    assert!(Date::new(2023, 4, 31).is_none());
    assert!(Date::new(2023, 0, 1).is_none());
    assert!(Date::new(2023, 13, 1).is_none());
    assert!(Date::new(0, 1, 1).is_none());
}

#[test]
fn minus_days_crosses_month_and_year_bounds() {
    let d = Date::new(2024, 3, 1).expect("valid date");
    let back = d.minus_days(1);
    assert_eq!((back.year, back.month, back.day), (2024, 2, 29));
    let d = Date::new(2023, 1, 3).expect("valid date");
    let back = d.minus_days(7);
    assert_eq!((back.year, back.month, back.day), (2022, 12, 27));
    let d = Date::new(2023, 11, 7).expect("valid date");
    let same = d.minus_days(0);
    assert_eq!((same.year, same.month, same.day), (2023, 11, 7));
}

#[test]
fn formatting_pads_with_zeros() {
    let d = Date::new(987, 3, 5).expect("valid date");
    assert_eq!(d.day_text(), "05");
    assert_eq!(d.month_text(), "03");
    assert_eq!(d.year_text(), "0987");
    let d = Date::new(2023, 11, 27).expect("valid date");
    assert_eq!(d.day_text(), "27");
    assert_eq!(d.month_text(), "11");
    assert_eq!(d.year_text(), "2023");
}

#[test]
fn parses_day_month_year() {
    let d = Date::parse("07/11/2023").expect("date parses");
    assert_eq!((d.year, d.month, d.day), (2023, 11, 7));
    let d = Date::parse("7/1/2023").expect("single digits are accepted");
    assert_eq!((d.year, d.month, d.day), (2023, 1, 7));
}

#[test]
fn rejects_malformed_date_texts() {
    assert_eq!(Date::parse("2023/11/07").unwrap_err(), Error::InvalidDate);
    assert_eq!(Date::parse("07-11-2023").unwrap_err(), Error::InvalidDate);
    assert_eq!(Date::parse("31/02/2023").unwrap_err(), Error::InvalidDate);
    assert_eq!(Date::parse("07/11/23").unwrap_err(), Error::InvalidDate);
    assert_eq!(Date::parse("").unwrap_err(), Error::InvalidDate);
    assert_eq!(Date::parse("aa/bb/cccc").unwrap_err(), Error::InvalidDate);
}

#[test]
fn error_texts_name_the_failure() {
    assert_eq!(Error::Transport.text(), "transport failure");
    assert_eq!(Error::MissingField.text(), "missing field");
    assert_eq!(Error::SummaryShape.text(), "summary shape mismatch");
    assert_eq!(Error::InvalidDate.text(), "invalid date");
}
