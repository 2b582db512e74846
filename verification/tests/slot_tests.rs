use chrono::Datelike;
use chrono::NaiveDate;
use contact_form::date::{date_string, month_length, parse_date, SlotDate};
use contact_form::numeral::{parse_u32, u32_string};
use contact_form::slot::{ContactSlot, SlotError};

#[test]
fn test_slot() {
    let slot = ContactSlot::from_str("2024-12-25|10|30").unwrap();
    let expected = NaiveDate::from_ymd_opt(2024, 12, 25).unwrap();
    assert_eq!(slot.date.year, expected.year() as u32);
    assert_eq!(slot.date.month, expected.month());
    assert_eq!(slot.date.day, expected.day());
    assert_eq!(slot.hour, 10);
    assert_eq!(slot.duration, 30);
}

#[test]
fn test_slot_wrong_segment_count() {
    let err = ContactSlot::from_str("2024-12-25|10").unwrap_err();
    assert_eq!(err, SlotError::Format);
    assert_eq!(err.message(), "Invalid slot format");
    assert_eq!(
        ContactSlot::from_str("2024-12-25|10|30|5").unwrap_err(),
        SlotError::Format
    );
    assert_eq!(ContactSlot::from_str("").unwrap_err(), SlotError::Format);
    assert_eq!(
        ContactSlot::from_str("2024-12-25").unwrap_err(),
        SlotError::Format
    );
}

#[test]
fn test_slot_invalid_date() {
    let err = ContactSlot::from_str("2024-13-01|10|30").unwrap_err();
    assert_eq!(err, SlotError::Date);
    assert_eq!(err.message(), "Invalid date");
    assert_eq!(
        ContactSlot::from_str("2024-02-30|10|30").unwrap_err(),
        SlotError::Date
    );
    assert_eq!(
        ContactSlot::from_str("2024-00-10|10|30").unwrap_err(),
        SlotError::Date
    );
    assert_eq!(
        ContactSlot::from_str("2024-12-00|10|30").unwrap_err(),
        SlotError::Date
    );
    // The form is fixed-width: a one-digit month is rejected.
    assert_eq!(
        ContactSlot::from_str("2024-1-05|10|30").unwrap_err(),
        SlotError::Date
    );
}

#[test]
fn test_slot_leap_years() {
    assert!(ContactSlot::from_str("2024-02-29|0|0").is_ok());
    assert_eq!(
        ContactSlot::from_str("2023-02-29|0|0").unwrap_err(),
        SlotError::Date
    );
    assert!(ContactSlot::from_str("2000-02-29|0|0").is_ok());
    assert_eq!(
        ContactSlot::from_str("1900-02-29|0|0").unwrap_err(),
        SlotError::Date
    );
}

#[test]
fn test_slot_invalid_hour() {
    let err = ContactSlot::from_str("2024-12-25|x|30").unwrap_err();
    assert_eq!(err, SlotError::Hour);
    assert_eq!(err.message(), "Invalid hour");
    assert_eq!(
        ContactSlot::from_str("2024-12-25||30").unwrap_err(),
        SlotError::Hour
    );
    assert_eq!(
        ContactSlot::from_str("2024-12-25|-1|30").unwrap_err(),
        SlotError::Hour
    );
}

#[test]
fn test_slot_invalid_duration() {
    let err = ContactSlot::from_str("2024-12-25|10|").unwrap_err();
    assert_eq!(err, SlotError::Duration);
    assert_eq!(err.message(), "Invalid duration");
    assert_eq!(
        ContactSlot::from_str("2024-12-25|10|1e3").unwrap_err(),
        SlotError::Duration
    );
}

#[test]
fn test_slot_hour_not_range_checked() {
    // Hour and duration carry no semantic range check by design.
    let slot = ContactSlot::from_str("2024-12-25|99|0").unwrap();
    assert_eq!(slot.hour, 99);
    assert_eq!(slot.duration, 0);
}

#[test]
fn test_slot_integer_bounds() {
    // The integer segments accept exactly what the standard u32 parser does.
    let slot = ContactSlot::from_str("2024-12-25|+10|4294967295").unwrap();
    assert_eq!(slot.hour, 10);
    assert_eq!(slot.duration, u32::MAX);
    assert_eq!(
        ContactSlot::from_str("2024-12-25|10|4294967296").unwrap_err(),
        SlotError::Duration
    );
}

#[test]
fn test_slot_render() {
    let slot = ContactSlot::from_str("2024-12-25|10|30").unwrap();
    assert_eq!(slot.render(), "2024-12-25|10|30");
    let early = ContactSlot {
        date: SlotDate {
            year: 1,
            month: 1,
            day: 1,
        },
        hour: 0,
        duration: 0,
    };
    assert_eq!(early.render(), "0001-01-01|0|0");
    // Rendering and parsing back is the identity on well-formed slots.
    let back = ContactSlot::from_str(&early.render()).unwrap();
    assert_eq!(back, early);
    let back = ContactSlot::from_str(&slot.render()).unwrap();
    assert_eq!(back, slot);
}

#[test]
fn test_parse_u32_edges() {
    assert_eq!(parse_u32("0"), Some(0));
    assert_eq!(parse_u32("+7"), Some(7));
    assert_eq!(parse_u32("010"), Some(10));
    assert_eq!(parse_u32(""), None);
    assert_eq!(parse_u32("+"), None);
    assert_eq!(parse_u32("10 "), None);
    assert_eq!(parse_u32("-1"), None);
    assert_eq!(parse_u32("4294967295"), Some(u32::MAX));
    assert_eq!(parse_u32("4294967296"), None);
    // Agreement with the standard parser on the same samples.
    for s in ["0", "+7", "010", "", "+", "10 ", "-1", "4294967295", "4294967296"] {
        assert_eq!(parse_u32(s), s.parse::<u32>().ok());
    }
}

#[test]
fn test_u32_string() {
    assert_eq!(u32_string(0), "0");
    assert_eq!(u32_string(7), "7");
    assert_eq!(u32_string(120), "120");
    assert_eq!(u32_string(u32::MAX), "4294967295");
}

#[test]
fn test_parse_date_agrees_with_calendar() {
    let d = parse_date("0001-01-01").unwrap();
    assert_eq!((d.year, d.month, d.day), (1, 1, 1));
    assert!(parse_date("10000-01-01").is_none());
    assert!(parse_date("2024/12/25").is_none());
    // Validity agrees with chrono's calendar on a sample of dates.
    for (y, m, day) in [
        (2024u32, 2u32, 29u32),
        (2023, 2, 29),
        (1900, 2, 29),
        (2000, 2, 29),
        (2024, 4, 31),
        (2024, 12, 31),
        (2024, 6, 30),
    ] {
        let s = format!("{:04}-{:02}-{:02}", y, m, day);
        let ours = parse_date(&s).is_some();
        let chronos = NaiveDate::from_ymd_opt(y as i32, m, day).is_some();
        assert_eq!(ours, chronos, "disagreement on {s}");
    }
}

#[test]
fn test_month_length() {
    assert_eq!(month_length(2024, 2), 29);
    assert_eq!(month_length(2023, 2), 28);
    assert_eq!(month_length(2024, 4), 30);
    assert_eq!(month_length(2024, 1), 31);
}

#[test]
fn test_date_string() {
    let d = SlotDate {
        year: 987,
        month: 6,
        day: 5,
    };
    assert_eq!(date_string(&d), "0987-06-05");
}
