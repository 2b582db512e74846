use contact_form::entry::{
    join_with_newlines, ContactFormEntry, ContactFormRequest, ValidationError,
};
use contact_form::slot::SlotError;

fn request(name: &str, email: &str, message: &str, slot: Option<&str>) -> ContactFormRequest {
    ContactFormRequest {
        name: name.to_string(),
        email: email.to_string(),
        message: message.to_string(),
        slot: slot.map(|s| s.to_string()),
    }
}

#[test]
fn test_construct_empty_name() {
    let err = ContactFormEntry::new(&request("", "a@b.com", "hi", None)).unwrap_err();
    assert_eq!(err, ValidationError::EmptyName);
    assert_eq!(err.message(), "Empty name");
}

#[test]
fn test_construct_empty_email() {
    let err = ContactFormEntry::new(&request("A", "", "hi", None)).unwrap_err();
    assert_eq!(err, ValidationError::EmptyEmail);
    assert_eq!(err.message(), "Empty email");
}

#[test]
fn test_construct_empty_message() {
    let err = ContactFormEntry::new(&request("A", "a@b.com", "", None)).unwrap_err();
    assert_eq!(err, ValidationError::EmptyMessage);
    assert_eq!(err.message(), "Empty message");
}

#[test]
fn test_construct_success_stamps_current_time() {
    let before = chrono::Utc::now().timestamp_millis();
    let entry = ContactFormEntry::new(&request("A", "a@b.com", "hi", None)).unwrap();
    let after = chrono::Utc::now().timestamp_millis();
    assert_eq!(entry.name, "A");
    assert_eq!(entry.email, "a@b.com");
    assert_eq!(entry.message, "hi");
    assert!(entry.slot.is_none());
    assert!(before <= entry.created_at && entry.created_at <= after);
}

#[test]
fn test_construct_with_given_time() {
    let entry = ContactFormEntry::new_with_time(&request("A", "a@b.com", "hi", None), 42).unwrap();
    assert_eq!(entry.created_at, 42);
}

#[test]
fn test_construct_parses_slot() {
    let entry =
        ContactFormEntry::new(&request("A", "a@b.com", "hi", Some("2024-12-25|10|30"))).unwrap();
    let slot = entry.slot.unwrap();
    assert_eq!((slot.date.year, slot.date.month, slot.date.day), (2024, 12, 25));
    assert_eq!(slot.hour, 10);
    assert_eq!(slot.duration, 30);
}

#[test]
fn test_construct_propagates_slot_error() {
    let err =
        ContactFormEntry::new(&request("A", "a@b.com", "hi", Some("2024-12-25|10"))).unwrap_err();
    assert_eq!(err, ValidationError::Slot(SlotError::Format));
    assert_eq!(err.message(), "Invalid slot format");
    let err =
        ContactFormEntry::new(&request("A", "a@b.com", "hi", Some("x|10|30"))).unwrap_err();
    assert_eq!(err, ValidationError::Slot(SlotError::Date));
    assert_eq!(err.message(), "Invalid date");
}

#[test]
fn test_into_lines_without_slot() {
    let entry = ContactFormEntry::new(&request("A", "a@b.com", "hi", None)).unwrap();
    let lines = entry.into_lines();
    assert_eq!(lines.len(), 3);
    assert_eq!(lines[0], "Name: A");
    assert_eq!(lines[1], "Email: a@b.com");
    assert_eq!(lines[2], "Message: hi");
}

#[test]
fn test_into_lines_with_slot() {
    let entry =
        ContactFormEntry::new(&request("A", "a@b.com", "hi", Some("2024-12-25|10|30"))).unwrap();
    let lines = entry.into_lines();
    assert_eq!(lines.len(), 4);
    assert_eq!(lines[3], "Slot: 2024-12-25|10|30");
}

#[test]
fn test_join_with_newlines() {
    let lines = vec!["a".to_string(), "b".to_string(), "c".to_string()];
    assert_eq!(join_with_newlines(&lines), "a\nb\nc");
    let one = vec!["solo".to_string()];
    assert_eq!(join_with_newlines(&one), "solo");
    let none: Vec<String> = vec![];
    assert_eq!(join_with_newlines(&none), "");
}
