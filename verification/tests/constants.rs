use std::str::FromStr;

use taskmd_core::constants::{Priority, Status, VALID_PRIORITIES, VALID_STATUSES};

#[test]
fn priority_str_roundtrip() {
    for s in &VALID_PRIORITIES {
        let parsed = Priority::from_str(s).expect("valid priority should parse");
        assert_eq!(parsed.as_str(), *s);
    }
}

#[test]
fn status_str_roundtrip() {
    for s in &VALID_STATUSES {
        let parsed = Status::from_str(s).expect("valid status should parse");
        assert_eq!(parsed.as_str(), *s);
    }
}

#[test]
fn priority_all_aligns_with_const() {
    let from_enum: Vec<&'static str> = Priority::ALL.iter().map(|p| p.as_str()).collect();
    let from_const: Vec<&'static str> = VALID_PRIORITIES.to_vec();
    assert_eq!(from_enum, from_const);
}

#[test]
fn status_all_aligns_with_const() {
    let from_enum: Vec<&'static str> = Status::ALL.iter().map(|s| s.as_str()).collect();
    let from_const: Vec<&'static str> = VALID_STATUSES.to_vec();
    assert_eq!(from_enum, from_const);
}

#[test]
fn priority_invalid_string_errs() {
    assert!(Priority::from_str("p5").is_err());
}

#[test]
fn status_invalid_string_errs() {
    assert!(Status::from_str("pending").is_err());
}

#[test]
fn from_name_is_exact() {
    assert_eq!(Priority::from_name("p3"), Some(Priority::P3));
    assert_eq!(Priority::from_name("P3"), None);
    assert_eq!(Priority::from_name("p3 "), None);
    assert_eq!(Status::from_name("in-progress"), Some(Status::InProgress));
    assert_eq!(Status::from_name("in progress"), None);
    assert_eq!(Status::from_name(""), None);
}
