use taskmd_core::date::infer_created_date;
use taskmd_core::error::Error;
use taskmd_core::init::{EnsureResult, InitResult};
use taskmd_core::order::sort_strings;
use taskmd_core::util::normalize_line_endings;
use taskmd_core::date::last_line;
use taskmd_core::tiebreak::first_seen_from_log;
use taskmd_core::tiebreak::parse_i64;
use taskmd_core::create::{after_attempt, CreateAttempt, CreateStep, MAX_CREATE_RETRIES};

#[test]
fn created_date_prefers_history_then_mtime_then_today() {
    let g = Some("2025-01-02".to_string());
    let m = Some("2025-03-04".to_string());
    let t = "2026-05-06".to_string();
    assert_eq!(infer_created_date(g.clone(), m.clone(), t.clone()), "2025-01-02");
    assert_eq!(infer_created_date(None, m, t.clone()), "2025-03-04");
    assert_eq!(infer_created_date(None, None, t), "2026-05-06");
}

#[test]
fn error_messages() {
    assert_eq!(
        Error::InvalidSlug { got: "a\"b".to_string(), reason: "bad".to_string() }.message(),
        "invalid slug \"a\\\"b\": bad"
    );
    assert_eq!(
        Error::TasksDirNotFound { path: "/x".to_string() }.message(),
        "tasks directory does not exist: /x (run 'taskmd init' first)"
    );
    assert_eq!(
        Error::TargetExists { path: "/x/a.md".to_string() }.message(),
        "target already exists: /x/a.md"
    );
    assert!(Error::EmptyBody.message().starts_with("body is required"));
    let io = Error::Io(std::io::Error::new(std::io::ErrorKind::Other, "boom"));
    assert_eq!(io.message(), "boom");
}

#[test]
fn init_results_report_errors() {
    let ok = InitResult { tasks_dir: "tasks".to_string(), created: vec![], error: None };
    assert!(ok.ok());
    let bad = EnsureResult { tasks_dir: "tasks".to_string(), created: vec![], error: Some("x".to_string()) };
    assert!(!bad.ok());
}

#[test]
fn sort_strings_is_byte_order_and_stable() {
    let v = vec!["b".to_string(), "B".to_string(), "a".to_string(), "ab".to_string(), "a".to_string()];
    assert_eq!(sort_strings(v), vec!["B", "a", "a", "ab", "b"]);
}

#[test]
fn line_endings_are_normalised() {
    assert_eq!(normalize_line_endings("a\r\nb\rc\n"), "a\nb\rc\n");
    assert_eq!(normalize_line_endings("\r\n\r\n"), "\n\n");
}

#[test]
fn last_line_of_history_output() {
    assert_eq!(last_line("2026-03-01\n2025-12-24\n"), Some("2025-12-24".to_string()));
    assert_eq!(last_line("  2025-01-01  \n\n"), Some("2025-01-01".to_string()));
    assert_eq!(last_line(""), None);
    assert_eq!(last_line(" \n\t\n"), None);
}

#[test]
fn first_seen_reads_the_oldest_entry() {
    assert_eq!(first_seen_from_log("1700000300\n1700000100\n"), Some(1700000100));
    assert_eq!(first_seen_from_log("\n"), None);
    assert_eq!(first_seen_from_log("not a number\n"), None);
}

#[test]
fn parse_i64_matches_std() {
    for s in [
        "0", "42", "+42", "-42", "007", "9223372036854775807", "-9223372036854775808",
        "9223372036854775808", "-9223372036854775809", "", "+", "-", "1 ", "1a", "99999999999999999999999",
    ] {
        assert_eq!(parse_i64(s), s.parse::<i64>().ok(), "input {s:?}");
    }
}

#[test]
fn create_retries_only_collisions() {
    assert_eq!(after_attempt(1, CreateAttempt::Created), CreateStep::Finish);
    assert_eq!(after_attempt(1, CreateAttempt::Failed), CreateStep::Fail);
    assert_eq!(after_attempt(1, CreateAttempt::AlreadyExists), CreateStep::Retry);
    assert_eq!(after_attempt(MAX_CREATE_RETRIES - 1, CreateAttempt::AlreadyExists), CreateStep::Retry);
    assert_eq!(after_attempt(MAX_CREATE_RETRIES, CreateAttempt::AlreadyExists), CreateStep::Exhausted);
}

#[test]
fn io_errors_convert() {
    let e: Error = std::io::Error::new(std::io::ErrorKind::NotFound, "gone").into();
    assert!(matches!(e, Error::Io(_)));
    assert_eq!(e.message(), "gone");
}

#[test]
fn text_without_crlf_is_unchanged() {
    for s in ["", "plain\ntext\r", "\r\r", "a\n\rb"] {
        assert_eq!(normalize_line_endings(s), s);
    }
}

#[test]
fn frontmatter_readings_agree() {
    use_frontmatter_pairs(&["---\na: b\n---\nx", "---\na: b\n", "x\n---\na\n---\n", "---\r\n---\r\n\r\n---\r\n", ""]);
}

fn use_frontmatter_pairs(inputs: &[&str]) {
    for c in inputs {
        assert_eq!(
            taskmd_core::fix::has_frontmatter(c),
            taskmd_core::frontmatter::has_valid_frontmatter(c),
            "input {c:?}"
        );
        if !taskmd_core::frontmatter::has_valid_frontmatter(c) {
            assert!(taskmd_core::frontmatter::frontmatter_fields(c).is_empty());
        }
    }
}

#[test]
fn normalisation_borrows_when_nothing_changes() {
    assert!(matches!(normalize_line_endings("a\nb\r"), std::borrow::Cow::Borrowed(_)));
    assert!(matches!(normalize_line_endings("a\r\nb"), std::borrow::Cow::Owned(_)));
}
