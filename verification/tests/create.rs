use taskmd_core::constants::{Priority, Status};
use taskmd_core::create::{check_new_task, MAX_CREATE_RETRIES};
use taskmd_core::error::Error;
use taskmd_core::filename::format_filename;
use taskmd_core::validate::validate;

fn ok(slug: &str, body: &str) -> (String, String) {
    let (p, st, slug, content) = check_new_task("p2", "ready", slug, true, "tasks", body).unwrap();
    assert_eq!((p, st), (Priority::P2, Status::Ready));
    (slug, content)
}

#[test]
fn creates_task_file_with_body_only() {
    let (slug, content) = ok("fix-the-bug", "My custom body.");
    let filename = format_filename("34001", Priority::P2, Status::Ready, &slug);
    assert!(filename.ends_with("-p2-ready--fix-the-bug.md"));
    assert!(!content.starts_with("---"));
    assert_eq!(content, "My custom body.\n");
}

#[test]
fn trailing_newlines_collapse_to_one() {
    let (_, content) = ok("s", "line one\nline two\n\n\n");
    assert_eq!(content, "line one\nline two\n");
}

#[test]
fn rejects_empty_body() {
    for body in ["", "   ", "\n", "\t\n  \n"] {
        let r = check_new_task("p2", "ready", "s", true, "tasks", body);
        assert!(matches!(r, Err(Error::EmptyBody)), "body {body:?}");
    }
}

#[test]
fn rejects_invalid_priority() {
    match check_new_task("p9", "ready", "s", true, "tasks", "body") {
        Err(e @ Error::InvalidPriority { .. }) => assert_eq!(
            e.message(),
            "invalid priority 'p9', expected one of: p0, p1, p2, p3, p4"
        ),
        other => panic!("unexpected {other:?}"),
    }
}

#[test]
fn rejects_invalid_status() {
    match check_new_task("p2", "pending", "s", true, "tasks", "body") {
        Err(e @ Error::InvalidStatus { .. }) => assert_eq!(
            e.message(),
            "invalid status 'pending', expected one of: blocked, brainstorming, done, in-progress, ready, wont-do"
        ),
        other => panic!("unexpected {other:?}"),
    }
}

#[test]
fn rejects_slug_with_no_alphanumerics() {
    for slug in ["", "   ", "\t", "!!!", "---", "  / \n "] {
        let r = check_new_task("p2", "ready", slug, true, "tasks", "body");
        match r {
            Err(Error::InvalidSlug { got, reason }) => {
                assert_eq!(got, slug);
                assert_eq!(reason, "must contain at least one alphanumeric character");
            }
            other => panic!("expected InvalidSlug for slug {slug:?}, got {other:?}"),
        }
    }
}

#[test]
fn rejects_missing_tasks_dir() {
    let r = check_new_task("p2", "ready", "s", false, "/tmp/x/does-not-exist", "body");
    match r {
        Err(Error::TasksDirNotFound { path }) => assert_eq!(path, "/tmp/x/does-not-exist"),
        other => panic!("unexpected {other:?}"),
    }
}

#[test]
fn checks_run_in_order() {
    assert!(matches!(check_new_task("px", "nope", "!!!", false, "t", ""), Err(Error::InvalidPriority { .. })));
    assert!(matches!(check_new_task("p1", "nope", "!!!", false, "t", ""), Err(Error::InvalidStatus { .. })));
    assert!(matches!(check_new_task("p1", "done", "!!!", false, "t", ""), Err(Error::InvalidSlug { .. })));
    assert!(matches!(check_new_task("p1", "done", "ok", false, "t", ""), Err(Error::TasksDirNotFound { .. })));
    assert!(matches!(check_new_task("p1", "done", "ok", true, "t", " "), Err(Error::EmptyBody)));
    assert!(matches!("p9".parse::<Priority>(), Err(Error::InvalidPriority { .. })));
}

#[test]
fn slug_is_normalized() {
    let (slug, _) = ok("Fix The Bug!", "body");
    let filename = format_filename("34001", Priority::P2, Status::Ready, &slug);
    assert!(filename.contains("--fix-the-bug.md"));
}

#[test]
fn created_file_always_passes_validate() {
    let mut names = vec![];
    let mut seq = 1;
    for (p, st, slug) in [
        (Priority::P0, Status::Ready, "Fix: The Bug!".to_string()),
        (Priority::P4, Status::InProgress, "x".to_string()),
        (Priority::P2, Status::Brainstorming, "a".repeat(200)),
    ] {
        let (slug, _) = ok(&slug, "body");
        names.push(format_filename(&format!("34{seq:03}"), p, st, &slug));
        seq += 1;
    }
    let r = validate(&names);
    assert!(r.ok(), "validate failed: {:?}", r.errors);
    assert_eq!(r.file_count, 3);
}

#[test]
fn retry_budget_is_fifty() {
    assert_eq!(MAX_CREATE_RETRIES, 50);
    let e = Error::IdAllocationExhausted { tasks_dir: "/t".to_string(), tries: MAX_CREATE_RETRIES };
    assert_eq!(e.message(), "failed to allocate a unique task ID in /t after 50 attempts");
}
