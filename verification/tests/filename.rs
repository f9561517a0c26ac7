use taskmd_core::constants::{Priority, Status, VALID_PRIORITIES, VALID_STATUSES};
use taskmd_core::filename::{
    derive_slug, format_filename, parse_filename, slug_from_lowercase, MAX_SLUG_LEN,
};

#[test]
fn pattern_contains_all_valid_statuses() {
    for status in VALID_STATUSES {
        let name = format!("34042-p2-{status}--slug.md");
        assert!(
            parse_filename(&name).is_some(),
            "pattern missing status '{status}'"
        );
    }
}

#[test]
fn pattern_contains_all_valid_priorities() {
    for priority in VALID_PRIORITIES {
        let name = format!("34042-{priority}-ready--slug.md");
        assert!(
            parse_filename(&name).is_some(),
            "pattern missing priority '{priority}'"
        );
    }
}

#[test]
fn parse_numeric_format() {
    let r = parse_filename("34042-p2-ready--fix-the-bug.md").unwrap();
    assert_eq!(r.id, "34042");
    assert_eq!(r.priority, Priority::P2);
    assert_eq!(r.status, Status::Ready);
    assert_eq!(r.slug, "fix-the-bug");
}

#[test]
fn parse_alpha_prefix_format() {
    let r = parse_filename("YF042-p2-ready--fix-the-bug.md").unwrap();
    assert_eq!(r.id, "YF042");
    assert_eq!(r.priority, Priority::P2);
    assert_eq!(r.status, Status::Ready);
    assert_eq!(r.slug, "fix-the-bug");
}

#[test]
fn parse_legacy_format() {
    let r = parse_filename("0042-p1-in-progress--refactor.md").unwrap();
    assert_eq!(r.id, "0042");
    assert_eq!(r.priority, Priority::P1);
    assert_eq!(r.status, Status::InProgress);
    assert_eq!(r.slug, "refactor");
}

#[test]
fn parse_rejects_bad_name() {
    assert!(parse_filename("not-a-task.md").is_none());
    assert!(parse_filename("34042-p5-ready--slug.md").is_none()); // p5 invalid
    assert!(parse_filename("34042-p2-pending--slug.md").is_none()); // unknown status
}

#[test]
fn format_roundtrip_numeric() {
    let name = "34042-p2-in-progress--my-slug.md";
    let p = parse_filename(name).unwrap();
    assert_eq!(format_filename(&p.id, p.priority, p.status, &p.slug), name);
}

#[test]
fn format_roundtrip_alpha() {
    let name = "YF042-p2-in-progress--my-slug.md";
    let p = parse_filename(name).unwrap();
    assert_eq!(format_filename(&p.id, p.priority, p.status, &p.slug), name);
}

#[test]
fn derive_slug_basic() {
    assert_eq!(derive_slug("Fix the Bug"), "fix-the-bug");
}

#[test]
fn derive_slug_special_chars() {
    assert_eq!(derive_slug("Add OAuth2 support!"), "add-oauth2-support");
}

#[test]
fn derive_slug_truncates_at_max() {
    let long = "a".repeat(MAX_SLUG_LEN + 10);
    assert!(derive_slug(&long).len() <= MAX_SLUG_LEN);
}

#[test]
fn derive_slug_no_trailing_hyphen() {
    assert!(!derive_slug("hello world ").ends_with('-'));
    assert!(!derive_slug(&("a".repeat(MAX_SLUG_LEN) + "-")).ends_with('-'));
}

#[test]
fn parse_rejects_structural_variants() {
    // id forms: I and O are not prefix letters; three digits are too few
    assert!(parse_filename("IO042-p2-ready--x.md").is_none());
    assert!(parse_filename("042-p2-ready--x.md").is_none());
    // slug must be non-empty, and the extension exactly `.md`
    assert!(parse_filename("34042-p2-ready--.md").is_none());
    assert!(parse_filename("34042-p2-ready--x.mdx").is_none());
    assert!(parse_filename("34042-p2-ready-x.md").is_none());
    // a line feed cannot stand in a slug
    assert!(parse_filename("34042-p2-ready--a\nb.md").is_none());
    // the slug may itself hold dashes and dots
    let p = parse_filename("34042-p0-wont-do--a--b.c.md").unwrap();
    assert_eq!(p.status, Status::WontDo);
    assert_eq!(p.slug, "a--b.c");
}

#[test]
fn format_filename_exact() {
    assert_eq!(
        format_filename("34001", Priority::P4, Status::Brainstorming, "x"),
        "34001-p4-brainstorming--x.md"
    );
}

#[test]
fn derive_slug_edge_cases() {
    assert_eq!(derive_slug(""), "untitled");
    assert_eq!(derive_slug("!!!"), "untitled");
    assert_eq!(derive_slug("  --Hello,   World--  "), "hello-world");
    assert_eq!(derive_slug("Fix: The Bug!"), "fix-the-bug");
    // 41 letters then more: cut at 40, then a hyphen at the cut is dropped
    let t = format!("{} {}", "a".repeat(39), "bbbb");
    assert_eq!(derive_slug(&t), "a".repeat(39));
    assert_eq!(slug_from_lowercase("Ab c"), "Ab-c");
    assert_eq!(slug_from_lowercase("é x"), "x");
}

#[test]
fn derive_slug_is_idempotent() {
    for t in ["Fix the Bug", "  Ünïcödé Title ", "UPPER_case-Mixed 42", "", "!!!", &"ab ".repeat(30)] {
        let once = derive_slug(t);
        assert_eq!(derive_slug(&once), once, "title {t:?}");
        assert!(once.chars().all(|c| c.is_ascii_lowercase() || c.is_ascii_digit() || c == '-'));
    }
}
