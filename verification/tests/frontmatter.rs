use taskmd_core::frontmatter::{frontmatter_fields, has_valid_frontmatter, parse_frontmatter_str};

#[test]
fn parses_basic_fields() {
    let content = "---\nstatus: ready\npriority: p2\n---\n\nBody\n";
    let fields = parse_frontmatter_str(content);
    assert_eq!(fields["status"], "ready");
    assert_eq!(fields["priority"], "p2");
}

#[test]
fn handles_colon_in_value() {
    let content = "---\nartifact: path/to/file:line\n---\n";
    let fields = parse_frontmatter_str(content);
    assert_eq!(fields["artifact"], "path/to/file:line");
}

#[test]
fn returns_empty_on_missing_frontmatter() {
    let fields = parse_frontmatter_str("no frontmatter here\n");
    assert!(fields.is_empty());
}

#[test]
fn returns_empty_on_unclosed_frontmatter() {
    let fields = parse_frontmatter_str("---\nstatus: ready\n");
    assert!(fields.is_empty());
}

#[test]
fn fields_are_trimmed_and_in_order() {
    let content = "---\r\n  status :  ready  \r\nno colon line\r\npriority:p1\r\n---\r\n";
    let fields = frontmatter_fields(content);
    assert_eq!(
        fields,
        vec![
            ("status".to_string(), "ready".to_string()),
            ("priority".to_string(), "p1".to_string()),
        ]
    );
}

#[test]
fn later_key_replaces_earlier() {
    let fields = parse_frontmatter_str("---\nstatus: ready\nstatus: done\n---\n");
    assert_eq!(fields.len(), 1);
    assert_eq!(fields["status"], "done");
}

#[test]
fn valid_frontmatter_needs_open_and_close() {
    assert!(has_valid_frontmatter("---\na: b\n---\nbody"));
    assert!(has_valid_frontmatter("---\r\na: b\r\n---\r\n"));
    assert!(!has_valid_frontmatter("---\na: b\n"));
    assert!(!has_valid_frontmatter("a: b\n---\n"));
}
