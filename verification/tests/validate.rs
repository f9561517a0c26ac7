use taskmd_core::validate::validate;

fn names(v: &[&str]) -> Vec<String> {
    v.iter().map(|s| s.to_string()).collect()
}

#[test]
fn clean_directory_validates() {
    let r = validate(&names(&["34001-p2-ready--a.md", "34002-p0-done--b.md", "_TEMPLATE.md"]));
    assert!(r.ok(), "{:?}", r.errors);
    assert_eq!(r.file_count, 2);
}

#[test]
fn bad_names_are_reported_in_order() {
    let r = validate(&names(&["zz.md", "34001-p9-ready--a.md", "notes.txt"]));
    assert_eq!(
        r.errors,
        vec![
            "34001-p9-ready--a.md: filename doesn't match pattern DDNNN-pX-status--slug.md".to_string(),
            "zz.md: filename doesn't match pattern DDNNN-pX-status--slug.md".to_string(),
        ]
    );
    assert_eq!(r.file_count, 2);
}

#[test]
fn duplicate_ids_are_reported_once_per_id() {
    let r = validate(&names(&[
        "34001-p2-ready--b.md",
        "34001-p1-done--a.md",
        "21005-p0-ready--x.md",
        "21005-p0-ready--y.md",
        "34002-p2-ready--solo.md",
    ]));
    assert_eq!(
        r.errors,
        vec![
            "duplicate task id 21005: 21005-p0-ready--x.md, 21005-p0-ready--y.md — run 'taskmd fix' to auto-renumber".to_string(),
            "duplicate task id 34001: 34001-p1-done--a.md, 34001-p2-ready--b.md — run 'taskmd fix' to auto-renumber".to_string(),
        ]
    );
    assert!(!r.ok());
}
