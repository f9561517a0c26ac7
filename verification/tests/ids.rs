use taskmd_core::ids::{
    ids_exhausted, is_legacy_id, needs_migration, next_id, parse_id_parts, prefix_digits,
    prefix_for, used_sequences,
};

#[test]
fn is_legacy_id_works() {
    assert!(is_legacy_id("0042"));
    assert!(is_legacy_id("0000"));
    assert!(!is_legacy_id("AB042"));
    assert!(!is_legacy_id("042"));
    assert!(!is_legacy_id("00042"));
    assert!(!is_legacy_id("34042"));
}

#[test]
fn needs_migration_legacy() {
    assert!(needs_migration("0042", "34"));
}

#[test]
fn needs_migration_alpha_prefix() {
    assert!(needs_migration("YF042", "34"));
}

#[test]
fn needs_migration_different_numeric_prefix_is_not_migrated() {
    // a valid numeric prefix from another worktree must not be migrated
    assert!(!needs_migration("21042", "34"));
}

#[test]
fn needs_migration_correct_prefix() {
    assert!(!needs_migration("34042", "34"));
}

#[test]
fn parse_id_parts_new() {
    assert_eq!(parse_id_parts("34042"), ("34".to_string(), 42));
}

#[test]
fn parse_id_parts_alpha() {
    assert_eq!(parse_id_parts("AB042"), ("AB".to_string(), 42));
}

#[test]
fn parse_id_parts_legacy() {
    assert_eq!(parse_id_parts("0042"), ("".to_string(), 42));
}

#[test]
fn next_id_overflow_bumps_prefix() {
    // When local bucket fills (seq > 999), prefix increments by 1 (mod 100).
    let prefix_num: u32 = 34;
    let overflow = format!("{:02}", (prefix_num + 1) % 100);
    assert_eq!(overflow, "35");
}

#[test]
fn next_id_overflow_wraps_at_99() {
    let prefix_num: u32 = 99;
    let overflow = format!("{:02}", (prefix_num + 1) % 100);
    assert_eq!(overflow, "00");
}

fn task_name(id: &str) -> String {
    format!("{id}-p2-ready--test.md")
}

#[test]
fn next_id_ignores_foreign_prefix_sequences() {
    let local_prefix = "34";
    let foreign_prefix = "35";
    let names = vec![
        task_name(&format!("{foreign_prefix}900")),
        task_name(&format!("{local_prefix}005")),
    ];
    let id = next_id(34, &names);
    let (pfx, seq) = parse_id_parts(&id);
    assert_eq!(pfx, local_prefix);
    assert_eq!(seq, 6);
}

#[test]
fn next_id_starts_at_001_with_only_foreign_tasks() {
    let names = vec![task_name("35500"), task_name("35501")];
    let id = next_id(34, &names);
    let (pfx, seq) = parse_id_parts(&id);
    assert_eq!(pfx, "34");
    assert_eq!(seq, 1);
}

#[test]
fn next_id_overflow_avoids_collision() {
    let names = vec![task_name("34999"), task_name("35001"), task_name("35002")];
    let id = next_id(34, &names);
    let (pfx, seq) = parse_id_parts(&id);
    assert_eq!(pfx, "35");
    assert_eq!(seq, 3);
}

#[test]
fn next_id_empty_directory_starts_at_one() {
    assert_eq!(next_id(7, &vec![]), "07001");
    assert_eq!(next_id(99, &vec![task_name("99998")]), "99999");
}

#[test]
fn next_id_overflow_wraps_bucket() {
    let names = vec![task_name("99999")];
    assert_eq!(next_id(99, &names), "00001");
}

#[test]
fn next_id_ignores_malformed_and_legacy_names() {
    let names = vec![
        "not-a-task.md".to_string(),
        task_name("0042"),
        task_name("AB900"),
        task_name("34010"),
    ];
    assert_eq!(next_id(34, &names), "34011");
}

#[test]
fn used_sequences_by_prefix() {
    let names = vec![task_name("34003"), task_name("35004"), task_name("34007")];
    assert_eq!(used_sequences(&names, "34"), vec![3, 7]);
    assert_eq!(used_sequences(&names, "35"), vec![4]);
}

#[test]
fn exhaustion_only_when_every_bucket_is_full() {
    assert!(!ids_exhausted(12, &vec![task_name("12999")]));
    let mut names = vec![task_name("12999")];
    for q in 0..100u32 {
        if q == 12 {
            continue;
        }
        for s in 1..=999u32 {
            names.push(task_name(&format!("{q:02}{s:03}")));
        }
    }
    assert!(ids_exhausted(12, &names));
    // freeing the last id of bucket 99 leaves exactly that one id
    names.pop();
    assert!(!ids_exhausted(12, &names));
    assert_eq!(next_id(12, &names), "99999");
    // a free id in bucket 13, right after the local one, is found first
    names.retain(|n| n != &task_name("13500"));
    assert_eq!(next_id(12, &names), "13500");
}

#[test]
fn parse_id_parts_edge_cases() {
    assert_eq!(parse_id_parts("34+42"), ("34".to_string(), 42));
    assert_eq!(parse_id_parts("34x42"), ("34".to_string(), 0));
    assert_eq!(parse_id_parts("3499999999999"), ("34".to_string(), 0));
    assert_eq!(parse_id_parts("12"), ("".to_string(), 0));
}

#[test]
fn prefix_digits_is_a_stable_bucket() {
    let a = prefix_digits("host-a", "/work/tasks");
    assert!(a < 100);
    assert_eq!(a, prefix_digits("host-a", "/work/tasks"));
    // the machine identity and the path both feed the hash
    let by_machine = ["host-b", "host-c", "host-d", "host-e", "host-f"]
        .iter()
        .any(|m| prefix_digits(m, "/work/tasks") != a);
    assert!(by_machine);
    let by_path = ["/a", "/b", "/c", "/d", "/e", "/f"]
        .iter()
        .any(|p| prefix_digits("host-a", p) != a);
    assert!(by_path);
    let p = prefix_for("host-a", "/work/tasks");
    assert_eq!(p, format!("{a:02}"));
}

#[test]
fn prefix_digits_known_value() {
    // SHA-256 of "m\0/t": first two bytes read big-endian, modulo 100
    let h = <sha2::Sha256 as sha2::Digest>::digest(b"m\0/t");
    let expected = ((h[0] as u32) << 8 | h[1] as u32) % 100;
    assert_eq!(prefix_digits("m", "/t"), expected);
}

#[test]
fn prefix_for_is_deterministic() {
    let p1 = prefix_for("builder", "/tmp/project/tasks");
    let p2 = prefix_for("builder", "/tmp/project/tasks");
    assert_eq!(p1, p2);
    assert_eq!(p1.len(), 2);
}

#[test]
fn prefix_is_all_digits() {
    for dir in ["/x", "/tmp/a/tasks", "relative/tasks", ""] {
        let prefix = prefix_for("builder", dir);
        for c in prefix.chars() {
            assert!(c.is_ascii_digit(), "prefix char '{c}' is not a digit");
        }
    }
}

#[test]
fn prefix_digits_override_changes_result() {
    let base = prefix_digits("builder", "/tmp/project/tasks");
    let any_different = ["alpha", "beta", "gamma", "delta", "epsilon"]
        .iter()
        .any(|m| prefix_digits(m, "/tmp/project/tasks") != base);
    assert!(any_different, "machine identity should influence the hash");
}

#[test]
fn prefix_digits_changes_with_path() {
    let base_prefix = prefix_digits("m", "/tmp/x/base");
    let any_different = ["a", "b", "c", "d", "e", "f", "g", "h"]
        .iter()
        .any(|n| prefix_digits("m", &format!("/tmp/x/{n}")) != base_prefix);
    assert!(any_different, "path input should influence the hash");
}

#[test]
fn prefix_digits_same_path_different_machines_differ() {
    let base = prefix_digits("host-a", "/tmp/project/tasks");
    let any_different = ["host-b", "host-c", "host-d", "host-e", "host-f"]
        .iter()
        .any(|m| prefix_digits(m, "/tmp/project/tasks") != base);
    assert!(any_different, "machine identity should influence the hash");
}

#[test]
fn prefix_digits_in_range() {
    for m in ["", "a", "host-with-a-long-name.example.org"] {
        assert!(prefix_digits(m, "/tmp/project/tasks") < 100);
    }
}

#[test]
fn sibling_local_branches_reserve_hidden_task() {
    // The task committed on a sibling branch is absent from the checkout but
    // present in history: its id stays taken.
    let visible = vec!["_TEMPLATE.md".to_string()];
    let history = vec!["_TEMPLATE.md".to_string(), task_name("34001")];
    let mut names = visible;
    names.extend(history);
    let (_, seq) = parse_id_parts(&next_id(34, &names));
    assert_eq!(seq, 2);
}

#[test]
fn renamed_then_deleted_task_remains_reserved() {
    let history = vec![
        "34001-p2-ready--initial.md".to_string(),
        "34001-p2-ready--renamed.md".to_string(),
    ];
    let (_, seq) = parse_id_parts(&next_id(34, &history));
    assert_eq!(seq, 2);
}

#[test]
fn non_git_directory_falls_back_to_visible_tasks() {
    let (_, seq) = parse_id_parts(&next_id(34, &vec![task_name("34005")]));
    assert_eq!(seq, 6);
}

#[test]
fn foreign_and_malformed_filenames_do_not_advance_local_sequence() {
    let names = vec![task_name("34005"), task_name("35900"), "not-a-task.md".to_string()];
    let (_, seq) = parse_id_parts(&next_id(34, &names));
    assert_eq!(seq, 6);
}

#[test]
fn sequential_creates_yield_monotonic_ids() {
    let mut names = vec![task_name("34001")];
    let a = next_id(34, &names);
    names.push(task_name(&a));
    let b = next_id(34, &names);
    assert_ne!(a, b);
    assert_eq!(a[..2], b[..2]);
    let a_seq: u32 = a[2..].parse().unwrap();
    let b_seq: u32 = b[2..].parse().unwrap();
    assert_eq!(b_seq, a_seq + 1);
}

#[test]
fn remote_tracking_branch_reserves_task() {
    // The task only lives on a remote-tracking branch; history lists it.
    let history = vec!["_TEMPLATE.md".to_string(), "34001-p2-ready--remote-fix.md".to_string()];
    let (_, seq) = parse_id_parts(&next_id(34, &history));
    assert_eq!(seq, 2);
}

#[test]
fn reflog_only_commit_reserves_task() {
    let history = vec!["34001-p2-ready--ephemeral-fix.md".to_string()];
    let (_, seq) = parse_id_parts(&next_id(34, &history));
    assert_eq!(seq, 2);
}

#[test]
fn shallow_clone_uses_only_available_history() {
    // A shallow clone does not see the deleted task, so its id is free again.
    let history = vec!["_TEMPLATE.md".to_string()];
    let (pfx, seq) = parse_id_parts(&next_id(34, &history));
    assert_eq!(pfx, "34");
    assert_eq!(seq, 1);
}
