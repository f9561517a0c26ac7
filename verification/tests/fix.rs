use taskmd_core::fix::{
    duplicate_groups, fix_summary, has_frontmatter, plan_fix, plan_renumber, strip_frontmatter,
    FixResult, FixStep, MigrateMode, RenameOutcome,
};
use taskmd_core::tiebreak::{sort_by_tiebreaker, TiebreakEntry};

fn entry(path: &str, first_seen: Option<i64>, mtime: Option<i128>) -> TiebreakEntry {
    let name = path.rsplit('/').next().unwrap().to_string();
    TiebreakEntry { first_seen, mtime, name, path: path.to_string() }
}

fn names(v: &[&str]) -> Vec<String> {
    v.iter().map(|s| s.to_string()).collect()
}

#[test]
fn tiebreaker_lexicographic_for_nonexistent_paths() {
    // Paths that do not exist have neither a history date nor an mtime.
    let a = entry("/nonexistent/34001-p2-ready--alpha.md", None, None);
    let b = entry("/nonexistent/34001-p2-ready--bravo.md", None, None);
    let mut paths = vec![b.clone(), a.clone()];
    sort_by_tiebreaker(&mut paths);
    assert_eq!(paths[0].path, a.path);
}

#[test]
fn tiebreaker_mtime_selects_earliest() {
    // zebra was written first, so it keeps the id although alpha sorts first by name.
    let zebra = entry("/t/34100-p2-ready--zebra.md", None, Some(1_000));
    let alpha = entry("/t/34100-p2-ready--alpha.md", None, Some(2_000));
    let mut paths = vec![alpha.clone(), zebra.clone()];
    sort_by_tiebreaker(&mut paths);
    assert_eq!(paths[0].path, zebra.path);
    assert_eq!(paths[1].path, alpha.path);
}

#[test]
fn tiebreaker_history_beats_mtime_and_name() {
    let late_mtime_but_first_commit = entry("/t/34001-p2-ready--z.md", Some(10), Some(9_999));
    let early_mtime = entry("/t/34001-p2-ready--a.md", Some(20), Some(1));
    let unknown_history = entry("/t/34001-p2-ready--b.md", None, Some(0));
    let mut v = vec![unknown_history.clone(), early_mtime.clone(), late_mtime_but_first_commit.clone()];
    sort_by_tiebreaker(&mut v);
    assert_eq!(v[0].path, late_mtime_but_first_commit.path);
    assert_eq!(v[1].path, early_mtime.path);
    assert_eq!(v[2].path, unknown_history.path);
}

#[test]
fn summary_reports_renumber_count() {
    assert_eq!(fix_summary(0, 0, 2, 0), "Renumbered 2 duplicate ID(s)");
    assert_eq!(
        fix_summary(1, 0, 1, 0),
        "Renamed 1 file(s), renumbered 1 duplicate ID(s)"
    );
    assert_eq!(fix_summary(0, 0, 0, 0), "All files already correct");
    assert_eq!(
        fix_summary(0, 0, 0, 2),
        "Stripped frontmatter from 2 file(s)"
    );
}

#[test]
fn summary_lists_every_counter_in_order() {
    assert_eq!(
        fix_summary(3, 2, 1, 4),
        "Stripped frontmatter from 4 file(s), renamed 3 file(s), migrated 2 file(s) to numeric ID format, renumbered 1 duplicate ID(s)"
    );
    assert_eq!(fix_summary(12, 0, 0, 0), "Renamed 12 file(s)");
}

#[test]
fn strip_frontmatter_returns_none_for_no_frontmatter() {
    assert!(strip_frontmatter("# Hello\n").is_none());
    assert!(strip_frontmatter("").is_none());
    assert!(strip_frontmatter("---\nopen but no close").is_none());
}

#[test]
fn strip_frontmatter_handles_well_formed_block() {
    let s = "---\nfoo: bar\n---\n\n# Title\n\nbody\n";
    let stripped = strip_frontmatter(s).unwrap();
    assert_eq!(stripped, "# Title\n\nbody\n");
}

#[test]
fn strip_frontmatter_normalises_crlf() {
    let s = "---\r\nfoo: bar\r\n---\r\n\r\n# Title\r\n";
    assert_eq!(strip_frontmatter(s).unwrap(), "# Title\n");
    assert!(has_frontmatter(s));
    assert!(!has_frontmatter("# Title\n"));
}

#[test]
fn migrate_mode_idempotent() {
    // Stripping twice: the second pass finds no frontmatter.
    let content = "---\ncreated: 2026-01-01\npriority: p2\nstatus: ready\nartifact: x\n---\n\n# alpha\n\nbody\n";
    let once = strip_frontmatter(content).unwrap();
    assert_eq!(once, "# alpha\n\nbody\n");
    assert!(strip_frontmatter(&once).is_none());
    let mut r = FixResult::new();
    assert!(r.note_migrate_read("34001-p2-ready--alpha.md", Ok(once)).is_none());
    assert_eq!(r.frontmatter_stripped.len(), 0);
    assert!(r.ok());
}

#[test]
fn prompt_mode_fails_when_frontmatter_present() {
    let mut r = FixResult::new();
    let content = "---\ncreated: 2026-01-01\n---\n\n# alpha\n".to_string();
    r.note_prompt_read("34001-p2-ready--alpha.md", Ok(content));
    assert!(r.finish_prompt());
    assert!(!r.ok());
    assert_eq!(r.frontmatter_pending.len(), 1);
    assert!(r.frontmatter_pending[0].contains("alpha"));
    assert!(r.errors[0].contains("--migrate"));
    assert!(r.errors[0].contains("--no-migrate"));
    assert!(r.errors[0].starts_with("1 task file(s) have legacy YAML frontmatter"));
}

#[test]
fn prompt_mode_passes_when_no_frontmatter() {
    let mut r = FixResult::new();
    r.note_prompt_read("34001-p2-ready--alpha.md", Ok("# alpha\n".to_string()));
    assert!(!r.finish_prompt());
    assert!(r.ok());
    assert_eq!(r.frontmatter_pending.len(), 0);
}

#[test]
fn prompt_mode_stops_on_unreadable_file() {
    let mut r = FixResult::new();
    r.note_prompt_read("34001-p2-ready--alpha.md", Err("permission denied".to_string()));
    assert_eq!(
        r.errors,
        vec!["34001-p2-ready--alpha.md: cannot read for frontmatter check: permission denied".to_string()]
    );
    assert!(r.finish_prompt());
}

#[test]
fn migrate_mode_records_reads_and_writes() {
    let mut r = FixResult::new();
    let body = r
        .note_migrate_read("a.md", Ok("---\nx: y\n---\n# a\n".to_string()))
        .unwrap();
    assert_eq!(body, "# a\n");
    r.note_migrate_write("a.md", Ok(()));
    r.note_migrate_write("b.md", Err("disk full".to_string()));
    assert!(r.note_migrate_read("c.md", Err("gone".to_string())).is_none());
    assert_eq!(r.frontmatter_stripped, vec!["a.md".to_string()]);
    assert_eq!(
        r.errors,
        vec!["b.md: cannot write: disk full".to_string(), "c.md: cannot read: gone".to_string()]
    );
}

#[test]
fn duplicates_post_legacy_migration() {
    let files = names(&["0042-p2-ready--legacy.md", "34042-p2-ready--existing.md"]);
    let plan = plan_fix("34", &files);
    assert_eq!(plan.len(), 2);
    // 42 is taken locally, so the legacy file moves to the next free number.
    match &plan[0] {
        FixStep::Rename { from, to, migrated } => {
            assert_eq!(from, "0042-p2-ready--legacy.md");
            assert_eq!(to, "34043-p2-ready--legacy.md");
            assert!(*migrated);
        }
        other => panic!("unexpected step {:?}", other),
    }
    assert!(matches!(plan[1], FixStep::Keep));
}

#[test]
fn plan_migrates_alpha_prefix_and_reports_unparseable() {
    let files = names(&["YF007-p1-done--old.md", "garbage.md"]);
    let plan = plan_fix("21", &files);
    match &plan[0] {
        FixStep::Rename { to, migrated, .. } => {
            assert_eq!(to, "21007-p1-done--old.md");
            assert!(*migrated);
        }
        other => panic!("unexpected step {:?}", other),
    }
    match &plan[1] {
        FixStep::Fail(m) => assert_eq!(m, "garbage.md: could not parse file"),
        other => panic!("unexpected step {:?}", other),
    }
}

#[test]
fn plan_rejects_legacy_sequence_over_999() {
    let files = names(&["1234-p2-ready--big.md"]);
    let plan = plan_fix("34", &files);
    match &plan[0] {
        FixStep::Fail(m) => assert_eq!(
            m,
            "1234-p2-ready--big.md: task sequence 1234 exceeds 999, cannot migrate to 3-digit format"
        ),
        other => panic!("unexpected step {:?}", other),
    }
}

#[test]
fn plan_reports_no_free_sequence() {
    let files = names(&["0999-p2-ready--last.md", "34999-p2-ready--taken.md"]);
    let plan = plan_fix("34", &files);
    match &plan[0] {
        FixStep::Fail(m) => assert_eq!(
            m,
            "0999-p2-ready--last.md: no available sequence after collision avoidance"
        ),
        other => panic!("unexpected step {:?}", other),
    }
}

#[test]
fn plan_keeps_other_worktree_numeric_ids() {
    let files = names(&["21042-p2-ready--theirs.md", "34001-p0-done--ours.md"]);
    let plan = plan_fix("34", &files);
    assert!(plan.iter().all(|s| matches!(s, FixStep::Keep)));
}

#[test]
fn note_step_counts_renames_and_errors() {
    let mut r = FixResult::new();
    let step = FixStep::Rename {
        from: "0001-p2-ready--a.md".to_string(),
        to: "34001-p2-ready--a.md".to_string(),
        migrated: true,
    };
    r.note_step(&step, RenameOutcome::Done);
    r.note_step(&step, RenameOutcome::TargetExists);
    r.note_step(&step, RenameOutcome::Failed("busy".to_string()));
    r.note_step(&FixStep::Keep, RenameOutcome::Done);
    assert_eq!(r.renamed, 1);
    assert_eq!(r.migrated, 1);
    assert_eq!(
        r.renames,
        vec![("0001-p2-ready--a.md".to_string(), "34001-p2-ready--a.md".to_string())]
    );
    assert_eq!(
        r.errors,
        vec![
            "0001-p2-ready--a.md: cannot rename to 34001-p2-ready--a.md, file exists".to_string(),
            "0001-p2-ready--a.md: cannot rename: busy".to_string(),
        ]
    );
    assert_eq!(r.summary(), "Renamed 1 file(s), migrated 1 file(s) to numeric ID format");
}

#[test]
fn no_duplicates_is_a_noop() {
    let files = names(&["34001-p2-ready--a.md", "34002-p2-ready--b.md"]);
    assert!(duplicate_groups(&files).is_empty());
    let r = FixResult::new();
    assert!(r.ok());
    assert_eq!(r.renumbered.len(), 0);
}

#[test]
fn duplicate_groups_are_sorted_by_id() {
    let files = names(&[
        "34001-p1-done--x.md",
        "34001-p2-ready--y.md",
        "34002-p2-ready--solo.md",
        "21005-p0-ready--p.md",
        "21005-p4-blocked--q.md",
        "21005-p2-ready--r.md",
    ]);
    let groups = duplicate_groups(&files);
    assert_eq!(groups.len(), 2);
    assert_eq!(groups[0].0, "21005");
    assert_eq!(
        groups[0].1,
        names(&["21005-p0-ready--p.md", "21005-p4-blocked--q.md", "21005-p2-ready--r.md"])
    );
    assert_eq!(groups[1].0, "34001");
    assert_eq!(groups[1].1, names(&["34001-p1-done--x.md", "34001-p2-ready--y.md"]));
}

#[test]
fn duplicates_across_priorities_and_statuses() {
    let r = plan_renumber("34042-p0-done--beta.md", "34043").unwrap();
    assert_eq!(r.0, "34042");
    assert_eq!(r.1, "34043-p0-done--beta.md");
    assert!(r.1.contains("-p0-done--beta.md"));
}

#[test]
fn renumber_refuses_exhausted_space_and_unparseable_names() {
    assert_eq!(
        plan_renumber("34001-p2-ready--a.md", "341000").unwrap_err(),
        "34001-p2-ready--a.md: cannot renumber — prefix space appears exhausted (next_id returned '341000')"
    );
    assert_eq!(
        plan_renumber("nope.md", "34002").unwrap_err(),
        "nope.md: cannot re-parse for renumber"
    );
}

#[test]
fn renumbered_losers_are_not_counted_as_renames() {
    let mut r = FixResult::new();
    r.note_renumber(
        "34001".to_string(),
        "34002".to_string(),
        "34001-p2-ready--second.md".to_string(),
        "34002-p2-ready--second.md".to_string(),
        RenameOutcome::Done,
    );
    assert_eq!(r.renamed, 0);
    assert_eq!(r.renames.len(), 0);
    assert_eq!(r.renumbered.len(), 1);
    assert_eq!(r.summary(), "Renumbered 1 duplicate ID(s)");
}

#[test]
fn renumber_failures_are_errors() {
    let mut r = FixResult::new();
    r.note_renumber(
        "34001".to_string(),
        "34002".to_string(),
        "34001-p2-ready--b.md".to_string(),
        "34002-p2-ready--b.md".to_string(),
        RenameOutcome::TargetExists,
    );
    r.note_renumber(
        "34001".to_string(),
        "34003".to_string(),
        "34001-p2-ready--c.md".to_string(),
        "34003-p2-ready--c.md".to_string(),
        RenameOutcome::Failed("denied".to_string()),
    );
    assert_eq!(r.renumbered.len(), 0);
    assert_eq!(
        r.errors,
        vec![
            "34001-p2-ready--b.md: cannot renumber to 34002-p2-ready--b.md, file exists".to_string(),
            "34001-p2-ready--c.md: cannot renumber: denied".to_string(),
        ]
    );
}

#[test]
fn fix_is_idempotent_after_renumber() {
    // After a renumber every id is five digits: a second plan keeps everything
    // and finds no duplicates.
    let files = names(&["34001-p2-ready--a.md", "34002-p2-ready--b.md"]);
    let plan = plan_fix("34", &files);
    assert!(plan.iter().all(|s| matches!(s, FixStep::Keep)));
    assert!(duplicate_groups(&files).is_empty());
}

#[test]
fn migrate_mode_variants_are_distinct() {
    assert_ne!(MigrateMode::Prompt, MigrateMode::Migrate);
    assert_ne!(MigrateMode::Migrate, MigrateMode::Skip);
}

fn renumber_group(files: &[&str], mtimes: &[i128]) -> (Vec<String>, Vec<(String, String)>) {
    // Winner first, then each loser renumbered to a fresh id, as fix does.
    let mut names = names(files);
    let groups = duplicate_groups(&names);
    assert_eq!(groups.len(), 1);
    let mut entries: Vec<TiebreakEntry> = groups[0]
        .1
        .iter()
        .map(|n| {
            let k = files.iter().position(|f| f == n).unwrap();
            entry(&format!("/t/{n}"), None, Some(mtimes[k]))
        })
        .collect();
    sort_by_tiebreaker(&mut entries);
    let mut renamed = vec![];
    for loser in entries.iter().skip(1) {
        let new_id = taskmd_core::ids::next_id(34, &names);
        let (_, new_name) = plan_renumber(&loser.name, &new_id).unwrap();
        names.retain(|n| n != &loser.name);
        names.push(new_name.clone());
        renamed.push((loser.name.clone(), new_name));
    }
    (entries.iter().map(|e| e.name.clone()).collect(), renamed)
}

#[test]
fn two_duplicates_one_renumbered() {
    let (order, renamed) = renumber_group(
        &["34001-p1-done--loser.md", "34001-p2-ready--winner.md"],
        &[2_000, 1_000],
    );
    assert_eq!(order[0], "34001-p2-ready--winner.md");
    assert_eq!(renamed.len(), 1);
    assert!(renamed[0].0.contains("loser"));
    assert_eq!(renamed[0].1, "34002-p1-done--loser.md");
}

#[test]
fn three_duplicates_two_renumbered() {
    let (order, renamed) = renumber_group(
        &["34001-p2-ready--a-first.md", "34001-p2-ready--b-second.md", "34001-p2-ready--c-third.md"],
        &[1, 2, 3],
    );
    assert_eq!(order[0], "34001-p2-ready--a-first.md");
    assert_eq!(renamed.len(), 2);
    assert_eq!(renamed[0].1, "34002-p2-ready--b-second.md");
    assert_eq!(renamed[1].1, "34003-p2-ready--c-third.md");
}

#[test]
fn migrate_mode_strips_frontmatter() {
    let content = "---\ncreated: 2026-01-01\npriority: p2\nstatus: ready\nartifact: x\n---\n\n# alpha\n\nbody\n";
    let mut r = FixResult::new();
    let body = r.note_migrate_read("34001-p2-ready--alpha.md", Ok(content.to_string())).unwrap();
    r.note_migrate_write("34001-p2-ready--alpha.md", Ok(()));
    assert!(r.ok(), "{:?}", r.errors);
    assert_eq!(r.frontmatter_stripped.len(), 1);
    assert!(!body.starts_with("---"));
    assert!(body.starts_with("# alpha"));
    assert!(body.contains("body"));
}

#[test]
fn fix_renames_only_change_ids() {
    use_parse_check(&[
        "0007-p4-blocked--old-legacy.md",
        "AB012-p0-wont-do--alpha.md",
        "34012-p1-in-progress--taken.md",
        "21999-p2-ready--foreign.md",
    ]);
}

fn use_parse_check(files: &[&str]) {
    let plan = plan_fix("34", &names(files));
    assert_eq!(plan.len(), files.len());
    let mut renames = 0;
    for step in &plan {
        if let FixStep::Rename { from, to, migrated } = step {
            renames += 1;
            let a = taskmd_core::filename::parse_filename(from).unwrap();
            let b = taskmd_core::filename::parse_filename(to).unwrap();
            assert_eq!((a.priority, a.status, a.slug.clone()), (b.priority, b.status, b.slug.clone()));
            assert!(b.id.starts_with("34") && b.id.len() == 5);
            assert_eq!(*migrated, a.id != b.id);
        }
    }
    assert_eq!(renames, 2);
}

#[test]
fn fix_run_leaves_a_directory_that_validates() {
    // Legacy and alpha-prefix ids migrate, a shared id is renumbered; what is
    // left validates and a second run has nothing to do.
    let entries = names(&[
        "34042-p2-ready--existing.md",
        "0042-p2-ready--legacy.md",
        "YF007-p1-done--old.md",
        "34042-p1-done--dup.md",
    ]);
    let files = taskmd_core::tasks::task_files(&entries);
    let plan = plan_fix("34", &files);
    let mut dir: Vec<String> = files
        .iter()
        .zip(plan.iter())
        .map(|(f, step)| match step {
            FixStep::Rename { to, .. } => to.clone(),
            FixStep::Keep => f.clone(),
            FixStep::Fail(m) => panic!("unexpected failure {m}"),
        })
        .collect();
    let listed = taskmd_core::tasks::task_files(&dir);
    for (_id, group) in duplicate_groups(&listed) {
        let mut group_entries: Vec<TiebreakEntry> =
            group.iter().map(|n| entry(&format!("/nonexistent/{n}"), None, None)).collect();
        sort_by_tiebreaker(&mut group_entries);
        for loser in group_entries.iter().skip(1) {
            let new_id = taskmd_core::ids::next_id(34, &taskmd_core::tasks::task_files(&dir));
            let (_, new_name) = plan_renumber(&loser.name, &new_id).unwrap();
            dir.retain(|n| n != &loser.name);
            dir.push(new_name);
        }
    }
    let after = taskmd_core::tasks::task_files(&dir);
    assert_eq!(
        after,
        names(&[
            "34007-p1-done--old.md",
            "34042-p1-done--dup.md",
            "34043-p2-ready--legacy.md",
            "34044-p2-ready--existing.md",
        ])
    );
    assert!(taskmd_core::validate::validate(&after).ok());
    assert!(plan_fix("34", &after).iter().all(|s| matches!(s, FixStep::Keep)));
    assert!(duplicate_groups(&after).is_empty());
}
