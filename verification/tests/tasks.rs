use taskmd_core::constants::{Priority, Status};
use taskmd_core::error::Error;
use taskmd_core::filename::format_filename;
use taskmd_core::tasks::{
    find_task_by_id, is_ancillary, is_task_file, is_template, join_name, list_tasks,
    parse_task_file, plan_update, plan_update_by_id, task_files, TaskFile, TaskUpdate,
};

fn names(v: &[&str]) -> Vec<String> {
    v.iter().map(|s| s.to_string()).collect()
}

fn task(id: &str, priority: Priority, status: Status, slug: &str) -> TaskFile {
    let name = format_filename(id, priority, status, slug);
    parse_task_file(&join_name("/t", &name), &name).unwrap()
}

#[test]
fn template_and_ancillary_are_not_task_files() {
    assert!(is_template("_TEMPLATE.md"));
    assert!(!is_template("34001-p2-ready--a.md"));
    assert!(is_ancillary("0042-p2-ready--foo.qaplan.md"));
    assert!(!is_ancillary("0042-p2-ready--foo.md"));
    assert!(is_task_file("0042-p2-ready--foo.md"));
    assert!(!is_task_file("0042-p2-ready--foo.qaplan.md"));
    assert!(!is_task_file("_TEMPLATE.md"));
    assert!(!is_task_file("notes.txt"));
    assert!(!is_task_file(".md"));
}

#[test]
fn task_files_are_filtered_and_sorted() {
    let entries = names(&[
        "34002-p2-ready--b.md",
        "_TEMPLATE.md",
        "34001-p2-ready--a.qaplan.md",
        "README.txt",
        "34001-p2-ready--a.md",
        "garbage.md",
    ]);
    assert_eq!(
        task_files(&entries),
        names(&["34001-p2-ready--a.md", "34002-p2-ready--b.md", "garbage.md"])
    );
}

#[test]
fn list_tasks_is_in_id_order_and_skips_unparseable() {
    let entries = names(&[
        "34010-p0-done--z.md",
        "0042-p2-ready--legacy.md",
        "garbage.md",
        "34002-p4-blocked--a.md",
    ]);
    let tasks = list_tasks("/work/tasks", &entries);
    let ids: Vec<&str> = tasks.iter().map(|t| t.id.as_str()).collect();
    assert_eq!(ids, vec!["0042", "34002", "34010"]);
    assert_eq!(tasks[1].path, "/work/tasks/34002-p4-blocked--a.md");
    assert_eq!(tasks[1].priority, Priority::P4);
    assert_eq!(tasks[1].status, Status::Blocked);
    assert_eq!(tasks[1].slug, "a");
}

#[test]
fn join_name_adds_one_separator() {
    assert_eq!(join_name("/t", "a.md"), "/t/a.md");
    assert_eq!(join_name("/t/", "a.md"), "/t/a.md");
    assert_eq!(join_name("", "a.md"), "a.md");
}

#[test]
fn find_task_by_id_picks_first_in_name_order() {
    let entries = names(&["34001-p2-ready--task-a.md", "34001-p0-ready--task-a.md", "34002-p1-done--b.md"]);
    let found = find_task_by_id("/t", &entries, "34001").unwrap();
    assert_eq!(found.priority, Priority::P0);
    assert_eq!(found.path, "/t/34001-p0-ready--task-a.md");
    assert!(find_task_by_id("/t", &entries, "99999").is_none());
}

#[test]
fn update_task_status_only_renames_file() {
    let t = task("34001", Priority::P2, Status::Ready, "my-task");
    let result = plan_update(&t, TaskUpdate { status: Some(Status::Done), ..Default::default() }).unwrap();
    assert!(result.old_filename.contains("ready"));
    assert!(result.new_filename.contains("done"));
    assert_eq!(result.new_filename, "34001-p2-done--my-task.md");
}

#[test]
fn update_task_priority_only() {
    let t = task("34001", Priority::P2, Status::Ready, "my-task");
    let result = plan_update(&t, TaskUpdate { priority: Some(Priority::P0), ..Default::default() }).unwrap();
    assert_eq!(result.old_filename, "34001-p2-ready--my-task.md");
    assert_eq!(result.new_filename, "34001-p0-ready--my-task.md");
}

#[test]
fn update_task_slug_only() {
    let t = task("34001", Priority::P2, Status::Ready, "my-task");
    let result = plan_update(&t, TaskUpdate { slug: Some("Renamed Task!".to_string()), ..Default::default() }).unwrap();
    assert_eq!(result.new_filename, "34001-p2-ready--renamed-task.md");
}

#[test]
fn update_task_combined_change() {
    let t = task("34001", Priority::P2, Status::Ready, "old");
    let result = plan_update(
        &t,
        TaskUpdate {
            priority: Some(Priority::P0),
            status: Some(Status::Done),
            slug: Some("New Title".to_string()),
        },
    )
    .unwrap();
    assert!(result.new_filename.contains("p0-done"));
    assert!(result.new_filename.contains("--new-title.md"));
    let found = find_task_by_id("/t", &vec![result.new_filename.clone()], "34001").unwrap();
    assert_eq!(found.priority, Priority::P0);
    assert_eq!(found.status, Status::Done);
    assert_eq!(found.slug, "new-title");
}

#[test]
fn update_task_noop_returns_same_filename() {
    let t = task("34001", Priority::P2, Status::Ready, "my-task");
    let result = plan_update(&t, TaskUpdate::default()).unwrap();
    assert_eq!(result.old_filename, result.new_filename);
    assert_eq!(result.old_filename, "34001-p2-ready--my-task.md");
    let same = plan_update(
        &t,
        TaskUpdate { priority: Some(Priority::P2), status: Some(Status::Ready), slug: None },
    )
    .unwrap();
    assert_eq!(same.old_filename, same.new_filename);
}

#[test]
fn update_task_unknown_id_errors() {
    let entries = names(&["34001-p2-ready--my-task.md"]);
    assert!(find_task_by_id("/t", &entries, "99999").is_none());
    let e = plan_update_by_id("/t", &entries, "99999", TaskUpdate::default()).unwrap_err();
    assert!(matches!(&e, Error::TaskNotFound { id } if id == "99999"));
    assert_eq!(e.message(), "task 99999 not found");
}

#[test]
fn update_by_id_plans_the_found_task() {
    let entries = names(&["34002-p1-ready--other.md", "34001-p2-ready--my-task.md"]);
    let (t, plan) = plan_update_by_id(
        "/t",
        &entries,
        "34001",
        TaskUpdate { status: Some(Status::Done), ..Default::default() },
    )
    .unwrap();
    assert_eq!(t.path, "/t/34001-p2-ready--my-task.md");
    assert_eq!(plan.old_filename, "34001-p2-ready--my-task.md");
    assert_eq!(plan.new_filename, "34001-p2-done--my-task.md");
    let bad = plan_update_by_id("/t", &entries, "34002", TaskUpdate { slug: Some("--".to_string()), ..Default::default() });
    assert!(matches!(bad, Err(Error::InvalidSlug { .. })));
}

#[test]
fn update_task_invalid_slug_errors() {
    let t = task("34001", Priority::P2, Status::Ready, "my-task");
    let result = plan_update(&t, TaskUpdate { slug: Some("   ".to_string()), ..Default::default() });
    assert!(matches!(result, Err(Error::InvalidSlug { .. })), "expected InvalidSlug, got {result:?}");
}

#[test]
fn update_task_file_still_discoverable_after_change() {
    let t = task("34001", Priority::P2, Status::Ready, "my-task");
    let result = plan_update(
        &t,
        TaskUpdate { priority: Some(Priority::P0), status: Some(Status::Done), ..Default::default() },
    )
    .unwrap();
    let found = find_task_by_id("/t", &vec![result.new_filename], "34001").unwrap();
    assert_eq!(found.priority, Priority::P0);
    assert_eq!(found.status, Status::Done);
}

#[test]
fn find_task_by_slug_returns_every_match_in_id_order() {
    let entries = names(&[
        "34002-p2-ready--shared.md",
        "34001-p0-done--shared.md",
        "34003-p2-ready--other.md",
        "34004-p2-ready--shared-more.md",
    ]);
    let found = taskmd_core::tasks::find_task_by_slug("/t", &entries, "shared");
    let ids: Vec<&str> = found.iter().map(|t| t.id.as_str()).collect();
    assert_eq!(ids, vec!["34001", "34002"]);
    assert!(taskmd_core::tasks::find_task_by_slug("/t", &entries, "missing").is_empty());
}

#[test]
fn task_filename_is_last_path_component() {
    let t = task("34001", Priority::P2, Status::Ready, "my-task");
    assert_eq!(t.filename(), "34001-p2-ready--my-task.md");
    let bare = parse_task_file("34001-p2-ready--x.md", "34001-p2-ready--x.md").unwrap();
    assert_eq!(bare.filename(), "34001-p2-ready--x.md");
}

#[test]
fn task_files_do_not_depend_on_read_order() {
    let mut entries = names(&["34003-p2-ready--c.md", "_TEMPLATE.md", "34001-p2-ready--a.md", "34002-p0-done--b.md"]);
    let first = task_files(&entries);
    entries.reverse();
    assert_eq!(task_files(&entries), first);
    entries.swap(0, 2);
    assert_eq!(task_files(&entries), first);
}

#[test]
fn update_task_target_exists_errors() {
    // A file already sits at the name the update would produce.
    let t = task("34001", Priority::P0, Status::Ready, "task-a");
    let occupied = format_filename("34001", Priority::P2, Status::Ready, "task-a");
    let plan = plan_update(&t, TaskUpdate { priority: Some(Priority::P2), ..Default::default() }).unwrap();
    assert_eq!(plan.new_filename, occupied);
    assert_ne!(plan.old_filename, plan.new_filename);
    let e = Error::TargetExists { path: join_name("/t", &occupied) };
    assert_eq!(e.message(), "target already exists: /t/34001-p2-ready--task-a.md");
}

#[test]
fn ancillary_files_follow_their_task() {
    let entries = names(&[
        "34001-p2-ready--login.md",
        "34001-p2-ready--login.qaplan.md",
        "34001-p2-ready--login.screenshot.png",
        "34001-p2-ready--login.md.bak",
        "34001-p2-ready--login..md",
        "34001-p2-ready--loginx.notes.md",
        "34002-p2-ready--other.qaplan.md",
    ]);
    assert_eq!(
        taskmd_core::tasks::ancillary_files_for("/t", &entries, "34001"),
        vec![
            "/t/34001-p2-ready--login.md.bak".to_string(),
            "/t/34001-p2-ready--login.qaplan.md".to_string(),
            "/t/34001-p2-ready--login.screenshot.png".to_string(),
        ]
    );
    assert!(taskmd_core::tasks::ancillary_files_for("/t", &entries, "34999").is_empty());
}

#[test]
fn update_slug_error_reason() {
    let t = task("34001", Priority::P2, Status::Ready, "my-task");
    match plan_update(&t, TaskUpdate { slug: Some("!!".to_string()), ..Default::default() }) {
        Err(Error::InvalidSlug { got, reason }) => {
            assert_eq!(got, "!!");
            assert_eq!(reason, "must contain at least one alphanumeric character");
        }
        other => panic!("unexpected {other:?}"),
    }
}
