use taskmd_core::discover::{candidates, discover, discover_or_default, DirEntryInfo, Discovery};

fn dir(name: &str, marked: bool) -> DirEntryInfo {
    DirEntryInfo { name: name.to_string(), is_dir: true, has_template: marked }
}

#[test]
fn no_candidates_is_not_found() {
    let entries = vec![dir("tasks", false), dir("src", false)];
    assert_eq!(candidates(&entries), Vec::<String>::new());
    assert_eq!(discover(&entries), Discovery::NotFound);
}

#[test]
fn single_marked_dir_is_found() {
    let entries = vec![dir("tasks", true)];
    assert_eq!(candidates(&entries), vec!["tasks".to_string()]);
    assert_eq!(discover(&entries), Discovery::Found("tasks".to_string()));
}

#[test]
fn non_task_prefixed_marked_dir_is_found() {
    // Any marked immediate subdirectory counts, whatever its name.
    let entries = vec![dir("tickets", true), dir("todo", false)];
    assert_eq!(discover(&entries), Discovery::Found("tickets".to_string()));
}

#[test]
fn marked_dirs_of_any_name_are_ambiguous_and_sorted() {
    let entries = vec![dir("work-items", true), dir("tasks", true), dir("plans", true)];
    assert_eq!(
        discover(&entries),
        Discovery::Ambiguous(vec!["plans".to_string(), "tasks".to_string(), "work-items".to_string()])
    );
    assert_eq!(discover_or_default(&entries), "tasks");
}

#[test]
fn files_are_not_candidates() {
    let entries = vec![DirEntryInfo { name: "tasks.md".to_string(), is_dir: false, has_template: true }];
    assert_eq!(discover(&entries), Discovery::NotFound);
}

#[test]
fn multiple_marked_dirs_are_ambiguous_and_sorted() {
    let entries = vec![dir("tasks-archive", true), dir("tasks", true)];
    assert_eq!(
        discover(&entries),
        Discovery::Ambiguous(vec!["tasks".to_string(), "tasks-archive".to_string()])
    );
}

#[test]
fn or_default_prefers_conventional_name() {
    let entries = vec![dir("tasks-archive", true), dir("tasks", true)];
    assert_eq!(discover_or_default(&entries), "tasks");
}

#[test]
fn or_default_picks_lexically_first_when_no_conventional() {
    let entries = vec![dir("task-z", true), dir("task-a", true)];
    assert_eq!(discover_or_default(&entries), "task-a");
}

#[test]
fn or_default_falls_back_to_tasks_when_nothing_matches() {
    assert_eq!(discover_or_default(&vec![]), "tasks");
}

#[test]
fn unreadable_dir_is_not_found() {
    // An unreadable directory yields no entries.
    let entries: Vec<DirEntryInfo> = vec![];
    assert_eq!(discover(&entries), Discovery::NotFound);
    assert_eq!(discover_or_default(&entries), "tasks");
}

#[test]
fn read_order_does_not_matter() {
    let mut entries = vec![dir("tasks-b", true), dir("src", false), dir("tasks-a", true), dir("tasks", false)];
    let first = candidates(&entries);
    entries.reverse();
    assert_eq!(candidates(&entries), first);
    assert_eq!(first, vec!["tasks-a".to_string(), "tasks-b".to_string()]);
    assert_eq!(discover_or_default(&entries), "tasks-a");
}
