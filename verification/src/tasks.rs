//! Task files in a directory: which entries are tasks, how they parse, and
//! how a task's filename changes under an update.
use vstd::prelude::*;
use crate::constants::{Priority, Status};
use crate::error::Error;

verus! {

/// `_TEMPLATE.md`.
pub open spec fn template_name() -> Seq<char> {
    seq!['_', 'T', 'E', 'M', 'P', 'L', 'A', 'T', 'E', '.', 'm', 'd']
}

/// Index of the last `.` in `s` at or before `i - 1`, or -1.
pub open spec fn last_dot_before(s: Seq<char>, i: int) -> int
    decreases i,
{
    if i <= 0 {
        -1
    } else if s[i - 1] == '.' {
        i - 1
    } else {
        last_dot_before(s, i - 1)
    }
}

/// Index of the last `.` in `s`, or -1.
pub open spec fn last_dot(s: Seq<char>) -> int {
    last_dot_before(s, s.len() as int)
}

/// `Path::extension` of a file name is `md`: there is a `.` after the first
/// character and `md` follows the last one.
pub open spec fn has_md_extension(name: Seq<char>) -> bool {
    let d = last_dot(name);
    d > 0 && name.skip(d + 1) == seq!['m', 'd']
}

/// An ancillary file has a second dot in its stem (e.g.
/// `0042-p2-ready--foo.qaplan.md`): `Path::file_stem` contains a `.`. The
/// stem is the part before the last `.`, or the whole name when the only `.`
/// leads it.
pub open spec fn spec_is_ancillary(name: Seq<char>) -> bool {
    let d = last_dot(name);
    if d < 0 {
        false
    } else if d == 0 {
        true
    } else {
        last_dot_before(name, d) >= 0
    }
}

/// A directory entry that is a main task file: a `.md` file that is neither
/// the template nor ancillary.
pub open spec fn is_task_file_name(name: Seq<char>) -> bool {
    has_md_extension(name) && name != template_name() && !spec_is_ancillary(name)
}

/// The entries of `names` that are main task files, in their order.
pub open spec fn task_names(names: Seq<Seq<char>>) -> Seq<Seq<char>>
    decreases names.len(),
{
    if names.len() == 0 {
        seq![]
    } else {
        let rest = task_names(names.drop_last());
        if is_task_file_name(names.last()) {
            rest.push(names.last())
        } else {
            rest
        }
    }
}

/// The main task files among the directory entries `names`, sorted.
pub open spec fn spec_task_files(names: Seq<Seq<char>>) -> Seq<Seq<char>> {
    crate::order::sort_lex(task_names(names))
}

fn exec_last_dot_before(v: &Vec<char>, i: usize) -> (r: Option<usize>)
    requires
        i <= v.len(),
    ensures
        match r {
            Some(d) => last_dot_before(v@, i as int) == d as int && d < i && v@[d as int] == '.',
            None => last_dot_before(v@, i as int) == -1,
        },
{
    let mut k = i;
    while k > 0
        invariant
            k <= i <= v.len(),
            last_dot_before(v@, i as int) == last_dot_before(v@, k as int),
        decreases k,
    {
        if v[k - 1] == '.' {
            return Some(k - 1);
        }
        k = k - 1;
    }
    None
}

/// True if `name` is the template marker file.
pub fn is_template(name: &str) -> (r: bool)
    ensures
        r == (name@ == template_name()),
{
    let t = crate::constants::TEMPLATE_FILENAME;
    proof {
        reveal_strlit("_TEMPLATE.md");
    }
    assert(t@ =~= template_name());
    crate::text::str_eq(name, t)
}

/// True if the file `name` is ancillary to a task (a second dot in its stem).
pub fn is_ancillary(name: &str) -> (r: bool)
    ensures
        r == spec_is_ancillary(name@),
{
    let v = crate::text::chars_of(name);
    match exec_last_dot_before(&v, v.len()) {
        None => false,
        Some(d) => {
            if d == 0 {
                true
            } else {
                exec_last_dot_before(&v, d).is_some()
            }
        },
    }
}

fn has_md_ext(name: &str) -> (r: bool)
    ensures
        r == has_md_extension(name@),
{
    let v = crate::text::chars_of(name);
    match exec_last_dot_before(&v, v.len()) {
        None => false,
        Some(d) => {
            if d == 0 {
                return false;
            }
            let r = v.len() - d == 3 && v[d + 1] == 'm' && v[d + 2] == 'd';
            proof {
                if v.len() - d == 3 {
                    assert(v@.skip(d + 1) =~= seq![v@[d + 1], v@[d + 2]]);
                } else {
                    assert(v@.skip(d + 1).len() != 2);
                }
            }
            r
        },
    }
}

/// True if the directory entry `name` is a main task file.
pub fn is_task_file(name: &str) -> (r: bool)
    ensures
        r == is_task_file_name(name@),
{
    has_md_ext(name) && !is_template(name) && !is_ancillary(name)
}

/// The main task files among the directory entries `names` (sorted,
/// excluding the template and ancillary files).
pub fn task_files(names: &Vec<String>) -> (r: Vec<String>)
    ensures
        crate::text::views(r@) == spec_task_files(crate::text::views(names@)),
{
    let mut picked: Vec<String> = Vec::new();
    let ghost vs = crate::text::views(names@);
    let mut i: usize = 0;
    while i < names.len()
        invariant
            i <= names.len(),
            vs == crate::text::views(names@),
            crate::text::views(picked@) == task_names(vs.take(i as int)),
        decreases names.len() - i,
    {
        assert(vs.take(i + 1).drop_last() =~= vs.take(i as int));
        assert(vs.take(i + 1).last() == names@[i as int]@);
        if is_task_file(names[i].as_str()) {
            picked.push(names[i].clone());
            assert(crate::text::views(picked@) =~= task_names(vs.take(i + 1)));
        }
        i = i + 1;
    }
    assert(vs.take(names.len() as int) =~= vs);
    crate::order::sort_strings(picked)
}

/// A parsed task file. All fields come from the filename; the body is not read.
#[derive(Debug, Clone)]
pub struct TaskFile {
    pub path: String,
    pub id: String,
    pub priority: Priority,
    pub status: Status,
    pub slug: String,
}

/// The path, id, priority, status and slug of a task, by their views.
pub type TaskView = (Seq<char>, Seq<char>, Priority, Status, Seq<char>);

impl View for TaskFile {
    type V = TaskView;

    open spec fn view(&self) -> TaskView {
        (self.path@, self.id@, self.priority, self.status, self.slug@)
    }
}

/// The task at `path` whose file name is `name`, when the name parses.
pub open spec fn spec_task_at(path: Seq<char>, name: Seq<char>) -> Option<TaskView> {
    match crate::filename::spec_parse_filename(name) {
        Some(f) => Some((path, f.0, f.1, f.2, f.3)),
        None => None,
    }
}

/// The views of an optional task.
pub open spec fn task_view(t: Option<TaskFile>) -> Option<TaskView> {
    match t {
        Some(t) => Some(t@),
        None => None,
    }
}

/// Parse the task file at `path`, whose file name is `name`. Returns `None`
/// if the name doesn't match the filename grammar.
pub fn parse_task_file(path: &str, name: &str) -> (r: Option<TaskFile>)
    ensures
        task_view(r) == spec_task_at(path@, name@),
{
    match crate::filename::parse_filename(name) {
        None => None,
        Some(p) => Some(
            TaskFile {
                path: path.to_owned(),
                id: p.id,
                priority: p.priority,
                status: p.status,
                slug: p.slug,
            },
        ),
    }
}

/// `dir` joined with the file name `name`, as `Path::join` does for a
/// relative single-component name: a `/` between them unless `dir` is empty
/// or already ends with one.
pub open spec fn join_path(dir: Seq<char>, name: Seq<char>) -> Seq<char> {
    if dir.len() == 0 || dir.last() == '/' {
        dir + name
    } else {
        dir + seq!['/'] + name
    }
}

/// `join_path` on strings.
pub fn join_name(dir: &str, name: &str) -> (r: String)
    ensures
        r@ == join_path(dir@, name@),
{
    let v = crate::text::chars_of(dir);
    let mut s = dir.to_owned();
    if v.len() > 0 && v[v.len() - 1] != '/' {
        crate::text::push_char(&mut s, '/');
    }
    crate::text::push_str(&mut s, name);
    s
}

/// The tasks among the file names `files`, in order, with paths under `dir`.
pub open spec fn tasks_of(dir: Seq<char>, files: Seq<Seq<char>>) -> Seq<TaskView>
    decreases files.len(),
{
    if files.len() == 0 {
        seq![]
    } else {
        let rest = tasks_of(dir, files.drop_last());
        match spec_task_at(join_path(dir, files.last()), files.last()) {
            Some(t) => rest.push(t),
            None => rest,
        }
    }
}

/// The views of a list of tasks.
pub open spec fn task_views(v: Seq<TaskFile>) -> Seq<TaskView> {
    v.map_values(|t: TaskFile| t@)
}

/// The ids of the tasks `v` are in non-decreasing order.
pub open spec fn ids_sorted(v: Seq<TaskView>) -> bool {
    forall|i: int, j: int|
        0 <= i < j < v.len() ==> crate::order::lex_le(#[trigger] v[i].1, #[trigger] v[j].1)
}

/// The id of the task filename `name` (empty when it does not parse).
pub open spec fn id_of(name: Seq<char>) -> Seq<char> {
    match crate::filename::spec_parse_filename(name) {
        Some(f) => f.0,
        None => seq![],
    }
}

proof fn lemma_prefix_order(x: Seq<char>, y: Seq<char>, a: Seq<char>, b: Seq<char>)
    requires
        forall|i: int| 0 <= i < x.len() ==> '-' < #[trigger] x[i],
        forall|i: int| 0 <= i < y.len() ==> '-' < #[trigger] y[i],
        x.len() < a.len(),
        a.subrange(0, x.len() as int) == x,
        a[x.len() as int] == '-',
        y.len() < b.len(),
        b.subrange(0, y.len() as int) == y,
        b[y.len() as int] == '-',
        crate::order::lex_le(a, b),
    ensures
        crate::order::lex_le(x, y),
    decreases x.len(),
{
    if x.len() == 0 {
        if y.len() == 0 {
            assert(x =~= y);
        }
    } else if y.len() == 0 {
        assert(a[0] == a.subrange(0, x.len() as int)[0]);
        assert(a[0] != b[0]);
    } else {
        assert(a[0] == a.subrange(0, x.len() as int)[0]);
        assert(b[0] == b.subrange(0, y.len() as int)[0]);
        if x[0] == y[0] {
            let (x1, y1, a1, b1) = (x.drop_first(), y.drop_first(), a.drop_first(), b.drop_first());
            assert(a1.subrange(0, x1.len() as int) =~= x1);
            assert(b1.subrange(0, y1.len() as int) =~= y1);
            assert(a1[x1.len() as int] == a[x.len() as int]);
            assert(b1[y1.len() as int] == b[y.len() as int]);
            assert(forall|i: int| 0 <= i < x1.len() ==> #[trigger] x1[i] == x[i + 1]);
            assert(forall|i: int| 0 <= i < y1.len() ==> #[trigger] y1[i] == y[i + 1]);
            if a == b {
                assert(a1 == b1);
            }
            lemma_prefix_order(x1, y1, a1, b1);
            if x1 == y1 {
                assert(x =~= seq![x[0]] + x1);
                assert(y =~= seq![y[0]] + y1);
            }
        } else {
            assert(a != b);
        }
    }
}

/// Filename order of task files is id order: a name at or before another
/// carries an id at or before the other's.
proof fn lemma_name_order_is_id_order(a: Seq<char>, b: Seq<char>)
    requires
        crate::filename::spec_parse_filename(a) is Some,
        crate::filename::spec_parse_filename(b) is Some,
        crate::order::lex_le(a, b),
    ensures
        crate::order::lex_le(id_of(a), id_of(b)),
{
    let x = id_of(a);
    let y = id_of(b);
    assert(forall|i: int| 0 <= i < x.len() ==> '-' < #[trigger] x[i]) by {
        assert forall|i: int| 0 <= i < x.len() implies '-' < #[trigger] x[i] by {
            assert(x[i] == a[i]);
        }
    }
    assert(forall|i: int| 0 <= i < y.len() ==> '-' < #[trigger] y[i]) by {
        assert forall|i: int| 0 <= i < y.len() implies '-' < #[trigger] y[i] by {
            assert(y[i] == b[i]);
        }
    }
    lemma_prefix_order(x, y, a, b);
}

proof fn lemma_push_sorted(v: Seq<TaskView>, t: TaskView)
    requires
        ids_sorted(v),
        v.len() > 0 ==> crate::order::lex_le(v.last().1, t.1),
    ensures
        ids_sorted(v.push(t)),
{
    let w = v.push(t);
    assert forall|i: int, j: int| 0 <= i < j < w.len() implies crate::order::lex_le(
        #[trigger] w[i].1,
        #[trigger] w[j].1,
    ) by {
        if j == v.len() {
            if i < v.len() - 1 {
                crate::order::lemma_lex_le_transitive(v[i].1, v.last().1, t.1);
            }
        } else {
            assert(w[i] == v[i] && w[j] == v[j]);
        }
    }
}

/// All parseable task files among the directory entries `names` of the tasks
/// directory `tasks_dir`, in filename order, which is id order: the ids of
/// the result never decrease.
pub fn list_tasks(tasks_dir: &str, names: &Vec<String>) -> (r: Vec<TaskFile>)
    ensures
        task_views(r@) == tasks_of(tasks_dir@, spec_task_files(crate::text::views(names@))),
        ids_sorted(task_views(r@)),
{
    let files = task_files(names);
    let ghost fs = crate::text::views(files@);
    proof {
        crate::order::lemma_sort_lex(task_names(crate::text::views(names@)));
    }
    let ghost mut last_k: int = 0;
    let mut r: Vec<TaskFile> = Vec::new();
    let mut i: usize = 0;
    while i < files.len()
        invariant
            i <= files.len(),
            fs == crate::text::views(files@),
            crate::order::sorted_lex(fs),
            task_views(r@) == tasks_of(tasks_dir@, fs.take(i as int)),
            ids_sorted(task_views(r@)),
            r@.len() > 0 ==> {
                &&& 0 <= last_k < i
                &&& crate::filename::spec_parse_filename(fs[last_k]) is Some
                &&& id_of(fs[last_k]) == task_views(r@).last().1
            },
        decreases files.len() - i,
    {
        assert(fs.take(i + 1).drop_last() =~= fs.take(i as int));
        assert(fs.take(i + 1).last() == files@[i as int]@);
        let path = join_name(tasks_dir, files[i].as_str());
        match parse_task_file(path.as_str(), files[i].as_str()) {
            Some(t) => {
                let ghost before = task_views(r@);
                proof {
                    if r@.len() > 0 {
                        assert(crate::order::lex_le(fs[last_k], fs[i as int]));
                        lemma_name_order_is_id_order(fs[last_k], fs[i as int]);
                    }
                    lemma_push_sorted(before, t@);
                }
                r.push(t);
                assert(task_views(r@) =~= before.push(t@));
                assert(task_views(r@) =~= tasks_of(tasks_dir@, fs.take(i + 1)));
                proof {
                    last_k = i as int;
                }
            },
            None => {},
        }
        i = i + 1;
    }
    assert(fs.take(files.len() as int) =~= fs);
    r
}

/// The first of `files` (in order) that parses with id `id`, as a task under `dir`.
pub open spec fn first_with_id(dir: Seq<char>, files: Seq<Seq<char>>, id: Seq<char>) -> Option<TaskView>
    decreases files.len(),
{
    if files.len() == 0 {
        None
    } else {
        match spec_task_at(join_path(dir, files[0]), files[0]) {
            Some(t) => if t.1 == id {
                Some(t)
            } else {
                first_with_id(dir, files.drop_first(), id)
            },
            None => first_with_id(dir, files.drop_first(), id),
        }
    }
}

/// Find a single task by its id: the first task file in filename order that
/// carries it. Returns `None` if not found.
pub fn find_task_by_id(tasks_dir: &str, names: &Vec<String>, id: &str) -> (r: Option<TaskFile>)
    ensures
        task_view(r) == first_with_id(tasks_dir@, spec_task_files(crate::text::views(names@)), id@),
{
    let files = task_files(names);
    let ghost fs = crate::text::views(files@);
    let mut i: usize = 0;
    assert(fs.skip(0) =~= fs);
    while i < files.len()
        invariant
            i <= files.len(),
            fs == crate::text::views(files@),
            first_with_id(tasks_dir@, fs, id@) == first_with_id(tasks_dir@, fs.skip(i as int), id@),
            fs == spec_task_files(crate::text::views(names@)),
        decreases files.len() - i,
    {
        assert(fs.skip(i as int)[0] == files@[i as int]@);
        assert(fs.skip(i as int).drop_first() =~= fs.skip(i + 1));
        let path = join_name(tasks_dir, files[i].as_str());
        match parse_task_file(path.as_str(), files[i].as_str()) {
            Some(t) => {
                if crate::text::str_eq(t.id.as_str(), id) {
                    assert(spec_task_at(join_path(tasks_dir@, fs.skip(i as int)[0]), fs.skip(i as int)[0]) == Some(t@));
                    assert(t@.1 == id@);
                    assert(fs.skip(i as int).len() > 0);
                    assert(first_with_id(tasks_dir@, fs.skip(i as int), id@) == Some(t@));
                    return Some(t);
                }
            },
            None => {},
        }
        i = i + 1;
    }
    None
}

/// The tasks of `ts` whose slug is `slug`, in order.
pub open spec fn tasks_with_slug(ts: Seq<TaskView>, slug: Seq<char>) -> Seq<TaskView>
    decreases ts.len(),
{
    if ts.len() == 0 {
        seq![]
    } else {
        let rest = tasks_with_slug(ts.drop_last(), slug);
        if ts.last().4 == slug {
            rest.push(ts.last())
        } else {
            rest
        }
    }
}

/// Every task whose slug is exactly `slug`, in id order.
pub fn find_task_by_slug(tasks_dir: &str, names: &Vec<String>, slug: &str) -> (r: Vec<TaskFile>)
    ensures
        task_views(r@) == tasks_with_slug(
            tasks_of(tasks_dir@, spec_task_files(crate::text::views(names@))),
            slug@,
        ),
{
    let all = list_tasks(tasks_dir, names);
    let ghost ts = task_views(all@);
    let mut r: Vec<TaskFile> = Vec::new();
    let mut i: usize = 0;
    while i < all.len()
        invariant
            i <= all.len(),
            ts == task_views(all@),
            task_views(r@) == tasks_with_slug(ts.take(i as int), slug@),
        decreases all.len() - i,
    {
        assert(ts.take(i + 1).drop_last() =~= ts.take(i as int));
        assert(ts.take(i + 1).last() == all@[i as int]@);
        if crate::text::str_eq(all[i].slug.as_str(), slug) {
            let ghost before = task_views(r@);
            r.push(all[i].duplicate());
            assert(task_views(r@) =~= before.push(all@[i as int]@));
        }
        i = i + 1;
    }
    assert(ts.take(all.len() as int) =~= ts);
    r
}

impl TaskFile {
    /// A copy of the task.
    fn duplicate(&self) -> (r: TaskFile)
        ensures
            r@ == self@,
    {
        TaskFile {
            path: self.path.clone(),
            id: self.id.clone(),
            priority: self.priority,
            status: self.status,
            slug: self.slug.clone(),
        }
    }

    /// The task's file name: its path after the last `/`.
    pub fn filename(&self) -> (r: String)
        ensures
            r@ == crate::text::after_last(self.path@, '/'),
    {
        let v = crate::text::chars_of(self.path.as_str());
        let k = crate::text::after_last_start(&v, v.len(), '/');
        assert(v@.take(v.len() as int) =~= v@);
        crate::text::string_of_range(&v, k, v.len())
    }
}

/// Fields to change on an existing task. `None` means "leave unchanged".
#[derive(Debug, Clone)]
pub struct TaskUpdate {
    pub priority: Option<Priority>,
    pub status: Option<Status>,
    pub slug: Option<String>,
}

impl Default for TaskUpdate {
    fn default() -> (r: TaskUpdate)
        ensures
            r.priority is None,
            r.status is None,
            r.slug is None,
    {
        TaskUpdate { priority: None, status: None, slug: None }
    }
}

/// The result of an update: the old and new filenames. When nothing
/// changes, the two are equal and no rename happens.
#[derive(Debug, Clone)]
pub struct UpdateResult {
    pub old_filename: String,
    pub new_filename: String,
}

/// Why a slug without an ASCII letter or digit is refused.
pub open spec fn no_alnum_reason() -> Seq<char> {
    "must contain at least one alphanumeric character"@
}

/// `s` holds an ASCII letter or digit.
pub open spec fn has_alnum(s: Seq<char>) -> bool {
    exists|i: int| 0 <= i < s.len() && crate::text::is_alnum(#[trigger] s[i])
}

/// Whether `s` holds an ASCII letter or digit.
pub fn any_alnum(s: &str) -> (r: bool)
    ensures
        r == has_alnum(s@),
{
    let v = crate::text::chars_of(s);
    let mut i: usize = 0;
    while i < v.len()
        invariant
            i <= v.len(),
            v@ == s@,
            forall|j: int| 0 <= j < i ==> !crate::text::is_alnum(#[trigger] v@[j]),
        decreases v.len() - i,
    {
        let c = v[i];
        if ('0' <= c && c <= '9') || ('a' <= c && c <= 'z') || ('A' <= c && c <= 'Z') {
            return true;
        }
        i = i + 1;
    }
    false
}

/// The old and new filenames of `task` under `update`, or the slug error:
/// a new slug must hold an ASCII letter or digit (the same rule as task
/// creation), and is then derived like any title.
pub open spec fn spec_plan_update(
    task: TaskView,
    priority: Option<Priority>,
    status: Option<Status>,
    slug: Option<Seq<char>>,
) -> Option<(Seq<char>, Seq<char>)> {
    let new_priority = match priority {
        Some(p) => p,
        None => task.2,
    };
    let new_status = match status {
        Some(s) => s,
        None => task.3,
    };
    let old_name = crate::filename::spec_format_filename(task.1, task.2, task.3, task.4);
    match slug {
        Some(s) => if has_alnum(s) {
            Some(
                (
                    old_name,
                    crate::filename::spec_format_filename(
                        task.1,
                        new_priority,
                        new_status,
                        crate::filename::spec_slug(crate::filename::lowercase_of(s)),
                    ),
                ),
            )
        } else {
            None
        },
        None => Some(
            (old_name, crate::filename::spec_format_filename(task.1, new_priority, new_status, task.4)),
        ),
    }
}

/// The views of an optional slug.
pub open spec fn slug_view(s: Option<String>) -> Option<Seq<char>> {
    match s {
        Some(s) => Some(s@),
        None => None,
    }
}

/// Decide the rename that applies `update` to `task`: its current filename
/// (the canonical form of its fields, which is the name it was parsed from)
/// and the new one. Errors with `InvalidSlug` when the new slug has no ASCII
/// letter or digit. The caller renames the file when the names differ.
pub fn plan_update(task: &TaskFile, update: TaskUpdate) -> (r: Result<UpdateResult, Error>)
    ensures
        match r {
            Ok(u) => spec_plan_update(task@, update.priority, update.status, slug_view(update.slug))
                == Some((u.old_filename@, u.new_filename@)),
            Err(e) => {
                &&& spec_plan_update(task@, update.priority, update.status, slug_view(update.slug)) is None
                &&& e matches Error::InvalidSlug { got, reason } && slug_view(update.slug) == Some(got@)
                    && reason@ == no_alnum_reason()
            },
        },
{
    let new_priority = match update.priority {
        Some(p) => p,
        None => task.priority,
    };
    let new_status = match update.status {
        Some(s) => s,
        None => task.status,
    };
    let new_slug = match update.slug {
        Some(s) => {
            if !any_alnum(s.as_str()) {
                return Err(
                    Error::InvalidSlug {
                        got: s,
                        reason: "must contain at least one alphanumeric character".to_owned(),
                    },
                );
            }
            crate::filename::derive_slug(s.as_str())
        },
        None => task.slug.clone(),
    };
    let old_name = crate::filename::format_filename(
        task.id.as_str(),
        task.priority,
        task.status,
        task.slug.as_str(),
    );
    let new_name = crate::filename::format_filename(
        task.id.as_str(),
        new_priority,
        new_status,
        new_slug.as_str(),
    );
    Ok(UpdateResult { old_filename: old_name, new_filename: new_name })
}

/// Plan the update of the task with `id` among the directory entries
/// `names`: the task found (as `find_task_by_id` finds it) with its rename,
/// `TaskNotFound` carrying `id` when no task has it, or the slug error of
/// `plan_update`.
pub fn plan_update_by_id(tasks_dir: &str, names: &Vec<String>, id: &str, update: TaskUpdate) -> (r:
    Result<(TaskFile, UpdateResult), Error>)
    ensures
        match first_with_id(tasks_dir@, spec_task_files(crate::text::views(names@)), id@) {
            None => r matches Err(Error::TaskNotFound { id: got }) && got@ == id@,
            Some(found) => match r {
                Ok((t, u)) => t@ == found && spec_plan_update(
                    found,
                    update.priority,
                    update.status,
                    slug_view(update.slug),
                ) == Some((u.old_filename@, u.new_filename@)),
                Err(e) => {
                    &&& spec_plan_update(found, update.priority, update.status, slug_view(update.slug)) is None
                    &&& e matches Error::InvalidSlug { got, reason } && slug_view(update.slug) == Some(got@)
                        && reason@ == no_alnum_reason()
                },
            },
        },
{
    match find_task_by_id(tasks_dir, names, id) {
        None => Err(Error::TaskNotFound { id: id.to_string() }),
        Some(task) => match plan_update(&task, update) {
            Ok(u) => Ok((task, u)),
            Err(e) => Err(e),
        },
    }
}

} // verus!

verus! {

/// An update that changes nothing keeps the filename: old and new are equal,
/// so no rename happens.
pub proof fn lemma_update_noop(task: TaskView)
    ensures
        spec_plan_update(task, None, None, None) matches Some((old_name, new_name)) && old_name
            == new_name,
{
}

} // verus!

verus! {

/// The entry itself when it names a main task file, none otherwise.
pub open spec fn task_pick(name: Seq<char>) -> Option<Seq<char>> {
    if is_task_file_name(name) {
        Some(name)
    } else {
        None
    }
}

proof fn lemma_task_names_picked(names: Seq<Seq<char>>)
    ensures
        task_names(names) == crate::order::picked(names, |n: Seq<char>| task_pick(n)),
    decreases names.len(),
{
    if names.len() > 0 {
        lemma_task_names_picked(names.drop_last());
    }
}

/// The task files do not depend on the order in which the directory was
/// read: any reordering of the entries yields the same sorted list, so
/// listing, lookup by id or slug, validation and fixing see the same files.
pub proof fn lemma_task_files_order_independent(a: Seq<Seq<char>>, b: Seq<Seq<char>>)
    requires
        a.to_multiset() == b.to_multiset(),
    ensures
        spec_task_files(a) == spec_task_files(b),
{
    let pick = |n: Seq<char>| task_pick(n);
    lemma_task_names_picked(a);
    lemma_task_names_picked(b);
    crate::order::lemma_picked_permutation(a, b, pick);
    crate::order::lemma_sort_lex_permutation(task_names(a), task_names(b));
}

} // verus!

verus! {

/// An update keeps the task findable under its id: the new filename parses
/// back to the same id with the updated priority, status and slug.
pub proof fn lemma_update_keeps_task(
    task: TaskView,
    priority: Option<Priority>,
    status: Option<Status>,
    slug: Option<Seq<char>>,
)
    requires
        crate::filename::is_valid_id(task.1),
        crate::filename::is_valid_slug(task.4),
    ensures
        spec_plan_update(task, priority, status, slug) matches Some((_, new_name)) ==> {
            let p = match priority {
                Some(p) => p,
                None => task.2,
            };
            let st = match status {
                Some(s) => s,
                None => task.3,
            };
            let sl = match slug {
                Some(s) => crate::filename::spec_slug(crate::filename::lowercase_of(s)),
                None => task.4,
            };
            crate::filename::spec_parse_filename(new_name) == Some((task.1, p, st, sl))
        },
{
    let p = match priority {
        Some(p) => p,
        None => task.2,
    };
    let st = match status {
        Some(s) => s,
        None => task.3,
    };
    match slug {
        Some(s) => {
            crate::filename::lemma_slug_well_formed(crate::filename::lowercase_of(s));
            crate::filename::lemma_parse_format_roundtrip(
                task.1,
                p,
                st,
                crate::filename::spec_slug(crate::filename::lowercase_of(s)),
            );
        },
        None => {
            crate::filename::lemma_parse_format_roundtrip(task.1, p, st, task.4);
        },
    }
}

} // verus!

verus! {

/// No character of `s` is a `.`.
pub open spec fn no_dot(s: Seq<char>) -> bool {
    forall|i: int| 0 <= i < s.len() ==> #[trigger] s[i] != '.'
}

proof fn lemma_no_dot_concat(a: Seq<char>, b: Seq<char>)
    requires
        no_dot(a),
        no_dot(b),
    ensures
        no_dot(a + b),
{
    assert forall|i: int| 0 <= i < (a + b).len() implies #[trigger] (a + b)[i] != '.' by {
        if i < a.len() {
            assert((a + b)[i] == a[i]);
        } else {
            assert((a + b)[i] == b[i - a.len()]);
        }
    }
}

proof fn lemma_last_dot_none(s: Seq<char>, k: int)
    requires
        0 <= k <= s.len(),
        forall|j: int| 0 <= j < k ==> #[trigger] s[j] != '.',
    ensures
        last_dot_before(s, k) == -1,
    decreases k,
{
    if k > 0 {
        lemma_last_dot_none(s, k - 1);
    }
}

/// The file of a task whose id is five digits and whose slug is made of
/// ASCII letters, digits and hyphens is a main task file: a `.md` file that
/// is neither the template nor ancillary.
pub proof fn lemma_formatted_is_task_file(id: Seq<char>, p: Priority, st: Status, slug: Seq<char>)
    requires
        id.len() == 5,
        crate::filename::digits_in(id, 0, 5),
        forall|i: int| 0 <= i < slug.len() ==> crate::text::is_alnum(#[trigger] slug[i]) || slug[i] == '-',
    ensures
        is_task_file_name(crate::filename::spec_format_filename(id, p, st, slug)),
{
    assert(no_dot(slug)) by {
        assert forall|i: int| 0 <= i < slug.len() implies #[trigger] slug[i] != '.' by {
            assert(crate::text::is_alnum(slug[i]) || slug[i] == '-');
        }
    }
    lemma_dotless_formatted_is_task_file(id, p, st, slug);
}

proof fn lemma_last_dot_none_conv(s: Seq<char>, k: int)
    requires
        0 <= k <= s.len(),
        last_dot_before(s, k) < 0,
    ensures
        forall|j: int| 0 <= j < k ==> #[trigger] s[j] != '.',
    decreases k,
{
    if k > 0 {
        lemma_last_dot_none_conv(s, k - 1);
    }
}

proof fn lemma_dotless_before_ext(name: Seq<char>, pre: Seq<char>, slug: Seq<char>)
    requires
        name == pre + slug + crate::filename::md_ext(),
        is_task_file_name(name),
    ensures
        no_dot(slug),
{
    let stem = pre + slug;
    let d = stem.len() as int;
    assert(name.len() == d + 3);
    assert(name[d] == '.');
    assert(name[d + 1] == 'm');
    assert(name[d + 2] == 'd');
    assert(last_dot(name) == d) by {
        assert(last_dot_before(name, d + 3) == last_dot_before(name, d + 2));
        assert(last_dot_before(name, d + 2) == last_dot_before(name, d + 1));
        assert(last_dot_before(name, d + 1) == d);
    }
    assert(last_dot_before(name, d) < 0);
    lemma_last_dot_none_conv(name, d);
    assert forall|i: int| 0 <= i < slug.len() implies #[trigger] slug[i] != '.' by {
        assert(name[pre.len() + i] == stem[pre.len() + i]);
        assert(stem[pre.len() + i] == slug[i]);
    }
}

/// The slug of a main task file holds no `.`: a dot there would make the
/// file ancillary.
pub proof fn lemma_task_file_slug_no_dot(name: Seq<char>)
    requires
        is_task_file_name(name),
        crate::filename::spec_parse_filename(name) is Some,
    ensures
        no_dot((crate::filename::spec_parse_filename(name)->0).3),
{
    crate::filename::lemma_format_parse_roundtrip(name);
    let f = crate::filename::spec_parse_filename(name)->0;
    let pre = f.0 + seq!['-'] + crate::constants::priority_name(f.1) + seq!['-']
        + crate::constants::status_name(f.2) + crate::filename::double_dash();
    assert(name == pre + f.3 + crate::filename::md_ext());
    lemma_dotless_before_ext(name, pre, f.3);
}

/// The file of a task whose id is five digits and whose slug holds no `.`
/// is a main task file.
pub proof fn lemma_dotless_formatted_is_task_file(id: Seq<char>, p: Priority, st: Status, slug: Seq<char>)
    requires
        id.len() == 5,
        crate::filename::digits_in(id, 0, 5),
        no_dot(slug),
    ensures
        is_task_file_name(crate::filename::spec_format_filename(id, p, st, slug)),
{
    let n = crate::filename::spec_format_filename(id, p, st, slug);
    let pn = crate::constants::priority_name(p);
    let sn = crate::constants::status_name(st);
    assert(no_dot(id)) by {
        assert forall|i: int| 0 <= i < id.len() implies #[trigger] id[i] != '.' by {
            assert(crate::text::is_digit(id[i]));
        }
    }
    assert(no_dot(pn));
    assert(no_dot(sn)) by {
        match st {
            Status::Blocked => {},
            Status::Brainstorming => {},
            Status::Done => {},
            Status::InProgress => {},
            Status::Ready => {},
            Status::WontDo => {},
        }
    }
    let dash: Seq<char> = seq!['-'];
    assert(no_dot(dash));
    assert(no_dot(crate::filename::double_dash()));
    lemma_no_dot_concat(id, dash);
    lemma_no_dot_concat(id + dash, pn);
    lemma_no_dot_concat(id + dash + pn, dash);
    lemma_no_dot_concat(id + dash + pn + dash, sn);
    lemma_no_dot_concat(id + dash + pn + dash + sn, crate::filename::double_dash());
    lemma_no_dot_concat(id + dash + pn + dash + sn + crate::filename::double_dash(), slug);
    let stem = id + dash + pn + dash + sn + crate::filename::double_dash() + slug;
    assert(n =~= stem + crate::filename::md_ext());
    let d = stem.len() as int;
    assert forall|j: int| 0 <= j < d implies #[trigger] n[j] != '.' by {
        assert(n[j] == stem[j]);
    }
    assert(n[d] == '.' && n[d + 1] == 'm' && n[d + 2] == 'd');
    assert(n.len() == d + 3);
    assert(last_dot_before(n, d + 3) == last_dot_before(n, d + 2));
    assert(last_dot_before(n, d + 2) == last_dot_before(n, d + 1));
    assert(last_dot_before(n, d + 1) == d);
    assert(last_dot(n) == d);
    assert(n.skip(d + 1) =~= seq!['m', 'd']);
    lemma_last_dot_none(n, d);
    assert(n[0] != template_name()[0]);
}

} // verus!

verus! {

/// `n` is an ancillary file of the task file whose name without `.md` is
/// `stem`: `<stem>.<tag>.<ext>` with a non-empty tag and extension, whatever
/// the extension is.
pub open spec fn is_ancillary_of(stem: Seq<char>, n: Seq<char>) -> bool {
    &&& n.len() > stem.len() + 1
    &&& n.take(stem.len() as int) == stem
    &&& n[stem.len() as int] == '.'
    &&& {
        let rest = n.skip(stem.len() as int + 1);
        let d = last_dot(rest);
        0 < d && d < rest.len() - 1
    }
}

/// The path under `dir` of an ancillary file of `stem`, none for any other entry.
pub open spec fn ancillary_pick(dir: Seq<char>, stem: Seq<char>, n: Seq<char>) -> Option<Seq<char>> {
    if is_ancillary_of(stem, n) {
        Some(join_path(dir, n))
    } else {
        None
    }
}

/// The ancillary files of the task with id `id` among the entries `names`
/// of `dir`, as sorted paths; none when no task has that id.
pub open spec fn spec_ancillary_files(dir: Seq<char>, names: Seq<Seq<char>>, id: Seq<char>) -> Seq<
    Seq<char>,
> {
    match first_with_id(dir, spec_task_files(names), id) {
        None => seq![],
        Some(t) => {
            let name = crate::filename::spec_format_filename(t.1, t.2, t.3, t.4);
            let stem = name.take(name.len() - 3);
            crate::order::sort_lex(crate::order::picked(names, |n: Seq<char>| ancillary_pick(dir, stem, n)))
        },
    }
}

fn exec_is_ancillary_of(stem: &Vec<char>, n: &str) -> (r: bool)
    ensures
        r == is_ancillary_of(stem@, n@),
{
    let v = crate::text::chars_of(n);
    let sl = stem.len();
    if v.len() <= sl || v.len() - sl <= 1 {
        return false;
    }
    if !crate::text::matches_at(&v, 0, stem) {
        assert(!(v@.take(sl as int) == stem@)) by {
            if v@.take(sl as int) == stem@ {
                assert(v@.subrange(0, sl as int) =~= v@.take(sl as int));
            }
        }
        return false;
    }
    assert(v@.subrange(0, sl as int) =~= v@.take(sl as int));
    if v[sl] != '.' {
        return false;
    }
    let mut rest: Vec<char> = Vec::new();
    let mut i = sl + 1;
    while i < v.len()
        invariant
            sl + 1 <= i <= v.len(),
            rest@ == v@.subrange(sl + 1, i as int),
        decreases v.len() - i,
    {
        rest.push(v[i]);
        i = i + 1;
        assert(rest@ =~= v@.subrange(sl + 1, i as int));
    }
    assert(rest@ =~= v@.skip(sl + 1));
    match exec_last_dot_before(&rest, rest.len()) {
        None => false,
        Some(d) => 0 < d && d < rest.len() - 1,
    }
}

/// The ancillary files of the task with id `id` in the tasks directory
/// `tasks_dir` whose entries are `names`: its `<task-stem>.<tag>.<ext>`
/// siblings of any extension, as sorted paths.
pub fn ancillary_files_for(tasks_dir: &str, names: &Vec<String>, id: &str) -> (r: Vec<String>)
    ensures
        crate::text::views(r@) == spec_ancillary_files(tasks_dir@, crate::text::views(names@), id@),
{
    let task = match find_task_by_id(tasks_dir, names, id) {
        None => return Vec::new(),
        Some(t) => t,
    };
    let name = crate::filename::format_filename(task.id.as_str(), task.priority, task.status, task.slug.as_str());
    let nv = crate::text::chars_of(name.as_str());
    let mut stem = nv;
    let ghost full = stem@;
    assert(full.len() >= 3);
    stem.truncate(stem.len() - 3);
    assert(stem@ =~= full.take(full.len() - 3));
    let ghost vs = crate::text::views(names@);
    let ghost pick = |n: Seq<char>| ancillary_pick(tasks_dir@, stem@, n);
    let mut picked: Vec<String> = Vec::new();
    let mut i: usize = 0;
    while i < names.len()
        invariant
            i <= names.len(),
            vs == crate::text::views(names@),
            pick == (|n: Seq<char>| ancillary_pick(tasks_dir@, stem@, n)),
            crate::text::views(picked@) == crate::order::picked(vs.take(i as int), pick),
        decreases names.len() - i,
    {
        assert(vs.take(i + 1).drop_last() =~= vs.take(i as int));
        assert(vs.take(i + 1).last() == names@[i as int]@);
        if exec_is_ancillary_of(&stem, names[i].as_str()) {
            let ghost before = crate::text::views(picked@);
            picked.push(join_name(tasks_dir, names[i].as_str()));
            assert(crate::text::views(picked@) =~= before.push(join_path(tasks_dir@, names@[i as int]@)));
        }
        i = i + 1;
    }
    assert(vs.take(names.len() as int) =~= vs);
    crate::order::sort_strings(picked)
}

} // verus!

verus! {

/// The file name `name` parses as a task with id `id`.
pub open spec fn names_task_with_id(name: Seq<char>, id: Seq<char>) -> bool {
    crate::filename::spec_parse_filename(name) matches Some(f) && f.0 == id
}

/// Listing is complete and exact: every file of `files` whose name parses
/// is listed as its task (path under `dir`, then the fields its name
/// spells), every listed task is such a file, and there are as many tasks
/// as parseable names.
pub proof fn lemma_tasks_of_complete(dir: Seq<char>, files: Seq<Seq<char>>)
    ensures
        forall|k: int|
            0 <= k < files.len() && #[trigger] crate::filename::spec_parse_filename(files[k]) is Some ==> ({
                let f = crate::filename::spec_parse_filename(files[k])->0;
                tasks_of(dir, files).contains((join_path(dir, files[k]), f.0, f.1, f.2, f.3))
            }),
        forall|t: TaskView|
            #[trigger] tasks_of(dir, files).contains(t) ==> exists|k: int|
                0 <= k < files.len() && #[trigger] crate::filename::spec_parse_filename(files[k]) == Some(
                    (t.1, t.2, t.3, t.4),
                ) && t.0 == join_path(dir, files[k]),
        tasks_of(dir, files).len() == crate::validate::parsed_ids(files).len(),
    decreases files.len(),
{
    if files.len() > 0 {
        let init = files.drop_last();
        let rest = tasks_of(dir, init);
        lemma_tasks_of_complete(dir, init);
        let last = files.last();
        assert forall|k: int|
            0 <= k < files.len() && #[trigger] crate::filename::spec_parse_filename(files[k]) is Some implies ({
                let f = crate::filename::spec_parse_filename(files[k])->0;
                tasks_of(dir, files).contains((join_path(dir, files[k]), f.0, f.1, f.2, f.3))
            }) by {
            let f = crate::filename::spec_parse_filename(files[k])->0;
            let t = (join_path(dir, files[k]), f.0, f.1, f.2, f.3);
            if k < init.len() {
                assert(init[k] == files[k]);
                assert(crate::filename::spec_parse_filename(init[k]) is Some);
                assert(rest.contains(t));
                let q = choose|q: int| 0 <= q < rest.len() && rest[q] == t;
                match spec_task_at(join_path(dir, last), last) {
                    Some(u) => assert(rest.push(u)[q] == t),
                    None => {},
                }
            } else {
                assert(spec_task_at(join_path(dir, last), last) == Some(t));
                assert(rest.push(t)[rest.len() as int] == t);
            }
        }
        assert forall|t: TaskView| #[trigger] tasks_of(dir, files).contains(t) implies exists|k: int|
            0 <= k < files.len() && #[trigger] crate::filename::spec_parse_filename(files[k]) == Some(
                (t.1, t.2, t.3, t.4),
            ) && t.0 == join_path(dir, files[k]) by {
            let all = tasks_of(dir, files);
            let q = choose|q: int| 0 <= q < all.len() && all[q] == t;
            if q < rest.len() {
                assert(all[q] == rest[q]);
                assert(rest.contains(t));
                let k = choose|k: int|
                    0 <= k < init.len() && #[trigger] crate::filename::spec_parse_filename(init[k]) == Some(
                        (t.1, t.2, t.3, t.4),
                    ) && t.0 == join_path(dir, init[k]);
                assert(init[k] == files[k]);
            } else {
                let k = files.len() - 1;
                assert(files[k] == last);
                assert(crate::filename::spec_parse_filename(files[k]) == Some((t.1, t.2, t.3, t.4)));
            }
        }
    }
}

/// Lookup by id is exact: a task found for `id` carries exactly `id`, and
/// it is the first file of `files` whose name parses with that id, with its
/// path under `dir` and the fields its name spells; nothing is found
/// exactly when no file parses with that id.
pub proof fn lemma_first_with_id_exact(dir: Seq<char>, files: Seq<Seq<char>>, id: Seq<char>)
    ensures
        first_with_id(dir, files, id) matches Some(t) ==> {
            &&& t.1 == id
            &&& exists|k: int|
                0 <= k < files.len() && #[trigger] crate::filename::spec_parse_filename(files[k]) == Some(
                    (t.1, t.2, t.3, t.4),
                ) && t.0 == join_path(dir, files[k]) && forall|q: int|
                    0 <= q < k ==> !names_task_with_id(#[trigger] files[q], id)
        },
        first_with_id(dir, files, id) is None <==> forall|k: int|
            0 <= k < files.len() ==> !names_task_with_id(#[trigger] files[k], id),
    decreases files.len(),
{
    if files.len() > 0 {
        let rest = files.drop_first();
        lemma_first_with_id_exact(dir, rest, id);
        assert forall|k: int| 1 <= k < files.len() implies files[k] == #[trigger] rest[k - 1] by {}
        if names_task_with_id(files[0], id) {
            let f = crate::filename::spec_parse_filename(files[0])->0;
            assert(first_with_id(dir, files, id) == Some((join_path(dir, files[0]), f.0, f.1, f.2, f.3)));
            assert(crate::filename::spec_parse_filename(files[0]) == Some((f.0, f.1, f.2, f.3)));
        } else {
            assert(first_with_id(dir, files, id) == first_with_id(dir, rest, id));
            match first_with_id(dir, rest, id) {
                Some(t) => {
                    let k = choose|k: int|
                        0 <= k < rest.len() && #[trigger] crate::filename::spec_parse_filename(rest[k]) == Some(
                            (t.1, t.2, t.3, t.4),
                        ) && t.0 == join_path(dir, rest[k]) && forall|q: int|
                            0 <= q < k ==> !names_task_with_id(#[trigger] rest[q], id);
                    assert(files[k + 1] == rest[k]);
                    assert forall|q: int| 0 <= q < k + 1 implies !names_task_with_id(#[trigger] files[q], id) by {
                        if q > 0 {
                            assert(files[q] == rest[q - 1]);
                        }
                    }
                },
                None => {
                    assert forall|k: int| 0 <= k < files.len() implies !names_task_with_id(#[trigger] files[k], id) by {
                        if k > 0 {
                            assert(files[k] == rest[k - 1]);
                        }
                    }
                },
            }
        }
    }
}

/// An update renames the task from its current name: the old filename is
/// the canonical name of the task's current id, priority, status and slug,
/// which parses back to those fields; the new one parses to the updated
/// fields, so the two differ exactly when the update changes the priority,
/// the status or the slug.
pub proof fn lemma_update_renames_from_current(
    task: TaskView,
    priority: Option<Priority>,
    status: Option<Status>,
    slug: Option<Seq<char>>,
)
    requires
        crate::filename::is_valid_id(task.1),
        crate::filename::is_valid_slug(task.4),
    ensures
        spec_plan_update(task, priority, status, slug) matches Some((old_name, new_name)) ==> {
            let p = match priority {
                Some(p) => p,
                None => task.2,
            };
            let st = match status {
                Some(s) => s,
                None => task.3,
            };
            let sl = match slug {
                Some(s) => crate::filename::spec_slug(crate::filename::lowercase_of(s)),
                None => task.4,
            };
            &&& old_name == crate::filename::spec_format_filename(task.1, task.2, task.3, task.4)
            &&& crate::filename::spec_parse_filename(old_name) == Some((task.1, task.2, task.3, task.4))
            &&& crate::filename::spec_parse_filename(new_name) == Some((task.1, p, st, sl))
            &&& (old_name == new_name <==> (p == task.2 && st == task.3 && sl == task.4))
        },
{
    crate::filename::lemma_parse_format_roundtrip(task.1, task.2, task.3, task.4);
    lemma_update_keeps_task(task, priority, status, slug);
}

} // verus!
