//! Creating a task: the checks on the request and the file's content. The
//! caller allocates the id and writes the file with exclusive creation,
//! retrying with a fresh id on collision.
use vstd::prelude::*;
use crate::constants::{Priority, Status};
use crate::error::Error;

verus! {

/// Upper bound on retries after exclusive-create collisions.
pub const MAX_CREATE_RETRIES: u32 = 50;

/// A task that was created.
#[derive(Debug, Clone)]
pub struct CreatedTask {
    pub id: String,
    pub path: String,
    pub filename: String,
}

/// Every character of `s` is whitespace (`str::trim` leaves nothing).
pub open spec fn all_white(s: Seq<char>) -> bool {
    forall|i: int| 0 <= i < s.len() ==> crate::text::is_white(#[trigger] s[i])
}

/// `s` without its trailing run of `\n`.
pub open spec fn trim_trailing_newlines(s: Seq<char>) -> Seq<char>
    decreases s.len(),
{
    if s.len() > 0 && s.last() == '\n' {
        trim_trailing_newlines(s.drop_last())
    } else {
        s
    }
}

/// The file content for a task body: the body without trailing newlines,
/// then exactly one newline.
pub open spec fn spec_task_content(body: Seq<char>) -> Seq<char> {
    trim_trailing_newlines(body).push('\n')
}

/// The outcome of checking a create request, in the order the checks run:
/// the priority and status must be known names, the slug needs an ASCII
/// letter or digit, the tasks directory must exist, the body must not be
/// blank. On success: the priority, the status, the derived slug and the
/// file content.
pub open spec fn spec_check_new_task(
    priority: Seq<char>,
    status: Seq<char>,
    slug: Seq<char>,
    dir_exists: bool,
    body: Seq<char>,
) -> Option<(Priority, Status, Seq<char>, Seq<char>)> {
    match (crate::constants::priority_named(priority), crate::constants::status_named(status)) {
        (Some(p), Some(st)) => if !crate::tasks::has_alnum(slug) || !dir_exists || all_white(body) {
            None
        } else {
            Some(
                (
                    p,
                    st,
                    crate::filename::spec_slug(crate::filename::lowercase_of(slug)),
                    spec_task_content(body),
                ),
            )
        },
        _ => None,
    }
}

/// Check a create request. `dir_exists` tells whether the tasks directory
/// `tasks_dir` exists. Returns the priority and status named, the slug
/// derived from `slug` and the file content for `body`, or the first failing
/// check's error: `InvalidPriority`, `InvalidStatus`, `InvalidSlug`,
/// `TasksDirNotFound`, then `EmptyBody`.
pub fn check_new_task(
    priority: &str,
    status: &str,
    slug: &str,
    dir_exists: bool,
    tasks_dir: &str,
    body: &str,
) -> (r: Result<(Priority, Status, String, String), Error>)
    ensures
        match r {
            Ok((p, st, s, c)) => spec_check_new_task(priority@, status@, slug@, dir_exists, body@)
                == Some((p, st, s@, c@)),
            Err(e) => {
                let pn = crate::constants::priority_named(priority@);
                let sn = crate::constants::status_named(status@);
                &&& spec_check_new_task(priority@, status@, slug@, dir_exists, body@) is None
                &&& pn is None ==> (e matches Error::InvalidPriority { got } && got@ == priority@)
                &&& pn is Some && sn is None ==> (e matches Error::InvalidStatus { got } && got@ == status@)
                &&& pn is Some && sn is Some && !crate::tasks::has_alnum(slug@) ==> (e matches Error::InvalidSlug { got, reason } && got@ == slug@ && reason@ == crate::tasks::no_alnum_reason())
                &&& pn is Some && sn is Some && crate::tasks::has_alnum(slug@) && !dir_exists ==> (e matches Error::TasksDirNotFound { path } && path@ == tasks_dir@)
                &&& pn is Some && sn is Some && crate::tasks::has_alnum(slug@) && dir_exists ==> e is EmptyBody
            },
        },
{
    let p = match Priority::from_name(priority) {
        Some(p) => p,
        None => return Err(Error::InvalidPriority { got: priority.to_owned() }),
    };
    let st = match Status::from_name(status) {
        Some(st) => st,
        None => return Err(Error::InvalidStatus { got: status.to_owned() }),
    };
    if !crate::tasks::any_alnum(slug) {
        return Err(
            Error::InvalidSlug {
                got: slug.to_owned(),
                reason: "must contain at least one alphanumeric character".to_owned(),
            },
        );
    }
    let derived = crate::filename::derive_slug(slug);
    if !dir_exists {
        return Err(Error::TasksDirNotFound { path: tasks_dir.to_owned() });
    }
    let v = crate::text::chars_of(body);
    let mut i: usize = 0;
    let mut blank = true;
    while i < v.len()
        invariant
            i <= v.len(),
            v@ == body@,
            blank == forall|j: int| 0 <= j < i ==> crate::text::is_white(#[trigger] v@[j]),
        decreases v.len() - i,
    {
        if !crate::text::white(v[i]) {
            blank = false;
        }
        i = i + 1;
    }
    if blank {
        return Err(Error::EmptyBody);
    }
    let mut end = v.len();
    assert(v@.take(end as int) =~= v@);
    while end > 0 && v[end - 1] == '\n'
        invariant
            end <= v.len(),
            trim_trailing_newlines(v@) == trim_trailing_newlines(v@.take(end as int)),
        decreases end,
    {
        assert(v@.take(end as int).drop_last() =~= v@.take(end - 1));
        end = end - 1;
    }
    let mut content = crate::text::string_of_range(&v, 0, end);
    assert(v@.subrange(0, end as int) =~= v@.take(end as int));
    crate::text::push_char(&mut content, '\n');
    Ok((p, st, derived, content))
}

/// What came of one attempt to create the task file with exclusive creation.
#[derive(Debug, Clone, Copy, PartialEq, Eq)]
pub enum CreateAttempt {
    /// The file was created and its content written.
    Created,
    /// A file of that name already existed (another writer claimed the id).
    AlreadyExists,
    /// Creating or writing the file failed otherwise.
    Failed,
}

/// What the create loop does after an attempt.
#[derive(Debug, Clone, Copy, PartialEq, Eq)]
pub enum CreateStep {
    /// The task exists; report it.
    Finish,
    /// Report the filesystem error.
    Fail,
    /// Allocate a fresh id and try again.
    Retry,
    /// The retry budget is spent: report `IdAllocationExhausted`.
    Exhausted,
}

/// The step after the `attempt`-th try (counting from 1) ended with
/// `outcome`: only a collision is retried, and only while fewer than
/// `MAX_CREATE_RETRIES` attempts were made.
pub fn after_attempt(attempt: u32, outcome: CreateAttempt) -> (r: CreateStep)
    ensures
        outcome == CreateAttempt::Created ==> r == CreateStep::Finish,
        outcome == CreateAttempt::Failed ==> r == CreateStep::Fail,
        outcome == CreateAttempt::AlreadyExists ==> (r == CreateStep::Retry <==> attempt < MAX_CREATE_RETRIES),
        outcome == CreateAttempt::AlreadyExists ==> (r == CreateStep::Exhausted <==> attempt >= MAX_CREATE_RETRIES),
{
    match outcome {
        CreateAttempt::Created => CreateStep::Finish,
        CreateAttempt::Failed => CreateStep::Fail,
        CreateAttempt::AlreadyExists => if attempt < MAX_CREATE_RETRIES {
            CreateStep::Retry
        } else {
            CreateStep::Exhausted
        },
    }
}

} // verus!

verus! {

/// Every file a create request leads to is a valid task file: an allocated
/// five-digit id with the derived slug formats to a name that parses back to
/// exactly those fields, so validation finds nothing wrong with its name.
pub proof fn lemma_created_name_parses(
    q: int,
    s: int,
    p: crate::constants::Priority,
    st: crate::constants::Status,
    title: Seq<char>,
)
    requires
        0 <= q < 100,
        0 <= s <= 999,
    ensures
        ({
            let id = crate::text::two_digits(q) + crate::text::three_digits(s);
            let slug = crate::filename::spec_slug(crate::filename::lowercase_of(title));
            crate::filename::spec_parse_filename(crate::filename::spec_format_filename(id, p, st, slug))
                == Some((id, p, st, slug))
        }),
{
    crate::ids::lemma_numeric_id_parts(q, s);
    crate::filename::lemma_slug_well_formed(crate::filename::lowercase_of(title));
    let id = crate::text::two_digits(q) + crate::text::three_digits(s);
    let slug = crate::filename::spec_slug(crate::filename::lowercase_of(title));
    crate::filename::lemma_parse_format_roundtrip(id, p, st, slug);
}

} // verus!

verus! {

/// Creating tasks one after another numbers them one after another: when the
/// local bucket `p` still has room, the id allocated after a task is created
/// under id `r` is `r`'s successor in the same bucket.
pub proof fn lemma_sequential_creates(
    p: int,
    names: Seq<Seq<char>>,
    r: Seq<char>,
    pr: crate::constants::Priority,
    st: crate::constants::Status,
    slug: Seq<char>,
    r2: Seq<char>,
)
    requires
        0 <= p < 100,
        crate::ids::seq_max(crate::ids::seqs_of(names, crate::text::two_digits(p))) < 998,
        crate::ids::spec_is_next_id(p, names, r),
        crate::filename::is_valid_slug(slug),
        crate::ids::spec_is_next_id(
            p,
            names.push(crate::filename::spec_format_filename(r, pr, st, slug)),
            r2,
        ),
    ensures
        ({
            let m = crate::ids::seq_max(crate::ids::seqs_of(names, crate::text::two_digits(p)));
            &&& r == crate::text::two_digits(p) + crate::text::three_digits(m + 1)
            &&& r2 == crate::text::two_digits(p) + crate::text::three_digits(m + 2)
        }),
{
    let pre = crate::text::two_digits(p);
    let m = crate::ids::seq_max(crate::ids::seqs_of(names, pre));
    let n = crate::filename::spec_format_filename(r, pr, st, slug);
    crate::ids::lemma_numeric_id_parts(p, m + 1);
    crate::filename::lemma_parse_format_roundtrip(r, pr, st, slug);
    let names2 = names.push(n);
    assert(names2.drop_last() =~= names);
    assert(names2.last() == n);
    assert(crate::ids::name_seq_in(n, pre) == Some((m + 1) as u32));
    let s2 = crate::ids::seqs_of(names2, pre);
    assert(s2 == crate::ids::seqs_of(names, pre).push((m + 1) as u32));
    assert(s2.drop_last() =~= crate::ids::seqs_of(names, pre));
    assert(crate::ids::seq_max(s2) == m + 1);
}

} // verus!
