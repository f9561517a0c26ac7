//! The library's error type.
use vstd::prelude::*;
use crate::constants::{Priority, Status};

verus! {

/// `std::io::Error`, carried opaquely by `Error::Io`: nothing is assumed of
/// what it holds.
#[verifier::external_type_specification]
#[verifier::external_body]
pub struct ExIoError(std::io::Error);

/// What can go wrong in the library's operations.
#[derive(Debug)]
pub enum Error {
    Io(std::io::Error),
    /// Priority string did not match any known variant.
    InvalidPriority { got: String },
    /// Status string did not match any known variant.
    InvalidStatus { got: String },
    /// Slug failed validation; `reason` is a short human-readable description.
    InvalidSlug { got: String, reason: String },
    /// Task body was empty or whitespace-only.
    EmptyBody,
    /// Tasks directory does not exist on disk.
    TasksDirNotFound { path: String },
    /// Lookup by id found nothing.
    TaskNotFound { id: String },
    /// Target filename already exists when trying to rename to it.
    TargetExists { path: String },
    /// Task creation exhausted its retry budget allocating a unique id.
    IdAllocationExhausted { tasks_dir: String, tries: u32 },
}

impl From<std::io::Error> for Error {
    fn from(e: std::io::Error) -> (r: Error) {
        Error::Io(e)
    }
}

impl vstd::std_specs::convert::FromSpecImpl<std::io::Error> for Error {
    open spec fn obeys_from_spec() -> bool {
        true
    }

    open spec fn from_spec(v: std::io::Error) -> Error {
        Error::Io(v)
    }
}

} // verus!

verus! {

/// `format!("{:?}", s)`'s rendering of a string: quoted, with escapes.
pub uninterp spec fn debug_quoted_of(s: Seq<char>) -> Seq<char>;

/// `<str as Debug>::fmt` through `format!`. Claimed: the result is the
/// function `debug_quoted_of` of the characters (the escaping rules are not stated).
#[verifier::external_body]
fn debug_quoted(s: &str) -> (r: String)
    ensures
        r@ == debug_quoted_of(s@),
{
    format!("{:?}", s)
}

/// `<std::io::Error as Display>::fmt` through `to_string`. Nothing is
/// claimed of the text: it comes from the operating system.
#[verifier::external_body]
fn io_error_text(e: &std::io::Error) -> String {
    e.to_string()
}

/// The names of every priority, highest first.
pub open spec fn all_priority_names() -> Seq<Seq<char>> {
    Priority::ALL@.map_values(|p: Priority| crate::constants::priority_name(p))
}

/// The names of every status, in their listed order.
pub open spec fn all_status_names() -> Seq<Seq<char>> {
    Status::ALL@.map_values(|st: Status| crate::constants::status_name(st))
}

fn priority_list() -> (r: String)
    ensures
        r@ == crate::text::join(all_priority_names(), ", "@),
{
    let all = Priority::ALL;
    assert(all@.len() == 5);
    let mut names: Vec<String> = Vec::new();
    let mut i: usize = 0;
    while i < 5
        invariant
            i <= 5,
            all@ == Priority::ALL@,
            all@.len() == 5,
            crate::text::views(names@) == all_priority_names().take(i as int),
        decreases 5 - i,
    {
        let name = all[i].as_str().to_owned();
        assert(name@ == all_priority_names()[i as int]);
        let ghost before = crate::text::views(names@);
        names.push(name);
        assert(crate::text::views(names@) =~= before.push(name@));
        assert(crate::text::views(names@) =~= all_priority_names().take(i + 1));
        i = i + 1;
    }
    assert(all_priority_names().take(5) =~= all_priority_names());
    crate::text::join_strings(&names, ", ")
}

fn status_list() -> (r: String)
    ensures
        r@ == crate::text::join(all_status_names(), ", "@),
{
    let all = Status::ALL;
    assert(all@.len() == 6);
    let mut names: Vec<String> = Vec::new();
    let mut i: usize = 0;
    while i < 6
        invariant
            i <= 6,
            all@ == Status::ALL@,
            all@.len() == 6,
            crate::text::views(names@) == all_status_names().take(i as int),
        decreases 6 - i,
    {
        let name = all[i].as_str().to_owned();
        assert(name@ == all_status_names()[i as int]);
        let ghost before = crate::text::views(names@);
        names.push(name);
        assert(crate::text::views(names@) =~= before.push(name@));
        assert(crate::text::views(names@) =~= all_status_names().take(i + 1));
        i = i + 1;
    }
    assert(all_status_names().take(6) =~= all_status_names());
    crate::text::join_strings(&names, ", ")
}

/// The message of every error but `Io`, whose text comes from the system.
pub open spec fn spec_message(e: Error) -> Option<Seq<char>> {
    match e {
        Error::Io(_) => None,
        Error::InvalidPriority { got } => Some(
            "invalid priority '"@ + got@ + "', expected one of: "@ + crate::text::join(
                all_priority_names(),
                ", "@,
            ),
        ),
        Error::InvalidStatus { got } => Some(
            "invalid status '"@ + got@ + "', expected one of: "@ + crate::text::join(
                all_status_names(),
                ", "@,
            ),
        ),
        Error::InvalidSlug { got, reason } => Some(
            "invalid slug "@ + debug_quoted_of(got@) + ": "@ + reason@,
        ),
        Error::EmptyBody => Some(
            "body is required — pipe at least one line of description on stdin. A task with no body is a placeholder; if you cannot describe it, do not create it yet."@,
        ),
        Error::TasksDirNotFound { path } => Some(
            "tasks directory does not exist: "@ + path@ + " (run 'taskmd init' first)"@,
        ),
        Error::TaskNotFound { id } => Some("task "@ + id@ + " not found"@),
        Error::TargetExists { path } => Some("target already exists: "@ + path@),
        Error::IdAllocationExhausted { tasks_dir, tries } => Some(
            "failed to allocate a unique task ID in "@ + tasks_dir@ + " after "@
                + crate::text::decimal(tries as nat) + " attempts"@,
        ),
    }
}

impl Error {
    /// The human-readable message of this error.
    pub fn message(&self) -> (r: String)
        ensures
            spec_message(*self) matches Some(m) ==> r@ == m,
    {
        match self {
            Error::Io(e) => io_error_text(e),
            Error::InvalidPriority { got } => {
                let mut s = "invalid priority '".to_owned();
                crate::text::push_str(&mut s, got.as_str());
                crate::text::push_str(&mut s, "', expected one of: ");
                let list = priority_list();
                crate::text::push_str(&mut s, list.as_str());
                s
            },
            Error::InvalidStatus { got } => {
                let mut s = "invalid status '".to_owned();
                crate::text::push_str(&mut s, got.as_str());
                crate::text::push_str(&mut s, "', expected one of: ");
                let list = status_list();
                crate::text::push_str(&mut s, list.as_str());
                s
            },
            Error::InvalidSlug { got, reason } => {
                let mut s = "invalid slug ".to_owned();
                let q = debug_quoted(got.as_str());
                crate::text::push_str(&mut s, q.as_str());
                crate::text::push_str(&mut s, ": ");
                crate::text::push_str(&mut s, reason.as_str());
                s
            },
            Error::EmptyBody => "body is required — pipe at least one line of description on stdin. A task with no body is a placeholder; if you cannot describe it, do not create it yet.".to_owned(),
            Error::TasksDirNotFound { path } => {
                let mut s = "tasks directory does not exist: ".to_owned();
                crate::text::push_str(&mut s, path.as_str());
                crate::text::push_str(&mut s, " (run 'taskmd init' first)");
                s
            },
            Error::TaskNotFound { id } => {
                let mut s = "task ".to_owned();
                crate::text::push_str(&mut s, id.as_str());
                crate::text::push_str(&mut s, " not found");
                s
            },
            Error::TargetExists { path } => {
                let mut s = "target already exists: ".to_owned();
                crate::text::push_str(&mut s, path.as_str());
                s
            },
            Error::IdAllocationExhausted { tasks_dir, tries } => {
                let mut s = "failed to allocate a unique task ID in ".to_owned();
                crate::text::push_str(&mut s, tasks_dir.as_str());
                crate::text::push_str(&mut s, " after ");
                crate::text::push_decimal(&mut s, *tries as usize);
                crate::text::push_str(&mut s, " attempts");
                s
            },
        }
    }
}

} // verus!
