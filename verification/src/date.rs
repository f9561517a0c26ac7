//! The creation date of a task file.
use vstd::prelude::*;

verus! {

/// Infer the creation date for a file from what the caller found: the date
/// git records for its addition, else its modification date, else today.
pub fn infer_created_date(git: Option<String>, mtime: Option<String>, today: String) -> (r: String)
    ensures
        r@ == match git {
            Some(d) => d@,
            None => match mtime {
                Some(d) => d@,
                None => today@,
            },
        },
{
    if let Some(d) = git {
        return d;
    }
    if let Some(d) = mtime {
        return d;
    }
    today
}

/// The last line of a command's output once surrounding whitespace is
/// trimmed, or `None` when the output is blank.
pub open spec fn spec_last_line(output: Seq<char>) -> Option<Seq<char>> {
    let t = crate::text::trim(output);
    if t.len() == 0 {
        None
    } else {
        Some(crate::text::after_last(t, '\n'))
    }
}

/// The last line of the (trimmed) output of a history query such as
/// `git log --format=%as`, whose oldest entry comes last; `None` when the
/// output is blank.
pub fn last_line(output: &str) -> (r: Option<String>)
    ensures
        match r {
            Some(l) => spec_last_line(output@) == Some(l@),
            None => spec_last_line(output@) is None,
        },
{
    let v = crate::text::chars_of(output);
    let (a, b) = crate::text::trim_bounds(&v, 0, v.len());
    if a == b {
        return None;
    }
    let t = crate::text::string_of_range(&v, a, b);
    let tv = crate::text::chars_of(t.as_str());
    let k = crate::text::after_last_start(&tv, tv.len(), '\n');
    assert(tv@.take(tv.len() as int) =~= tv@);
    Some(crate::text::string_of_range(&tv, k, tv.len()))
}

} // verus!
