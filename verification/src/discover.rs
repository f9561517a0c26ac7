//! Discovery of a project's tasks directory: the immediate subdirectories
//! that hold the `_TEMPLATE.md` marker, whatever their name.
//! The caller scans the directory; the library decides.
use vstd::prelude::*;

verus! {

/// What the caller found out about one entry of the scanned directory.
#[derive(Debug, Clone)]
pub struct DirEntryInfo {
    pub name: String,
    /// The entry is a directory.
    pub is_dir: bool,
    /// The entry holds a `_TEMPLATE.md` file.
    pub has_template: bool,
}

/// `tasks`, the conventional name.
pub open spec fn default_dir_name() -> Seq<char> {
    seq!['t', 'a', 's', 'k', 's']
}

/// The entry looks like a tasks directory.
pub open spec fn is_candidate(e: DirEntryInfo) -> bool {
    e.is_dir && e.has_template
}

/// The names of the candidate entries, in order.
pub open spec fn candidate_names(entries: Seq<DirEntryInfo>) -> Seq<Seq<char>>
    decreases entries.len(),
{
    if entries.len() == 0 {
        seq![]
    } else {
        let rest = candidate_names(entries.drop_last());
        if is_candidate(entries.last()) {
            rest.push(entries.last().name@)
        } else {
            rest
        }
    }
}

/// The candidates' names, sorted.
pub open spec fn spec_candidates(entries: Seq<DirEntryInfo>) -> Seq<Seq<char>> {
    crate::order::sort_lex(candidate_names(entries))
}

/// Names of every entry that looks like a tasks directory (a directory
/// holding `_TEMPLATE.md`), sorted so the result does not depend on the
/// order the directory was read in.
pub fn candidates(entries: &Vec<DirEntryInfo>) -> (r: Vec<String>)
    ensures
        crate::text::views(r@) == spec_candidates(entries@),
{
    let mut picked: Vec<String> = Vec::new();
    let mut i: usize = 0;
    while i < entries.len()
        invariant
            i <= entries.len(),
            crate::text::views(picked@) == candidate_names(entries@.take(i as int)),
        decreases entries.len() - i,
    {
        assert(entries@.take(i + 1).drop_last() =~= entries@.take(i as int));
        assert(entries@.take(i + 1).last() == entries@[i as int]);
        let e = &entries[i];
        if e.is_dir && e.has_template {
            picked.push(e.name.clone());
            assert(crate::text::views(picked@) =~= candidate_names(entries@.take(i + 1)));
        }
        i = i + 1;
    }
    assert(entries@.take(entries.len() as int) =~= entries@);
    crate::order::sort_strings(picked)
}

/// Outcome of scanning a directory for a tasks directory.
#[derive(Debug, Clone, PartialEq, Eq)]
pub enum Discovery {
    /// Exactly one candidate, by its bare directory name.
    Found(String),
    /// No candidate (or the directory could not be read).
    NotFound,
    /// Two or more candidates, names sorted; the caller must pick one.
    Ambiguous(Vec<String>),
}

/// Classify the candidates among `entries`.
pub fn discover(entries: &Vec<DirEntryInfo>) -> (r: Discovery)
    ensures
        spec_candidates(entries@).len() == 0 ==> r is NotFound,
        spec_candidates(entries@).len() == 1 ==> (r matches Discovery::Found(n) && n@
            == spec_candidates(entries@)[0]),
        spec_candidates(entries@).len() >= 2 ==> (r matches Discovery::Ambiguous(v)
            && crate::text::views(v@) == spec_candidates(entries@)),
{
    let mut found = candidates(entries);
    if found.len() == 0 {
        Discovery::NotFound
    } else if found.len() == 1 {
        let n = found.pop().unwrap();
        Discovery::Found(n)
    } else {
        Discovery::Ambiguous(found)
    }
}

/// The tasks directory name chosen under the never-fails policy: `tasks` if
/// it is a candidate, else the lexically first candidate, else `tasks`.
pub open spec fn spec_discover_or_default(entries: Seq<DirEntryInfo>) -> Seq<char> {
    let c = spec_candidates(entries);
    if c.contains(default_dir_name()) {
        default_dir_name()
    } else if c.len() > 0 {
        c[0]
    } else {
        default_dir_name()
    }
}

/// Resolve a tasks-directory name with a never-fails policy: prefer a
/// candidate named exactly `tasks`, then the lexically first candidate, then
/// the bare name `tasks` (which springs into existence on first write).
pub fn discover_or_default(entries: &Vec<DirEntryInfo>) -> (r: String)
    ensures
        r@ == spec_discover_or_default(entries@),
{
    let found = candidates(entries);
    let default_name = crate::constants::DEFAULT_TASKS_DIR_NAME;
    proof {
        reveal_strlit("tasks");
    }
    assert(default_name@ =~= default_dir_name());
    let mut i: usize = 0;
    while i < found.len()
        invariant
            i <= found.len(),
            default_name@ == default_dir_name(),
            crate::text::views(found@) == spec_candidates(entries@),
            forall|j: int| 0 <= j < i ==> found@[j]@ != default_dir_name(),
        decreases found.len() - i,
    {
        if crate::text::str_eq(found[i].as_str(), default_name) {
            assert(crate::text::views(found@)[i as int] == default_dir_name());
            return default_name.to_owned();
        }
        i = i + 1;
    }
    assert(!crate::text::views(found@).contains(default_dir_name())) by {
        if crate::text::views(found@).contains(default_dir_name()) {
            let j = choose|j: int| 0 <= j < found@.len() && crate::text::views(found@)[j] == default_dir_name();
            assert(found@[j]@ == default_dir_name());
        }
    }
    if found.len() > 0 {
        found[0].clone()
    } else {
        default_name.to_owned()
    }
}

} // verus!

verus! {

/// The name of a candidate entry, none for any other entry.
pub open spec fn candidate_pick(e: DirEntryInfo) -> Option<Seq<char>> {
    if is_candidate(e) {
        Some(e.name@)
    } else {
        None
    }
}

proof fn lemma_candidate_names_picked(entries: Seq<DirEntryInfo>)
    ensures
        candidate_names(entries) == crate::order::picked(entries, |e: DirEntryInfo| candidate_pick(e)),
    decreases entries.len(),
{
    if entries.len() > 0 {
        lemma_candidate_names_picked(entries.drop_last());
    }
}

/// Discovery does not depend on the order in which the directory was read:
/// any reordering of the entries yields the same candidates, so the same
/// outcome and the same default.
pub proof fn lemma_candidates_order_independent(a: Seq<DirEntryInfo>, b: Seq<DirEntryInfo>)
    requires
        a.to_multiset() == b.to_multiset(),
    ensures
        spec_candidates(a) == spec_candidates(b),
        spec_discover_or_default(a) == spec_discover_or_default(b),
{
    let pick = |e: DirEntryInfo| candidate_pick(e);
    lemma_candidate_names_picked(a);
    lemma_candidate_names_picked(b);
    crate::order::lemma_picked_permutation(a, b, pick);
    crate::order::lemma_sort_lex_permutation(candidate_names(a), candidate_names(b));
}

} // verus!
