//! Corpus validation: every task file name must follow the grammar, and no
//! two task files may share an id.
use vstd::prelude::*;

verus! {

/// The outcome of validating a tasks directory.
pub struct ValidationResult {
    pub errors: Vec<String>,
    pub file_count: usize,
}

impl ValidationResult {
    /// No error was found.
    pub fn ok(&self) -> (r: bool)
        ensures
            r == (self.errors@.len() == 0),
    {
        self.errors.len() == 0
    }
}

/// The error for a file name that does not follow the grammar.
pub open spec fn bad_name_error(name: Seq<char>) -> Seq<char> {
    name + ": filename doesn't match pattern DDNNN-pX-status--slug.md"@
}

/// The error for an id carried by several files.
pub open spec fn duplicate_error(id: Seq<char>, names: Seq<Seq<char>>) -> Seq<char> {
    "duplicate task id "@ + id + ": "@ + crate::text::join(names, ", "@)
        + " — run 'taskmd fix' to auto-renumber"@
}

/// The errors for the files of `files` that do not parse, in order.
pub open spec fn bad_name_errors(files: Seq<Seq<char>>) -> Seq<Seq<char>>
    decreases files.len(),
{
    if files.len() == 0 {
        seq![]
    } else {
        let rest = bad_name_errors(files.drop_last());
        if crate::filename::spec_parse_filename(files.last()) is None {
            rest.push(bad_name_error(files.last()))
        } else {
            rest
        }
    }
}

/// The ids of the files of `files` that parse, in order.
pub open spec fn parsed_ids(files: Seq<Seq<char>>) -> Seq<Seq<char>>
    decreases files.len(),
{
    if files.len() == 0 {
        seq![]
    } else {
        let rest = parsed_ids(files.drop_last());
        match crate::filename::spec_parse_filename(files.last()) {
            Some(f) => rest.push(f.0),
            None => rest,
        }
    }
}

/// The files of `files` that parse with id `id`, in order.
pub open spec fn files_with_id(files: Seq<Seq<char>>, id: Seq<char>) -> Seq<Seq<char>>
    decreases files.len(),
{
    if files.len() == 0 {
        seq![]
    } else {
        let rest = files_with_id(files.drop_last(), id);
        match crate::filename::spec_parse_filename(files.last()) {
            Some(f) => if f.0 == id {
                rest.push(files.last())
            } else {
                rest
            },
            None => rest,
        }
    }
}

/// One past the end of the run of entries equal to `s[i]` that starts at `i`.
pub open spec fn run_end(s: Seq<Seq<char>>, i: int, j: int) -> int
    decreases s.len() - j,
{
    if j < s.len() && i < s.len() && s[j] == s[i] {
        run_end(s, i, j + 1)
    } else {
        j
    }
}

/// The duplicate-id errors for the runs of the sorted ids `s` from position
/// `i` on: one per id held by two or more files, listing those files.
pub open spec fn duplicate_errors(s: Seq<Seq<char>>, files: Seq<Seq<char>>, i: int) -> Seq<Seq<char>>
    decreases s.len() - i,
{
    if i < 0 || i >= s.len() {
        seq![]
    } else {
        let j = run_end(s, i, i + 1);
        let here: Seq<Seq<char>> = if j - i >= 2 {
            seq![duplicate_error(s[i], files_with_id(files, s[i]))]
        } else {
            seq![]
        };
        if j <= i || j > s.len() {
            here
        } else {
            here + duplicate_errors(s, files, j)
        }
    }
}

/// Every error of the task files `files` (sorted by name): the files whose
/// name does not parse, in order; then, for each id carried by several files
/// in increasing id order, one error naming those files.
pub open spec fn spec_validation_errors(files: Seq<Seq<char>>) -> Seq<Seq<char>> {
    bad_name_errors(files) + duplicate_errors(crate::order::sort_lex(parsed_ids(files)), files, 0)
}

fn bad_name_message(name: &str) -> (r: String)
    ensures
        r@ == bad_name_error(name@),
{
    let mut s = name.to_owned();
    crate::text::push_str(&mut s, ": filename doesn't match pattern DDNNN-pX-status--slug.md");
    s
}

fn duplicate_message(id: &str, names: &Vec<String>) -> (r: String)
    ensures
        r@ == duplicate_error(id@, crate::text::views(names@)),
{
    let mut s = "duplicate task id ".to_owned();
    crate::text::push_str(&mut s, id);
    crate::text::push_str(&mut s, ": ");
    let joined = crate::text::join_strings(names, ", ");
    crate::text::push_str(&mut s, joined.as_str());
    crate::text::push_str(&mut s, " — run 'taskmd fix' to auto-renumber");
    s
}

pub(crate) fn collect_files_with_id(files: &Vec<String>, id: &str) -> (r: Vec<String>)
    ensures
        crate::text::views(r@) == files_with_id(crate::text::views(files@), id@),
{
    let ghost fs = crate::text::views(files@);
    let mut r: Vec<String> = Vec::new();
    let mut i: usize = 0;
    while i < files.len()
        invariant
            i <= files.len(),
            fs == crate::text::views(files@),
            crate::text::views(r@) == files_with_id(fs.take(i as int), id@),
        decreases files.len() - i,
    {
        assert(fs.take(i + 1).drop_last() =~= fs.take(i as int));
        assert(fs.take(i + 1).last() == files@[i as int]@);
        match crate::filename::parse_filename(files[i].as_str()) {
            Some(p) => {
                if crate::text::str_eq(p.id.as_str(), id) {
                    r.push(files[i].clone());
                    assert(crate::text::views(r@) =~= files_with_id(fs.take(i + 1), id@));
                }
            },
            None => {},
        }
        i = i + 1;
    }
    assert(fs.take(files.len() as int) =~= fs);
    r
}

/// Validate the tasks directory whose entries are `names`: check every task
/// file's name against the grammar and look for ids used more than once.
pub fn validate(names: &Vec<String>) -> (r: ValidationResult)
    ensures
        r.file_count == spec_task_file_count(crate::text::views(names@)),
        crate::text::views(r.errors@) == spec_validation_errors(
            crate::tasks::spec_task_files(crate::text::views(names@)),
        ),
        r.errors@.len() == 0 <==> {
            let files = crate::tasks::spec_task_files(crate::text::views(names@));
            &&& forall|i: int|
                0 <= i < files.len() ==> #[trigger] crate::filename::spec_parse_filename(files[i]) is Some
            &&& parsed_ids(files).no_duplicates()
        },
{
    let files = crate::tasks::task_files(names);
    let ghost fs = crate::text::views(files@);
    let mut errors: Vec<String> = Vec::new();
    let mut ids: Vec<String> = Vec::new();
    let mut i: usize = 0;
    while i < files.len()
        invariant
            i <= files.len(),
            fs == crate::text::views(files@),
            crate::text::views(errors@) == bad_name_errors(fs.take(i as int)),
            crate::text::views(ids@) == parsed_ids(fs.take(i as int)),
        decreases files.len() - i,
    {
        assert(fs.take(i + 1).drop_last() =~= fs.take(i as int));
        assert(fs.take(i + 1).last() == files@[i as int]@);
        match crate::filename::parse_filename(files[i].as_str()) {
            Some(p) => {
                ids.push(p.id);
                assert(crate::text::views(ids@) =~= parsed_ids(fs.take(i + 1)));
            },
            None => {
                errors.push(bad_name_message(files[i].as_str()));
                assert(crate::text::views(errors@) =~= bad_name_errors(fs.take(i + 1)));
            },
        }
        i = i + 1;
    }
    assert(fs.take(files.len() as int) =~= fs);
    let sorted = crate::order::sort_strings(ids);
    let ghost ss = crate::text::views(sorted@);
    let ghost head = crate::text::views(errors@);
    let mut k: usize = 0;
    while k < sorted.len()
        invariant
            k <= sorted.len(),
            ss == crate::text::views(sorted@),
            fs == crate::text::views(files@),
            crate::text::views(errors@) + duplicate_errors(ss, fs, k as int) == head
                + duplicate_errors(ss, fs, 0),
        decreases sorted.len() - k,
    {
        let mut j = k + 1;
        assert(run_end(ss, k as int, k + 1) == run_end(ss, k as int, j as int));
        while j < sorted.len() && crate::text::str_eq(sorted[j].as_str(), sorted[k].as_str())
            invariant
                k < j <= sorted.len(),
                ss == crate::text::views(sorted@),
                run_end(ss, k as int, k + 1) == run_end(ss, k as int, j as int),
            decreases sorted.len() - j,
        {
            j = j + 1;
        }
        let ghost before = crate::text::views(errors@);
        if j - k >= 2 {
            let group = collect_files_with_id(&files, sorted[k].as_str());
            errors.push(duplicate_message(sorted[k].as_str(), &group));
            assert(crate::text::views(errors@) =~= before + seq![
                duplicate_error(ss[k as int], files_with_id(fs, ss[k as int])),
            ]);
        }
        assert(crate::text::views(errors@) + duplicate_errors(ss, fs, j as int) =~= before
            + duplicate_errors(ss, fs, k as int));
        k = j;
    }
    assert(duplicate_errors(ss, fs, k as int) =~= Seq::<Seq<char>>::empty());
    assert(crate::text::views(errors@) =~= head + duplicate_errors(ss, fs, 0));
    proof {
        lemma_validation_clean_iff(fs);
        assert(crate::text::views(errors@).len() == errors@.len());
    }
    ValidationResult { errors, file_count: files.len() }
}

/// The number of task files among the directory entries `names`.
pub open spec fn spec_task_file_count(names: Seq<Seq<char>>) -> nat {
    crate::tasks::spec_task_files(names).len()
}

} // verus!

verus! {

proof fn lemma_bad_names_empty(files: Seq<Seq<char>>)
    ensures
        bad_name_errors(files).len() == 0 <==> forall|i: int|
            0 <= i < files.len() ==> #[trigger] crate::filename::spec_parse_filename(files[i]) is Some,
    decreases files.len(),
{
    if files.len() > 0 {
        let init = files.drop_last();
        lemma_bad_names_empty(init);
        let all_files = forall|i: int|
            0 <= i < files.len() ==> #[trigger] crate::filename::spec_parse_filename(files[i]) is Some;
        let all_init = forall|i: int|
            0 <= i < init.len() ==> #[trigger] crate::filename::spec_parse_filename(init[i]) is Some;
        if all_files {
            assert forall|i: int| 0 <= i < init.len() implies #[trigger] crate::filename::spec_parse_filename(
                init[i],
            ) is Some by {
                assert(init[i] == files[i]);
            }
            assert(crate::filename::spec_parse_filename(files[files.len() - 1]) is Some);
        }
        if bad_name_errors(files).len() == 0 {
            assert(crate::filename::spec_parse_filename(files.last()) is Some);
            assert(all_init);
            assert forall|i: int| 0 <= i < files.len() implies #[trigger] crate::filename::spec_parse_filename(
                files[i],
            ) is Some by {
                if i < init.len() {
                    assert(init[i] == files[i]);
                    assert(crate::filename::spec_parse_filename(init[i]) is Some);
                }
            }
        }
    }
}

proof fn lemma_run_end(s: Seq<Seq<char>>, i: int, j: int)
    requires
        0 <= i < j <= s.len(),
    ensures
        j <= run_end(s, i, j) <= s.len(),
    decreases s.len() - j,
{
    if j < s.len() && s[j] == s[i] {
        lemma_run_end(s, i, j + 1);
    }
}

proof fn lemma_duplicates_empty(s: Seq<Seq<char>>, files: Seq<Seq<char>>, i: int)
    requires
        0 <= i <= s.len(),
    ensures
        duplicate_errors(s, files, i).len() == 0 <==> forall|k: int|
            i <= k && k + 1 < s.len() ==> #[trigger] s[k] != s[k + 1],
    decreases s.len() - i,
{
    if i < s.len() {
        let j = run_end(s, i, i + 1);
        lemma_run_end(s, i, i + 1);
        if i + 1 < s.len() && s[i + 1] == s[i] {
            lemma_run_end(s, i, i + 2);
            assert(j >= i + 2);
        }
        if j - i < 2 {
            assert(j == i + 1);
            lemma_duplicates_empty(s, files, i + 1);
            assert(duplicate_errors(s, files, i) =~= duplicate_errors(s, files, i + 1));
        } else {
            assert(s[i] == s[i + 1]);
        }
    }
}

proof fn lemma_lex_le_antisymmetric(a: Seq<char>, b: Seq<char>)
    requires
        crate::order::lex_le(a, b),
        crate::order::lex_le(b, a),
    ensures
        a == b,
{
    crate::order::lemma_lex_asymmetric(a, b);
}

pub(crate) proof fn lemma_sorted_adjacent_distinct(s: Seq<Seq<char>>)
    requires
        crate::order::sorted_lex(s),
    ensures
        (forall|k: int| 0 <= k && k + 1 < s.len() ==> #[trigger] s[k] != s[k + 1]) <==> s.no_duplicates(),
{
    if forall|k: int| 0 <= k && k + 1 < s.len() ==> #[trigger] s[k] != s[k + 1] {
        assert forall|a: int, b: int| 0 <= a < s.len() && 0 <= b < s.len() && a != b implies s[a]
            != s[b] by {
            let (x, y) = if a < b { (a, b) } else { (b, a) };
            if s[x] == s[y] {
                assert(s[x] != s[x + 1]);
                assert(crate::order::lex_le(s[x], s[x + 1]));
                if x + 1 < y {
                    assert(crate::order::lex_le(s[x + 1], s[y]));
                }
                lemma_lex_le_antisymmetric(s[x], s[x + 1]);
            }
        }
    }
}

pub(crate) proof fn lemma_permutation_no_duplicates(a: Seq<Seq<char>>, b: Seq<Seq<char>>)
    requires
        a.to_multiset() =~= b.to_multiset(),
        a.no_duplicates(),
    ensures
        b.no_duplicates(),
{
    a.lemma_multiset_has_no_duplicates();
    b.lemma_multiset_has_no_duplicates_conv();
}

/// Validation finds nothing wrong exactly when every task file's name follows
/// the grammar and no two task files carry the same id.
pub proof fn lemma_validation_clean_iff(files: Seq<Seq<char>>)
    ensures
        spec_validation_errors(files).len() == 0 <==> {
            &&& forall|i: int|
                0 <= i < files.len() ==> #[trigger] crate::filename::spec_parse_filename(files[i]) is Some
            &&& parsed_ids(files).no_duplicates()
        },
{
    let ids = parsed_ids(files);
    let s = crate::order::sort_lex(ids);
    lemma_bad_names_empty(files);
    crate::order::lemma_sort_lex(ids);
    lemma_duplicates_empty(s, files, 0);
    lemma_sorted_adjacent_distinct(s);
    if s.no_duplicates() {
        lemma_permutation_no_duplicates(s, ids);
    }
    if ids.no_duplicates() {
        lemma_permutation_no_duplicates(ids, s);
    }
}

} // verus!

verus! {

/// The id of a task filename, none when it does not parse.
pub open spec fn id_pick(name: Seq<char>) -> Option<Seq<char>> {
    match crate::filename::spec_parse_filename(name) {
        Some(f) => Some(f.0),
        None => None,
    }
}

pub(crate) proof fn lemma_parsed_ids_picked(x: Seq<Seq<char>>)
    ensures
        parsed_ids(x) == crate::order::picked(x, |n: Seq<char>| id_pick(n)),
    decreases x.len(),
{
    if x.len() > 0 {
        lemma_parsed_ids_picked(x.drop_last());
    }
}

proof fn lemma_parsed_ids_source(x: Seq<Seq<char>>)
    ensures
        forall|k: int|
            0 <= k < parsed_ids(x).len() ==> exists|j: int|
                0 <= j < x.len() && #[trigger] id_pick(x[j]) == Some(#[trigger] parsed_ids(x)[k]),
    decreases x.len(),
{
    if x.len() > 0 {
        let init = x.drop_last();
        lemma_parsed_ids_source(init);
        assert forall|k: int| 0 <= k < parsed_ids(x).len() implies exists|j: int|
            0 <= j < x.len() && #[trigger] id_pick(x[j]) == Some(#[trigger] parsed_ids(x)[k]) by {
            if k < parsed_ids(init).len() {
                assert(parsed_ids(x)[k] == parsed_ids(init)[k]);
                let j = choose|j: int| 0 <= j < init.len() && #[trigger] id_pick(init[j]) == Some(parsed_ids(init)[k]);
                assert(x[j] == init[j]);
            } else {
                assert(id_pick(x[x.len() - 1]) == Some(parsed_ids(x)[k]));
            }
        }
    }
}

proof fn lemma_fresh_id_unused(p: int, seen: Seq<Seq<char>>, r: Seq<char>, f: Seq<Seq<char>>)
    requires
        0 <= p < 100,
        crate::ids::spec_is_next_id(p, seen, r),
        forall|i: int| 0 <= i < f.len() ==> seen.contains(#[trigger] f[i]),
    ensures
        !parsed_ids(f).contains(r),
{
    crate::ids::lemma_next_id_fresh(p, seen, r);
    let ids = parsed_ids(f);
    if ids.contains(r) {
        let k = choose|k: int| 0 <= k < ids.len() && ids[k] == r;
        lemma_parsed_ids_source(f);
        let j = choose|j: int| 0 <= j < f.len() && #[trigger] id_pick(f[j]) == Some(ids[k]);
        assert(seen.contains(f[j]));
        let q = choose|q: int| 0 <= q < seen.len() && seen[q] == f[j];
        assert(crate::filename::spec_parse_filename(seen[q]) is Some);
    }
}

proof fn lemma_push_fresh_no_duplicates(ids: Seq<Seq<char>>, r: Seq<char>)
    requires
        ids.no_duplicates(),
        !ids.contains(r),
    ensures
        ids.push(r).no_duplicates(),
{
    let w = ids.push(r);
    assert forall|a: int, b: int| 0 <= a < w.len() && 0 <= b < w.len() && a != b implies w[a] != w[b] by {
        if a < ids.len() && b < ids.len() {
            assert(w[a] == ids[a] && w[b] == ids[b]);
        } else if a < ids.len() {
            assert(w[a] == ids[a]);
        } else if b < ids.len() {
            assert(w[b] == ids[b]);
        }
    }
}

pub(crate) proof fn lemma_all_parse_permutation(g: Seq<Seq<char>>, h: Seq<Seq<char>>)
    requires
        g.to_multiset() == h.to_multiset(),
        forall|i: int| 0 <= i < g.len() ==> #[trigger] crate::filename::spec_parse_filename(g[i]) is Some,
    ensures
        forall|i: int| 0 <= i < h.len() ==> #[trigger] crate::filename::spec_parse_filename(h[i]) is Some,
{
    broadcast use vstd::seq_lib::group_to_multiset_ensures;

    assert forall|i: int| 0 <= i < h.len() implies #[trigger] crate::filename::spec_parse_filename(h[i]) is Some by {
        assert(h.contains(h[i]));
        assert(h.to_multiset().count(h[i]) > 0);
        assert(g.to_multiset().count(h[i]) > 0);
        assert(g.contains(h[i]));
        let j = choose|j: int| 0 <= j < g.len() && g[j] == h[i];
        assert(crate::filename::spec_parse_filename(g[j]) is Some);
    }
}

proof fn lemma_sorted_push_permutation(t: Seq<Seq<char>>, n: Seq<char>)
    ensures
        crate::order::sort_lex(t.push(n)).to_multiset() == crate::order::sort_lex(t).push(n).to_multiset(),
{
    broadcast use vstd::seq_lib::group_to_multiset_ensures;

    crate::order::lemma_sort_lex(t);
    crate::order::lemma_sort_lex(t.push(n));
    assert(crate::order::sort_lex(t.push(n)).to_multiset() =~= crate::order::sort_lex(t).push(n).to_multiset());
}

/// Creating a task keeps a clean directory clean: when the entries `names`
/// of a directory validate without error, adding the file of the id that
/// `next_id` allocates from names `seen` (which hold every task file of the
/// directory, and whatever history adds), with a derived slug, gives entries
/// that still validate without error.
pub proof fn lemma_create_keeps_clean(
    p: int,
    names: Seq<Seq<char>>,
    seen: Seq<Seq<char>>,
    r: Seq<char>,
    pr: crate::constants::Priority,
    st: crate::constants::Status,
    lower: Seq<char>,
)
    requires
        0 <= p < 100,
        crate::ids::spec_is_next_id(p, seen, r),
        forall|i: int|
            0 <= i < crate::tasks::spec_task_files(names).len() ==> seen.contains(
                #[trigger] crate::tasks::spec_task_files(names)[i],
            ),
        spec_validation_errors(crate::tasks::spec_task_files(names)).len() == 0,
    ensures
        spec_validation_errors(
            crate::tasks::spec_task_files(
                names.push(
                    crate::filename::spec_format_filename(r, pr, st, crate::filename::spec_slug(lower)),
                ),
            ),
        ).len() == 0,
{
    let slug = crate::filename::spec_slug(lower);
    let n = crate::filename::spec_format_filename(r, pr, st, slug);
    crate::ids::lemma_next_id_fresh(p, seen, r);
    crate::filename::lemma_slug_well_formed(lower);
    crate::tasks::lemma_formatted_is_task_file(r, pr, st, slug);
    assert(crate::filename::is_valid_id(r));
    crate::filename::lemma_parse_format_roundtrip(r, pr, st, slug);
    let names2 = names.push(n);
    assert(names2.drop_last() =~= names);
    let t = crate::tasks::task_names(names);
    assert(crate::tasks::task_names(names2) == t.push(n));
    let f = crate::order::sort_lex(t);
    let f2 = crate::order::sort_lex(t.push(n));
    crate::order::lemma_sort_lex(t);
    lemma_sorted_push_permutation(t, n);
    let g = f.push(n);
    lemma_validation_clean_iff(f);
    let ids = parsed_ids(f);
    assert(g.drop_last() =~= f);
    assert(parsed_ids(g) == ids.push(r));
    lemma_fresh_id_unused(p, seen, r, f);
    lemma_push_fresh_no_duplicates(ids, r);
    let pick = |x: Seq<char>| id_pick(x);
    lemma_parsed_ids_picked(g);
    lemma_parsed_ids_picked(f2);
    crate::order::lemma_picked_permutation(g, f2, pick);
    lemma_permutation_no_duplicates(parsed_ids(g), parsed_ids(f2));
    assert forall|i: int| 0 <= i < g.len() implies #[trigger] crate::filename::spec_parse_filename(g[i]) is Some by {
        if i < f.len() {
            assert(g[i] == f[i]);
        }
    }
    lemma_all_parse_permutation(g, f2);
    lemma_validation_clean_iff(f2);
}

/// `name` is the file task creation writes for the id `id`: some priority
/// and status, and the slug derived from some lowercased title.
pub open spec fn is_created_name(name: Seq<char>, id: Seq<char>) -> bool {
    exists|pr: crate::constants::Priority, st: crate::constants::Status, lower: Seq<char>|
        #[trigger] crate::filename::spec_format_filename(id, pr, st, crate::filename::spec_slug(lower)) == name
}

/// The directory `names` after the first `k` creations of `made`.
pub open spec fn created_after(names: Seq<Seq<char>>, made: Seq<Seq<char>>, k: int) -> Seq<Seq<char>> {
    names + made.take(k)
}

/// A directory whose task files were all written by task creation validates:
/// starting from entries `names` that validate without error (an empty
/// directory does), the `k`-th creation adds the file `made[k]` of the id
/// `ids[k]` that `next_id` allocated from names `seen[k]` holding every task
/// file present then, with a derived slug; the final entries validate
/// without error.
pub proof fn lemma_creates_leave_clean(
    p: int,
    names: Seq<Seq<char>>,
    made: Seq<Seq<char>>,
    ids: Seq<Seq<char>>,
    seen: Seq<Seq<Seq<char>>>,
)
    requires
        0 <= p < 100,
        spec_validation_errors(crate::tasks::spec_task_files(names)).len() == 0,
        ids.len() == made.len(),
        seen.len() == made.len(),
        forall|k: int| 0 <= k < made.len() ==> crate::ids::spec_is_next_id(p, #[trigger] seen[k], ids[k]),
        forall|k: int, i: int|
            0 <= k < made.len() && 0 <= i < crate::tasks::spec_task_files(created_after(names, made, k)).len()
                ==> seen[k].contains(
                #[trigger] crate::tasks::spec_task_files(created_after(names, made, k))[i],
            ),
        forall|k: int| 0 <= k < made.len() ==> is_created_name(#[trigger] made[k], ids[k]),
    ensures
        spec_validation_errors(crate::tasks::spec_task_files(names + made)).len() == 0,
{
    lemma_creates_prefix_clean(p, names, made, ids, seen, made.len() as int);
    assert(made.take(made.len() as int) =~= made);
}

proof fn lemma_creates_prefix_clean(
    p: int,
    names: Seq<Seq<char>>,
    made: Seq<Seq<char>>,
    ids: Seq<Seq<char>>,
    seen: Seq<Seq<Seq<char>>>,
    k: int,
)
    requires
        0 <= p < 100,
        0 <= k <= made.len(),
        spec_validation_errors(crate::tasks::spec_task_files(names)).len() == 0,
        ids.len() == made.len(),
        seen.len() == made.len(),
        forall|k: int| 0 <= k < made.len() ==> crate::ids::spec_is_next_id(p, #[trigger] seen[k], ids[k]),
        forall|k: int, i: int|
            0 <= k < made.len() && 0 <= i < crate::tasks::spec_task_files(created_after(names, made, k)).len()
                ==> seen[k].contains(
                #[trigger] crate::tasks::spec_task_files(created_after(names, made, k))[i],
            ),
        forall|k: int| 0 <= k < made.len() ==> is_created_name(#[trigger] made[k], ids[k]),
    ensures
        spec_validation_errors(crate::tasks::spec_task_files(created_after(names, made, k))).len() == 0,
    decreases k,
{
    if k == 0 {
        assert(created_after(names, made, 0) =~= names);
    } else {
        lemma_creates_prefix_clean(p, names, made, ids, seen, k - 1);
        let d = created_after(names, made, k - 1);
        assert(created_after(names, made, k) =~= d.push(made[k - 1]));
        assert(is_created_name(made[k - 1], ids[k - 1]));
        let (pr, st, lower) = choose|pr: crate::constants::Priority, st: crate::constants::Status, lower: Seq<char>|
            #[trigger] crate::filename::spec_format_filename(ids[k - 1], pr, st, crate::filename::spec_slug(lower))
                == made[k - 1];
        assert(crate::ids::spec_is_next_id(p, seen[k - 1], ids[k - 1]));
        assert forall|i: int| 0 <= i < crate::tasks::spec_task_files(d).len() implies seen[k - 1].contains(
            #[trigger] crate::tasks::spec_task_files(d)[i],
        ) by {
            assert(seen[k - 1].contains(crate::tasks::spec_task_files(created_after(names, made, k - 1))[i]));
        }
        lemma_create_keeps_clean(p, d, seen[k - 1], ids[k - 1], pr, st, lower);
    }
}

} // verus!
