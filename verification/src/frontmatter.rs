//! The legacy YAML frontmatter block: `---\n` ... `\n---\n` at the top of a file.
use std::collections::HashMap;
use vstd::prelude::*;

verus! {

/// `---\n`, the opening delimiter of a frontmatter block.
pub open spec fn open_marker() -> Seq<char> {
    seq!['-', '-', '-', '\n']
}

/// `\n---\n`, the closing delimiter of a frontmatter block.
pub open spec fn close_marker() -> Seq<char> {
    seq!['\n', '-', '-', '-', '\n']
}

/// Where the closing delimiter starts in the (normalised) text `n`, when `n`
/// opens a frontmatter block that is closed.
pub open spec fn frontmatter_close(n: Seq<char>) -> Option<int> {
    if crate::text::has_at(n, 0, open_marker()) {
        crate::text::find_from(n, close_marker(), 4)
    } else {
        None
    }
}

/// The text split at every `\n` (`str::split('\n')`): always at least one piece.
pub open spec fn split_lines(s: Seq<char>) -> Seq<Seq<char>>
    decreases s.len(),
{
    if s.len() == 0 {
        seq![seq![]]
    } else {
        let r = split_lines(s.drop_last());
        if s.last() == '\n' {
            r.push(seq![])
        } else {
            r.update(r.len() - 1, r.last().push(s.last()))
        }
    }
}

/// The key and value of one frontmatter line: split at its first `:`, both
/// sides trimmed; none when there is no `:` or the key is empty.
pub open spec fn line_field(line: Seq<char>) -> Option<(Seq<char>, Seq<char>)> {
    match crate::text::find_from(line, seq![':'], 0) {
        Some(c) => {
            let key = crate::text::trim(line.take(c));
            if key.len() > 0 {
                Some((key, crate::text::trim(line.skip(c + 1))))
            } else {
                None
            }
        },
        None => None,
    }
}

/// The fields of the given lines, in order.
pub open spec fn fields_of_lines(lines: Seq<Seq<char>>) -> Seq<(Seq<char>, Seq<char>)>
    decreases lines.len(),
{
    if lines.len() == 0 {
        seq![]
    } else {
        let rest = fields_of_lines(lines.drop_last());
        match line_field(lines.last()) {
            Some(f) => rest.push(f),
            None => rest,
        }
    }
}

/// The key/value lines of the frontmatter of `content`, in file order (line
/// endings normalised first; empty when there is no closed frontmatter block).
/// Splitting at `\n` gives the same fields as `str::lines`: the two differ only
/// by a `\r` at a line's end, which lies after any `:` and is trimmed away.
#[verifier::opaque]
pub open spec fn spec_frontmatter_fields(content: Seq<char>) -> Seq<(Seq<char>, Seq<char>)> {
    let n = crate::util::normalized(content);
    match frontmatter_close(n) {
        Some(end) => fields_of_lines(split_lines(crate::text::trim_range(n, 4, end))),
        None => seq![],
    }
}

/// The character views of a list of pairs of strings.
pub open spec fn pair_views(v: Seq<(String, String)>) -> Seq<(Seq<char>, Seq<char>)> {
    v.map_values(|p: (String, String)| (p.0@, p.1@))
}

fn open_marker_chars() -> (v: Vec<char>)
    ensures
        v@ == open_marker(),
{
    let v = crate::text::chars_of("---\n");
    proof {
        reveal_strlit("---\n");
    }
    assert(v@ =~= open_marker());
    v
}

fn close_marker_chars() -> (v: Vec<char>)
    ensures
        v@ == close_marker(),
{
    let v = crate::text::chars_of("\n---\n");
    proof {
        reveal_strlit("\n---\n");
    }
    assert(v@ =~= close_marker());
    v
}

/// Where the frontmatter block of the normalised text `n` closes.
pub fn find_frontmatter_close(n: &Vec<char>) -> (r: Option<usize>)
    ensures
        match r {
            Some(k) => frontmatter_close(n@) == Some(k as int),
            None => frontmatter_close(n@) is None,
        },
{
    let open = open_marker_chars();
    if !crate::text::matches_at(n, 0, &open) {
        return None;
    }
    let close = close_marker_chars();
    crate::text::find_chars(n, &close, 4)
}

proof fn lemma_split_lines_nonempty(s: Seq<char>)
    ensures
        split_lines(s).len() >= 1,
    decreases s.len(),
{
    if s.len() > 0 {
        lemma_split_lines_nonempty(s.drop_last());
    }
}

fn exec_line_field(line: &Vec<char>) -> (r: Option<(String, String)>)
    ensures
        match r {
            Some(p) => line_field(line@) == Some((p.0@, p.1@)),
            None => line_field(line@) is None,
        },
{
    let colon: Vec<char> = vec![':'];
    assert(colon@ =~= seq![':']);
    match crate::text::find_chars(line, &colon, 0) {
        Some(c) => {
            proof {
                crate::text::lemma_find_from(line@, seq![':'], 0);
            }
            let (a, b) = crate::text::trim_bounds(line, 0, c);
            assert(line@.take(c as int).subrange(a as int, b as int) =~= line@.subrange(a as int, b as int));
            proof {
                lemma_trim_prefix(line@, c as int);
            }
            if a == b {
                return None;
            }
            let key = crate::text::string_of_range(line, a, b);
            assert(crate::text::has_at(line@, c as int, seq![':']));
            assert(c + 1 <= line.len());
            let (x, y) = crate::text::trim_bounds(line, c + 1, line.len());
            proof {
                lemma_trim_suffix(line@, c + 1);
            }
            let value = crate::text::string_of_range(line, x, y);
            Some((key, value))
        },
        None => None,
    }
}

proof fn lemma_trim_lo_prefix(s: Seq<char>, lo: int, hi: int)
    requires
        0 <= lo <= hi <= s.len(),
    ensures
        crate::text::trim_lo(s.take(hi), lo, hi) == crate::text::trim_lo(s, lo, hi),
    decreases hi - lo,
{
    if lo < hi && crate::text::is_white(s[lo]) {
        lemma_trim_lo_prefix(s, lo + 1, hi);
    }
}

proof fn lemma_trim_hi_prefix(s: Seq<char>, lo: int, hi: int, n: int)
    requires
        0 <= lo <= hi <= n <= s.len(),
    ensures
        crate::text::trim_hi(s.take(n), lo, hi) == crate::text::trim_hi(s, lo, hi),
    decreases hi - lo,
{
    if lo < hi && crate::text::is_white(s[hi - 1]) {
        lemma_trim_hi_prefix(s, lo, hi - 1, n);
    }
}

proof fn lemma_trim_prefix(s: Seq<char>, c: int)
    requires
        0 <= c <= s.len(),
    ensures
        crate::text::trim(s.take(c)) == crate::text::trim_range(s, 0, c),
{
    lemma_trim_lo_prefix(s, 0, c);
    let a = crate::text::trim_lo(s, 0, c);
    crate::text::lemma_trim_bounds(s, 0, c);
    lemma_trim_hi_prefix(s, a, c, c);
    crate::text::lemma_trim_bounds(s, a, c);
    let b = crate::text::trim_hi(s, a, c);
    assert(s.take(c).subrange(a, b) =~= s.subrange(a, b));
}

proof fn lemma_trim_lo_shift(s: Seq<char>, k: int, lo: int, hi: int)
    requires
        0 <= k <= lo <= hi <= s.len(),
    ensures
        crate::text::trim_lo(s.skip(k), lo - k, hi - k) + k == crate::text::trim_lo(s, lo, hi),
    decreases hi - lo,
{
    if lo < hi && crate::text::is_white(s[lo]) {
        lemma_trim_lo_shift(s, k, lo + 1, hi);
    }
}

proof fn lemma_trim_hi_shift(s: Seq<char>, k: int, lo: int, hi: int)
    requires
        0 <= k <= lo <= hi <= s.len(),
    ensures
        crate::text::trim_hi(s.skip(k), lo - k, hi - k) + k == crate::text::trim_hi(s, lo, hi),
    decreases hi - lo,
{
    if lo < hi && crate::text::is_white(s[hi - 1]) {
        lemma_trim_hi_shift(s, k, lo, hi - 1);
    }
}

proof fn lemma_trim_suffix(s: Seq<char>, k: int)
    requires
        0 <= k <= s.len(),
    ensures
        crate::text::trim(s.skip(k)) == crate::text::trim_range(s, k, s.len() as int),
{
    let n = s.len() as int;
    lemma_trim_lo_shift(s, k, k, n);
    crate::text::lemma_trim_bounds(s, k, n);
    let a = crate::text::trim_lo(s, k, n);
    lemma_trim_hi_shift(s, k, a, n);
    crate::text::lemma_trim_bounds(s, a, n);
    let b = crate::text::trim_hi(s, a, n);
    assert(s.skip(k).subrange(a - k, b - k) =~= s.subrange(a, b));
}

/// The key/value lines of the frontmatter of `content`, in file order.
pub fn frontmatter_fields(content: &str) -> (r: Vec<(String, String)>)
    ensures
        pair_views(r@) == spec_frontmatter_fields(content@),
{
    reveal(spec_frontmatter_fields);
    let raw = crate::text::chars_of(content);
    let n = crate::util::normalize_chars(&raw);
    let mut r: Vec<(String, String)> = Vec::new();
    let end = match find_frontmatter_close(&n) {
        Some(end) => end,
        None => {
            assert(pair_views(r@) =~= Seq::<(Seq<char>, Seq<char>)>::empty());
            return r;
        },
    };
    proof {
        crate::text::lemma_find_from(n@, close_marker(), 4);
    }
    let (a, b) = crate::text::trim_bounds(&n, 4, end);
    let ghost body = n@.subrange(a as int, b as int);
    assert(body == crate::text::trim_range(n@, 4, end as int));
    let ghost done_lines: Seq<Seq<char>> = seq![];
    let mut line: Vec<char> = Vec::new();
    let mut i = a;
    assert(body.take(0) =~= Seq::<char>::empty());
    while i < b
        invariant
            a <= i <= b <= n@.len(),
            body == n@.subrange(a as int, b as int),
            split_lines(body.take(i - a)) == done_lines.push(line@),
            pair_views(r@) == fields_of_lines(done_lines),
        decreases b - i,
    {
        let c = n[i];
        let ghost pre = body.take(i - a);
        assert(body.take(i + 1 - a).drop_last() =~= pre);
        assert(body.take(i + 1 - a).last() == c);
        if c == '\n' {
            let f = exec_line_field(&line);
            proof {
                assert(done_lines.push(line@).drop_last() =~= done_lines);
            }
            match f {
                Some(p) => {
                    r.push(p);
                    assert(pair_views(r@) =~= fields_of_lines(done_lines.push(line@)));
                },
                None => {
                    assert(fields_of_lines(done_lines.push(line@)) == fields_of_lines(done_lines));
                },
            }
            proof {
                done_lines = done_lines.push(line@);
            }
            line = Vec::new();
            assert(split_lines(body.take(i + 1 - a)) =~= done_lines.push(line@));
        } else {
            line.push(c);
            assert(split_lines(body.take(i + 1 - a)) =~= done_lines.push(line@));
        }
        i = i + 1;
    }
    assert(body.take(b - a) =~= body);
    let f = exec_line_field(&line);
    proof {
        assert(done_lines.push(line@).drop_last() =~= done_lines);
    }
    match f {
        Some(p) => {
            r.push(p);
            assert(pair_views(r@) =~= fields_of_lines(done_lines.push(line@)));
        },
        None => {},
    }
    r
}

/// Some key of `m` reads as `key`.
pub open spec fn has_key_reading(m: Map<String, String>, key: Seq<char>) -> bool {
    exists|k: String| #[trigger] m.contains_key(k) && k@ == key
}

/// The value of the last field of `fields` whose key is `key`, if any.
pub open spec fn last_value(fields: Seq<(Seq<char>, Seq<char>)>, key: Seq<char>) -> Option<Seq<char>>
    decreases fields.len(),
{
    if fields.len() == 0 {
        None
    } else if fields.last().0 == key {
        Some(fields.last().1)
    } else {
        last_value(fields.drop_last(), key)
    }
}

/// No field after the `j`-th has the same key.
pub open spec fn is_last_key(fields: Seq<(Seq<char>, Seq<char>)>, j: int) -> bool {
    forall|l: int| j < l < fields.len() ==> #[trigger] fields[l].0 != fields[j].0
}

proof fn lemma_last_value_at(fields: Seq<(Seq<char>, Seq<char>)>, j: int)
    requires
        0 <= j < fields.len(),
        is_last_key(fields, j),
    ensures
        last_value(fields, fields[j].0) == Some(fields[j].1),
    decreases fields.len(),
{
    if j < fields.len() - 1 {
        assert(fields[fields.len() - 1].0 != fields[j].0);
        let d = fields.drop_last();
        assert(d[j] == fields[j]);
        assert forall|l: int| j < l < d.len() implies #[trigger] d[l].0 != d[j].0 by {
            assert(d[l] == fields[l]);
        }
        lemma_last_value_at(d, j);
    }
}

proof fn lemma_last_key_exists(fields: Seq<(Seq<char>, Seq<char>)>, j: int) -> (l: int)
    requires
        0 <= j < fields.len(),
    ensures
        j <= l < fields.len(),
        fields[l].0 == fields[j].0,
        is_last_key(fields, l),
    decreases fields.len() - j,
{
    if is_last_key(fields, j) {
        j
    } else {
        let l = choose|l: int| j < l < fields.len() && #[trigger] fields[l].0 == fields[j].0;
        lemma_last_key_exists(fields, l)
    }
}

proof fn lemma_last_value_none(fields: Seq<(Seq<char>, Seq<char>)>, key: Seq<char>)
    requires
        last_value(fields, key) is Some,
    ensures
        exists|j: int| 0 <= j < fields.len() && #[trigger] fields[j].0 == key,
    decreases fields.len(),
{
    if fields.last().0 == key {
        assert(fields[fields.len() - 1].0 == key);
    } else {
        lemma_last_value_none(fields.drop_last(), key);
        let j = choose|j: int| 0 <= j < fields.len() - 1 && #[trigger] fields.drop_last()[j].0 == key;
        assert(fields[j] == fields.drop_last()[j]);
    }
}

/// The `i`-th field's key occurs in no later field.
fn key_is_last(fields: &Vec<(String, String)>, i: usize) -> (r: bool)
    requires
        i < fields.len(),
    ensures
        r == is_last_key(pair_views(fields@), i as int),
{
    let ghost fv = pair_views(fields@);
    let mut l: usize = i + 1;
    while l < fields.len()
        invariant
            i < l <= fields.len(),
            fv == pair_views(fields@),
            forall|q: int| i < q < l ==> #[trigger] fv[q].0 != fv[i as int].0,
        decreases fields.len() - l,
    {
        if crate::text::str_eq(fields[l].0.as_str(), fields[i].0.as_str()) {
            assert(fv[l as int].0 == fv[i as int].0);
            return false;
        }
        l = l + 1;
    }
    true
}

/// Parse YAML frontmatter into flat key/value pairs, splitting each line on
/// its first `:` so values containing colons are kept whole. A later line
/// with the same key replaces an earlier one. CRLF is normalised first.
///
/// Claimed by the map's specification only when `String` keys obey vstd's key
/// model, which vstd does not establish: under it, the map holds one entry
/// for each key that some field line carries, and its value is that of the
/// last such line. `frontmatter_fields` states every field exactly, with no
/// such condition.
pub fn parse_frontmatter_str(content: &str) -> (m: HashMap<String, String>)
    ensures
        vstd::std_specs::hash::obeys_key_model::<String>()
            && vstd::std_specs::hash::builds_valid_hashers::<std::hash::RandomState>() ==> {
            &&& forall|k: String|
                #[trigger] m@.contains_key(k) ==> last_value(spec_frontmatter_fields(content@), k@)
                    == Some(m@[k]@)
            &&& forall|key: Seq<char>|
                #[trigger] last_value(spec_frontmatter_fields(content@), key) is Some ==> has_key_reading(
                    m@,
                    key,
                )
            &&& forall|k1: String, k2: String|
                #[trigger] m@.contains_key(k1) && #[trigger] m@.contains_key(k2) && k1@ == k2@ ==> k1 == k2
        },
{
    let fields = frontmatter_fields(content);
    let ghost fv = pair_views(fields@);
    let mut m: HashMap<String, String> = HashMap::new();
    let mut i: usize = 0;
    while i < fields.len()
        invariant
            i <= fields.len(),
            fv == pair_views(fields@),
            fv == spec_frontmatter_fields(content@),
            vstd::std_specs::hash::obeys_key_model::<String>()
                && vstd::std_specs::hash::builds_valid_hashers::<std::hash::RandomState>() ==> {
                &&& forall|k: String|
                    #[trigger] m@.contains_key(k) ==> exists|j: int|
                        0 <= j < i && is_last_key(fv, j) && fields@[j].0 == k && fields@[j].1 == m@[k]
                &&& forall|j: int| 0 <= j < i && is_last_key(fv, j) ==> #[trigger] m@.contains_key(fields@[j].0)
            },
        decreases fields.len() - i,
    {
        if key_is_last(&fields, i) {
            let k = fields[i].0.clone();
            let v = fields[i].1.clone();
            let ghost kk = k;
            let ghost vv = v;
            let ghost before = m@;
            m.insert(k, v);
            proof {
                assert(kk == fields@[i as int].0);
                assert(vv == fields@[i as int].1);
                if vstd::std_specs::hash::obeys_key_model::<String>()
                    && vstd::std_specs::hash::builds_valid_hashers::<std::hash::RandomState>() {
                    assert forall|k2: String| #[trigger] m@.contains_key(k2) implies exists|j: int|
                        0 <= j < i + 1 && is_last_key(fv, j) && fields@[j].0 == k2 && fields@[j].1 == m@[k2] by {
                        if k2 == kk {
                            assert(is_last_key(fv, i as int) && fields@[i as int].0 == k2 && fields@[i as int].1 == m@[k2]);
                        } else {
                            assert(before.contains_key(k2));
                            let j = choose|j: int|
                                0 <= j < i && is_last_key(fv, j) && fields@[j].0 == k2 && fields@[j].1 == before[k2];
                            assert(fields@[j].1 == m@[k2]);
                        }
                    }
                    assert forall|j: int| 0 <= j < i + 1 && is_last_key(fv, j) implies #[trigger] m@.contains_key(fields@[j].0) by {
                        if j < i {
                            assert(before.contains_key(fields@[j].0));
                        }
                    }
                }
            }
        }
        i = i + 1;
    }
    proof {
        if vstd::std_specs::hash::obeys_key_model::<String>()
            && vstd::std_specs::hash::builds_valid_hashers::<std::hash::RandomState>() {
            lemma_map_last(m@, fields@);
        }
    }
    m
}

proof fn lemma_map_last(m: Map<String, String>, fields: Seq<(String, String)>)
    requires
        forall|k: String|
            #[trigger] m.contains_key(k) ==> exists|j: int|
                0 <= j < fields.len() && is_last_key(pair_views(fields), j) && fields[j].0 == k
                    && fields[j].1 == m[k],
        forall|j: int|
            0 <= j < fields.len() && is_last_key(pair_views(fields), j) ==> #[trigger] m.contains_key(
                fields[j].0,
            ),
    ensures
        forall|k: String| #[trigger] m.contains_key(k) ==> last_value(pair_views(fields), k@) == Some(m[k]@),
        forall|key: Seq<char>|
            #[trigger] last_value(pair_views(fields), key) is Some ==> has_key_reading(m, key),
        forall|k1: String, k2: String|
            #[trigger] m.contains_key(k1) && #[trigger] m.contains_key(k2) && k1@ == k2@ ==> k1 == k2,
{
    let fv = pair_views(fields);
    assert forall|k: String| #[trigger] m.contains_key(k) implies last_value(fv, k@) == Some(m[k]@) by {
        let j = choose|j: int|
            0 <= j < fields.len() && is_last_key(fv, j) && fields[j].0 == k && fields[j].1 == m[k];
        assert(fv[j] == (fields[j].0@, fields[j].1@));
        lemma_last_value_at(fv, j);
    }
    assert forall|key: Seq<char>| #[trigger] last_value(fv, key) is Some implies has_key_reading(m, key) by {
        lemma_last_value_none(fv, key);
        let j = choose|j: int| 0 <= j < fv.len() && #[trigger] fv[j].0 == key;
        let l = lemma_last_key_exists(fv, j);
        assert(m.contains_key(fields[l].0));
        assert(fv[l] == (fields[l].0@, fields[l].1@));
    }
    assert forall|k1: String, k2: String|
        #[trigger] m.contains_key(k1) && #[trigger] m.contains_key(k2) && k1@ == k2@ implies k1 == k2 by {
        let j1 = choose|j: int|
            0 <= j < fields.len() && is_last_key(fv, j) && fields[j].0 == k1 && fields[j].1 == m[k1];
        let j2 = choose|j: int|
            0 <= j < fields.len() && is_last_key(fv, j) && fields[j].0 == k2 && fields[j].1 == m[k2];
        assert(fv[j1] == (fields[j1].0@, fields[j1].1@));
        assert(fv[j2] == (fields[j2].0@, fields[j2].1@));
        if j1 < j2 {
            assert(fv[j2].0 != fv[j1].0);
        } else if j2 < j1 {
            assert(fv[j1].0 != fv[j2].0);
        }
    }
}

/// True if `content` (line endings normalised) starts with `---\n` and later
/// holds a closing `\n---\n`.
pub fn has_valid_frontmatter(content: &str) -> (r: bool)
    ensures
        r == frontmatter_close(crate::util::normalized(content@)) is Some,
{
    let raw = crate::text::chars_of(content);
    let n = crate::util::normalize_chars(&raw);
    find_frontmatter_close(&n).is_some()
}

} // verus!

verus! {

/// The two readings of "this file has frontmatter" agree: the fix migration
/// strips a block exactly when the block is well formed, and without a well
/// formed block no field is read.
pub proof fn lemma_frontmatter_readings_agree(content: Seq<char>)
    ensures
        crate::fix::spec_strip_frontmatter(content) is Some <==> frontmatter_close(
            crate::util::normalized(content),
        ) is Some,
        frontmatter_close(crate::util::normalized(content)) is None ==> spec_frontmatter_fields(
            content,
        ).len() == 0,
{
    reveal(spec_frontmatter_fields);
}

} // verus!
