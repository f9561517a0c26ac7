//! The task filename grammar: `<id>-<priority>-<status>--<slug>.md`.
use vstd::prelude::*;
use crate::constants::{Priority, Status};
use crate::text::{chars_of, matches_at, push_char, push_str, string_of, string_of_range};

verus! {

/// Maximum length (in characters, which are all ASCII) of a derived slug.
pub const MAX_SLUG_LEN: usize = 40;

/// An uppercase ASCII letter that may start an old alpha-prefix id (`I` and `O` excluded).
pub open spec fn is_id_letter(c: char) -> bool {
    'A' <= c && c <= 'Z' && c != 'I' && c != 'O'
}

/// All of `s[lo..hi]` are ASCII digits.
pub open spec fn digits_in(s: Seq<char>, lo: int, hi: int) -> bool {
    forall|i: int| lo <= i < hi ==> crate::text::is_digit(#[trigger] s[i])
}

/// Length of the id that starts `s` and is followed by `-`: 5 for `DDNNN`
/// and `AANNN`, 4 for the legacy `NNNN`, 0 when there is none.
pub open spec fn id_len(s: Seq<char>) -> int {
    if s.len() >= 6 && s[5] == '-' && digits_in(s, 0, 5) {
        5
    } else if s.len() >= 6 && s[5] == '-' && is_id_letter(s[0]) && is_id_letter(s[1])
        && digits_in(s, 2, 5) {
        5
    } else if s.len() >= 5 && s[4] == '-' && digits_in(s, 0, 4) {
        4
    } else {
        0
    }
}

/// `id` is a task id in one of the three accepted forms.
pub open spec fn is_valid_id(id: Seq<char>) -> bool {
    ||| id.len() == 5 && digits_in(id, 0, 5)
    ||| id.len() == 5 && is_id_letter(id[0]) && is_id_letter(id[1]) && digits_in(id, 2, 5)
    ||| id.len() == 4 && digits_in(id, 0, 4)
}

/// The priority spelled at position `i` of `s`, followed by `-`.
pub open spec fn priority_at(s: Seq<char>, i: int) -> Option<Priority> {
    if 0 <= i && i + 3 <= s.len() && s[i + 2] == '-' {
        crate::constants::priority_named(s.subrange(i, i + 2))
    } else {
        None
    }
}

/// `--`, the separator between status and slug.
pub open spec fn double_dash() -> Seq<char> {
    seq!['-', '-']
}

/// `.md`, the extension of every task file.
pub open spec fn md_ext() -> Seq<char> {
    seq!['.', 'm', 'd']
}

/// `s` holds the name of `st` at position `i`, followed by `--`.
pub open spec fn status_fits(s: Seq<char>, i: int, st: Status) -> bool {
    crate::text::has_at(s, i, crate::constants::status_name(st)) && crate::text::has_at(s, i + crate::constants::status_name(st).len(), double_dash())
}

/// The status spelled at position `i` of `s`, followed by `--`.
pub open spec fn status_at(s: Seq<char>, i: int) -> Option<Status> {
    if status_fits(s, i, Status::Blocked) {
        Some(Status::Blocked)
    } else if status_fits(s, i, Status::Brainstorming) {
        Some(Status::Brainstorming)
    } else if status_fits(s, i, Status::Done) {
        Some(Status::Done)
    } else if status_fits(s, i, Status::InProgress) {
        Some(Status::InProgress)
    } else if status_fits(s, i, Status::Ready) {
        Some(Status::Ready)
    } else if status_fits(s, i, Status::WontDo) {
        Some(Status::WontDo)
    } else {
        None
    }
}

/// A slug as the grammar accepts it: at least one character, no line feed.
pub open spec fn is_valid_slug(slug: Seq<char>) -> bool {
    slug.len() > 0 && !crate::text::contains_char(slug, '\n')
}

/// The fields of a task filename: id, priority, status, slug.
pub type FilenameFields = (Seq<char>, Priority, Status, Seq<char>);

/// What the filename grammar reads out of `s`, or `None` when `s` is not a
/// task filename.
pub open spec fn spec_parse_filename(s: Seq<char>) -> Option<FilenameFields> {
    let k = id_len(s);
    if k == 0 {
        None
    } else {
        match priority_at(s, k + 1) {
            None => None,
            Some(p) => match status_at(s, k + 4) {
                None => None,
                Some(st) => {
                    let a = k + 4 + crate::constants::status_name(st).len() + 2;
                    let slug = s.subrange(a, s.len() - 3);
                    if a + 4 <= s.len() && crate::text::has_at(s, s.len() - 3, md_ext()) && is_valid_slug(
                        slug,
                    ) {
                        Some((s.subrange(0, k), p, st, slug))
                    } else {
                        None
                    }
                },
            },
        }
    }
}

/// The canonical filename for the given fields.
pub open spec fn spec_format_filename(
    id: Seq<char>,
    p: Priority,
    st: Status,
    slug: Seq<char>,
) -> Seq<char> {
    id + seq!['-'] + crate::constants::priority_name(p) + seq!['-'] + crate::constants::status_name(st) + double_dash() + slug
        + md_ext()
}

proof fn lemma_status_at_of(s: Seq<char>, i: int, st: Status)
    requires
        status_fits(s, i, st),
    ensures
        status_at(s, i) == Some(st),
{
    let w = crate::constants::status_name(st);
    assert(s.subrange(i, i + w.len()) == w);
    assert(s[i] == w[0]);
    assert(s[i + 1] == w[1]);
    if st != Status::Blocked {
        let b = crate::constants::status_name(Status::Blocked);
        if crate::text::has_at(s, i, b) {
            assert(s.subrange(i, i + b.len())[0] == s[i]);
            assert(s.subrange(i, i + b.len())[1] == s[i + 1]);
            assert(false);
        }
    }
    if st != Status::Blocked && st != Status::Brainstorming {
        let b = crate::constants::status_name(Status::Brainstorming);
        if crate::text::has_at(s, i, b) {
            assert(s.subrange(i, i + b.len())[0] == s[i]);
            assert(s.subrange(i, i + b.len())[1] == s[i + 1]);
            assert(false);
        }
    }
    if st == Status::InProgress || st == Status::Ready || st == Status::WontDo {
        let b = crate::constants::status_name(Status::Done);
        if crate::text::has_at(s, i, b) {
            assert(s.subrange(i, i + b.len())[0] == s[i]);
            assert(false);
        }
    }
    if st == Status::Ready || st == Status::WontDo {
        let b = crate::constants::status_name(Status::InProgress);
        if crate::text::has_at(s, i, b) {
            assert(s.subrange(i, i + b.len())[0] == s[i]);
            assert(false);
        }
    }
    if st == Status::WontDo {
        let b = crate::constants::status_name(Status::Ready);
        if crate::text::has_at(s, i, b) {
            assert(s.subrange(i, i + b.len())[0] == s[i]);
            assert(false);
        }
    }
}

/// Formatting valid fields and parsing the result gives the same fields back:
/// the filename is a faithful carrier of the task's id, priority, status and slug.
pub proof fn lemma_parse_format_roundtrip(id: Seq<char>, p: Priority, st: Status, slug: Seq<char>)
    requires
        is_valid_id(id),
        is_valid_slug(slug),
    ensures
        spec_parse_filename(spec_format_filename(id, p, st, slug)) == Some((id, p, st, slug)),
{
    let s = spec_format_filename(id, p, st, slug);
    let k = id.len() as int;
    let w = crate::constants::status_name(st);
    assert(s.len() == k + 1 + 2 + 1 + w.len() + 2 + slug.len() + 3);
    assert(forall|j: int| 0 <= j < k ==> s[j] == id[j]);
    assert(s[k] == '-');
    assert(s[k + 1] == 'p');
    assert(s[k + 3] == '-');
    assert(id_len(s) == k) by {
        if k == 4 {
            assert(s[4] == '-');
            assert(!crate::text::is_digit(s[4]));
        } else if digits_in(id, 0, 5) {
        } else {
            assert(!crate::text::is_digit(s[0]));
        }
    }
    assert(s.subrange(k + 1, k + 3) =~= crate::constants::priority_name(p));
    crate::constants::lemma_priority_name_roundtrip(p);
    assert(priority_at(s, k + 1) == Some(p));
    let i = k + 4;
    assert(s.subrange(i, i + w.len()) =~= w);
    assert(s.subrange(i + w.len(), i + w.len() + 2) =~= double_dash());
    lemma_status_at_of(s, i, st);
    let a = i + w.len() + 2;
    assert(s.subrange(a, s.len() - 3) =~= slug);
    assert(s.subrange(s.len() - 3, s.len() as int) =~= md_ext());
    assert(s.subrange(0, k) =~= id);
}

/// Whatever the grammar accepts is already in canonical form: formatting the
/// parsed fields rebuilds the very same filename.
pub proof fn lemma_format_parse_roundtrip(s: Seq<char>)
    requires
        spec_parse_filename(s) is Some,
    ensures
        ({
            let f = spec_parse_filename(s)->0;
            &&& spec_format_filename(f.0, f.1, f.2, f.3) == s
            &&& is_valid_id(f.0)
            &&& is_valid_slug(f.3)
        }),
{
    let f = spec_parse_filename(s)->0;
    let k = id_len(s);
    let w = crate::constants::status_name(f.2);
    let i = k + 4;
    let a = i + w.len() + 2;
    assert(s.subrange(k + 1, k + 3) == crate::constants::priority_name(f.1)) by {
        let q = s.subrange(k + 1, k + 3);
        if q == crate::constants::priority_name(Priority::P0) {
        } else if q == crate::constants::priority_name(Priority::P1) {
        } else if q == crate::constants::priority_name(Priority::P2) {
        } else if q == crate::constants::priority_name(Priority::P3) {
        } else {
        }
    }
    assert(s.subrange(i, i + w.len()) == w);
    assert(s.subrange(i + w.len(), a) == double_dash());
    assert(s.subrange(s.len() - 3, s.len() as int) == md_ext());
    let f2 = spec_format_filename(f.0, f.1, f.2, f.3);
    assert(f2.len() == s.len());
    assert forall|j: int| 0 <= j < s.len() implies f2[j] == s[j] by {
        if j < k {
        } else if j == k {
        } else if j < k + 3 {
            assert(s[j] == s.subrange(k + 1, k + 3)[j - k - 1]);
        } else if j == k + 3 {
        } else if j < i + w.len() {
            assert(s[j] == s.subrange(i, i + w.len())[j - i]);
        } else if j < a {
            assert(s[j] == s.subrange(i + w.len(), a)[j - i - w.len()]);
        } else if j < s.len() - 3 {
        } else {
            assert(s[j] == s.subrange(s.len() - 3, s.len() as int)[j - (s.len() - 3)]);
        }
    }
    assert(f2 =~= s);
}

/// Result of parsing a task filename into its constituent fields.
#[derive(Debug, Clone, PartialEq, Eq)]
pub struct ParsedFilename {
    pub id: String,
    pub priority: Priority,
    pub status: Status,
    pub slug: String,
}

impl View for ParsedFilename {
    type V = FilenameFields;

    open spec fn view(&self) -> FilenameFields {
        (self.id@, self.priority, self.status, self.slug@)
    }
}

/// The fields of a parse result, taken by their views.
pub open spec fn parsed_view(r: Option<ParsedFilename>) -> Option<FilenameFields> {
    match r {
        Some(p) => Some(p@),
        None => None,
    }
}

fn all_digits(v: &Vec<char>, lo: usize, hi: usize) -> (r: bool)
    requires
        lo <= hi <= v.len(),
    ensures
        r == digits_in(v@, lo as int, hi as int),
{
    let mut i = lo;
    while i < hi
        invariant
            lo <= i <= hi <= v.len(),
            digits_in(v@, lo as int, i as int),
        decreases hi - i,
    {
        if !('0' <= v[i] && v[i] <= '9') {
            return false;
        }
        i = i + 1;
    }
    true
}

fn id_letter(c: char) -> (r: bool)
    ensures
        r == is_id_letter(c),
{
    'A' <= c && c <= 'Z' && c != 'I' && c != 'O'
}

fn exec_id_len(v: &Vec<char>) -> (k: usize)
    ensures
        k == id_len(v@),
{
    let n = v.len();
    if n >= 6 && v[5] == '-' && all_digits(v, 0, 5) {
        5
    } else if n >= 6 && v[5] == '-' && id_letter(v[0]) && id_letter(v[1]) && all_digits(v, 2, 5) {
        5
    } else if n >= 5 && v[4] == '-' && all_digits(v, 0, 4) {
        4
    } else {
        0
    }
}

fn exec_priority_at(v: &Vec<char>, i: usize) -> (r: Option<Priority>)
    ensures
        r == priority_at(v@, i as int),
{
    if i > v.len() || v.len() - i < 3 || v[i + 2] != '-' {
        return None;
    }
    if v[i] != 'p' {
        assert(v@.subrange(i as int, i + 2)[0] != 'p');
        return None;
    }
    let d = v[i + 1];
    let ghost w = v@.subrange(i as int, i + 2);
    assert(w =~= seq!['p', d]);
    if d == '0' {
        Some(Priority::P0)
    } else if d == '1' {
        Some(Priority::P1)
    } else if d == '2' {
        Some(Priority::P2)
    } else if d == '3' {
        Some(Priority::P3)
    } else if d == '4' {
        Some(Priority::P4)
    } else {
        assert(w[1] != crate::constants::priority_name(Priority::P0)[1]);
        assert(w[1] != crate::constants::priority_name(Priority::P1)[1]);
        assert(w[1] != crate::constants::priority_name(Priority::P2)[1]);
        assert(w[1] != crate::constants::priority_name(Priority::P3)[1]);
        assert(w[1] != crate::constants::priority_name(Priority::P4)[1]);
        None
    }
}

fn exec_status_fits(v: &Vec<char>, i: usize, st: Status) -> (r: bool)
    ensures
        r == status_fits(v@, i as int, st),
{
    let name = chars_of(st.as_str());
    if !matches_at(v, i, &name) {
        return false;
    }
    assert(i + name.len() <= v.len());
    let dd = chars_of("--");
    proof {
        reveal_strlit("--");
    }
    assert(dd@ =~= double_dash());
    matches_at(v, i + name.len(), &dd)
}

fn exec_status_at(v: &Vec<char>, i: usize) -> (r: Option<Status>)
    ensures
        r == status_at(v@, i as int),
{
    if exec_status_fits(v, i, Status::Blocked) {
        Some(Status::Blocked)
    } else if exec_status_fits(v, i, Status::Brainstorming) {
        Some(Status::Brainstorming)
    } else if exec_status_fits(v, i, Status::Done) {
        Some(Status::Done)
    } else if exec_status_fits(v, i, Status::InProgress) {
        Some(Status::InProgress)
    } else if exec_status_fits(v, i, Status::Ready) {
        Some(Status::Ready)
    } else if exec_status_fits(v, i, Status::WontDo) {
        Some(Status::WontDo)
    } else {
        None
    }
}

fn has_no_newline(v: &Vec<char>, lo: usize, hi: usize) -> (r: bool)
    requires
        lo <= hi <= v.len(),
    ensures
        r == !crate::text::contains_char(v@.subrange(lo as int, hi as int), '\n'),
{
    let ghost s = v@.subrange(lo as int, hi as int);
    let mut i = lo;
    while i < hi
        invariant
            lo <= i <= hi <= v.len(),
            s == v@.subrange(lo as int, hi as int),
            forall|j: int| 0 <= j < i - lo ==> s[j] != '\n',
        decreases hi - i,
    {
        if v[i] == '\n' {
            assert(s[i - lo] == '\n');
            return false;
        }
        i = i + 1;
    }
    true
}

/// Parse a task filename into its constituent fields.
/// Returns `None` if the name doesn't match the grammar.
pub fn parse_filename(name: &str) -> (r: Option<ParsedFilename>)
    ensures
        parsed_view(r) == spec_parse_filename(name@),
{
    let v = chars_of(name);
    let n = v.len();
    let k = exec_id_len(&v);
    if k == 0 {
        return None;
    }
    let p = match exec_priority_at(&v, k + 1) {
        None => return None,
        Some(p) => p,
    };
    let st = match exec_status_at(&v, k + 4) {
        None => return None,
        Some(st) => st,
    };
    let name_chars = chars_of(st.as_str());
    let a = k + 4 + name_chars.len() + 2;
    if a + 4 > n {
        return None;
    }
    let ext = chars_of(".md");
    proof {
        reveal_strlit(".md");
    }
    assert(ext@ =~= md_ext());
    if !matches_at(&v, n - 3, &ext) {
        return None;
    }
    if !has_no_newline(&v, a, n - 3) {
        return None;
    }
    let id = string_of_range(&v, 0, k);
    let slug = string_of_range(&v, a, n - 3);
    Some(ParsedFilename { id, priority: p, status: st, slug })
}

/// Build the canonical filename for a task. Double-dash separates status from slug.
pub fn format_filename(id: &str, priority: Priority, status: Status, slug: &str) -> (r: String)
    ensures
        r@ == spec_format_filename(id@, priority, status, slug@),
{
    let mut s = id.to_owned();
    push_char(&mut s, '-');
    push_str(&mut s, priority.as_str());
    push_char(&mut s, '-');
    push_str(&mut s, status.as_str());
    push_char(&mut s, '-');
    push_char(&mut s, '-');
    push_str(&mut s, slug);
    push_char(&mut s, '.');
    push_char(&mut s, 'm');
    push_char(&mut s, 'd');
    assert(s@ =~= spec_format_filename(id@, priority, status, slug@));
    s
}

} // verus!

verus! {

/// The running state of slug derivation after reading `s`: the slug built so
/// far and whether the last thing appended was a separator (true at the start,
/// so that a leading separator is never written).
pub open spec fn collapse(s: Seq<char>) -> (Seq<char>, bool)
    decreases s.len(),
{
    if s.len() == 0 {
        (seq![], true)
    } else {
        let (acc, sep) = collapse(s.drop_last());
        let c = s.last();
        if crate::text::is_alnum(c) {
            (acc.push(c), false)
        } else if !sep && acc.len() > 0 {
            (acc.push('-'), true)
        } else {
            (acc, sep)
        }
    }
}

/// `s` without one trailing `-`, if it has one.
pub open spec fn drop_trailing_hyphen(s: Seq<char>) -> Seq<char> {
    if s.len() > 0 && s.last() == '-' {
        s.drop_last()
    } else {
        s
    }
}

/// `untitled`, the slug of a title with no ASCII letter or digit.
pub open spec fn untitled() -> Seq<char> {
    seq!['u', 'n', 't', 'i', 't', 'l', 'e', 'd']
}

/// The slug of an already lowercased title: runs of characters that are not
/// ASCII letters or digits become a single `-`, no `-` at either end, at most
/// `MAX_SLUG_LEN` characters, and `untitled` when nothing is left.
pub open spec fn spec_slug(lower: Seq<char>) -> Seq<char> {
    let a = drop_trailing_hyphen(collapse(lower).0);
    let b = if a.len() > MAX_SLUG_LEN { drop_trailing_hyphen(a.take(MAX_SLUG_LEN as int)) } else { a };
    if b.len() == 0 {
        untitled()
    } else {
        b
    }
}

/// The lowercase form of a string as `str::to_lowercase` computes it.
pub uninterp spec fn lowercase_of(s: Seq<char>) -> Seq<char>;

/// An ASCII uppercase letter.
pub open spec fn is_ascii_upper(c: char) -> bool {
    'A' <= c && c <= 'Z'
}

/// `c` lowercased as ASCII: `A`..`Z` become `a`..`z`, everything else stays.
pub open spec fn ascii_lower(c: char) -> char {
    if is_ascii_upper(c) {
        ((c as u32) + 32) as char
    } else {
        c
    }
}

/// Every character of `s` is ASCII.
pub open spec fn all_ascii(s: Seq<char>) -> bool {
    forall|i: int| 0 <= i < s.len() ==> (#[trigger] s[i] as u32) < 128
}

/// No character of `s` is an ASCII uppercase letter.
pub open spec fn no_ascii_upper(s: Seq<char>) -> bool {
    forall|i: int| 0 <= i < s.len() ==> !is_ascii_upper(#[trigger] s[i])
}

/// `s` with every character lowercased as ASCII.
pub open spec fn ascii_lowercased(s: Seq<char>) -> Seq<char> {
    s.map_values(|c: char| ascii_lower(c))
}

/// `str::to_lowercase`. Claimed: the result is the function `lowercase_of` of
/// the argument's characters; as the Unicode lowercase mapping that std
/// documents gives, it holds no ASCII uppercase letter, and an all-ASCII
/// argument is lowercased character by character (`A`..`Z` to `a`..`z`,
/// every other character unchanged). The mapping of other characters is not
/// stated.
#[verifier::external_body]
fn to_lowercase(s: &str) -> (r: String)
    ensures
        r@ == lowercase_of(s@),
        no_ascii_upper(r@),
        all_ascii(s@) ==> r@ == ascii_lowercased(s@),
{
    s.to_lowercase()
}

fn ascii_alnum(c: char) -> (r: bool)
    ensures
        r == crate::text::is_alnum(c),
{
    ('0' <= c && c <= '9') || ('a' <= c && c <= 'z') || ('A' <= c && c <= 'Z')
}

/// Slug derivation on an already lowercased title (see `spec_slug`).
pub fn slug_from_lowercase(lower: &str) -> (slug: String)
    ensures
        slug@ == spec_slug(lower@),
{
    let v = chars_of(lower);
    let mut acc: Vec<char> = Vec::new();
    let mut last_was_sep = true;
    let mut i: usize = 0;
    while i < v.len()
        invariant
            i <= v.len(),
            (acc@, last_was_sep) == collapse(v@.take(i as int)),
        decreases v.len() - i,
    {
        let c = v[i];
        assert(v@.take(i + 1).drop_last() =~= v@.take(i as int));
        if ascii_alnum(c) {
            acc.push(c);
            last_was_sep = false;
        } else if !last_was_sep && acc.len() > 0 {
            acc.push('-');
            last_was_sep = true;
        }
        i = i + 1;
    }
    assert(v@.take(v.len() as int) =~= v@);
    if acc.len() > 0 && acc[acc.len() - 1] == '-' {
        acc.pop();
    }
    if acc.len() > MAX_SLUG_LEN {
        acc.truncate(MAX_SLUG_LEN);
        if acc[acc.len() - 1] == '-' {
            acc.pop();
        }
    }
    if acc.len() == 0 {
        let s = "untitled".to_owned();
        proof {
            reveal_strlit("untitled");
        }
        assert(s@ =~= untitled());
        return s;
    }
    string_of(&acc)
}

/// Convert a human-readable title to a valid slug.
///
/// Rules: lowercase, then replace runs of characters that are not ASCII
/// letters or digits with a single hyphen, strip leading and trailing hyphens,
/// truncate at `MAX_SLUG_LEN` characters. Returns `untitled` when the input
/// has no ASCII letter or digit.
///
/// A derived slug is its own slug: it is ASCII, and deriving a slug from it
/// gives it back, so `derive_slug(&derive_slug(t)) == derive_slug(t)`.
pub fn derive_slug(title: &str) -> (slug: String)
    ensures
        slug@ == spec_slug(lowercase_of(title@)),
        all_ascii(title@) ==> slug@ == spec_slug(ascii_lowercased(title@)),
        all_ascii(slug@),
        spec_slug(ascii_lowercased(slug@)) == slug@,
{
    let lower = to_lowercase(title);
    proof {
        lemma_slug_fixed(lower@);
    }
    slug_from_lowercase(lower.as_str())
}

/// What slug derivation builds before trimming: ASCII letters, digits and
/// single hyphens, never a hyphen first, never two in a row; the separator
/// flag is set exactly when the text is empty or ends with a hyphen.
proof fn lemma_collapse_shape(s: Seq<char>)
    ensures
        ({
            let (acc, sep) = collapse(s);
            &&& forall|i: int| 0 <= i < acc.len() ==> crate::text::is_alnum(#[trigger] acc[i]) || acc[i] == '-'
            &&& forall|i: int| 0 <= i < acc.len() && #[trigger] acc[i] == '-' ==> i > 0 && crate::text::is_alnum(acc[i - 1])
            &&& (acc.len() > 0 && !sep ==> crate::text::is_alnum(acc.last()))
        }),
    decreases s.len(),
{
    if s.len() > 0 {
        lemma_collapse_shape(s.drop_last());
        let (acc, sep) = collapse(s.drop_last());
        let c = s.last();
        if crate::text::is_alnum(c) {
            assert(acc.push(c).last() == c);
            let n = acc.push(c);
            assert forall|i: int| 0 <= i < n.len() && #[trigger] n[i] == '-' implies i > 0
                && crate::text::is_alnum(n[i - 1]) by {
                assert(i < acc.len());
            }
        } else if !sep && acc.len() > 0 {
            let n = acc.push('-');
            assert forall|i: int| 0 <= i < n.len() && #[trigger] n[i] == '-' implies i > 0
                && crate::text::is_alnum(n[i - 1]) by {
                if i == acc.len() {
                    assert(n[i - 1] == acc.last());
                }
            }
        }
    }
}

/// Every slug is usable in a filename: never empty, at most `MAX_SLUG_LEN`
/// characters, only ASCII letters, digits and hyphens, no hyphen at either
/// end, and never two hyphens in a row.
pub proof fn lemma_slug_well_formed(lower: Seq<char>)
    ensures
        ({
            let s = spec_slug(lower);
            &&& 0 < s.len() <= MAX_SLUG_LEN
            &&& forall|i: int| 0 <= i < s.len() ==> crate::text::is_alnum(#[trigger] s[i]) || s[i] == '-'
            &&& s[0] != '-'
            &&& s.last() != '-'
            &&& forall|i: int| 0 < i < s.len() && #[trigger] s[i] == '-' ==> s[i - 1] != '-'
            &&& is_valid_slug(s)
        }),
{
    lemma_collapse_shape(lower);
    let acc = collapse(lower).0;
    let a = drop_trailing_hyphen(acc);
    assert(forall|i: int| 0 <= i < a.len() ==> a[i] == acc[i]);
    let b = if a.len() > MAX_SLUG_LEN { drop_trailing_hyphen(a.take(MAX_SLUG_LEN as int)) } else { a };
    assert(forall|i: int| 0 <= i < b.len() ==> b[i] == acc[i]);
    if a.len() > 0 {
        assert(a.last() != '-') by {
            if acc.last() == '-' {
                assert(acc[acc.len() - 2] == a.last());
            }
        }
    }
    if b.len() > 0 {
        assert(b.last() != '-') by {
            if a.len() > MAX_SLUG_LEN {
                let t = a.take(MAX_SLUG_LEN as int);
                if t.last() == '-' {
                    assert(t[t.len() - 2] == acc[t.len() - 2]);
                }
            }
        }
        assert(b[0] != '-');
    }
    let s = spec_slug(lower);
    if b.len() == 0 {
        assert(s == untitled());
        assert(forall|i: int| 0 <= i < s.len() ==> crate::text::is_alnum(#[trigger] s[i]));
    }
    assert(!crate::text::contains_char(s, '\n')) by {
        if crate::text::contains_char(s, '\n') {
            let i = choose|i: int| 0 <= i < s.len() && s[i] == '\n';
            assert(crate::text::is_alnum(s[i]) || s[i] == '-');
        }
    }
}

proof fn lemma_collapse_no_upper(s: Seq<char>)
    requires
        no_ascii_upper(s),
    ensures
        no_ascii_upper(collapse(s).0),
    decreases s.len(),
{
    if s.len() > 0 {
        assert(no_ascii_upper(s.drop_last())) by {
            assert forall|i: int| 0 <= i < s.drop_last().len() implies !is_ascii_upper(
                #[trigger] s.drop_last()[i],
            ) by {
                assert(s.drop_last()[i] == s[i]);
            }
        }
        lemma_collapse_no_upper(s.drop_last());
        assert(!is_ascii_upper(s[s.len() - 1]));
        let acc = collapse(s.drop_last()).0;
        let c = s.last();
        assert forall|i: int| 0 <= i < acc.push(c).len() implies !is_ascii_upper(#[trigger] acc.push(c)[i]) by {
            if i < acc.len() {
                assert(acc.push(c)[i] == acc[i]);
            }
        }
        assert forall|i: int| 0 <= i < acc.push('-').len() implies !is_ascii_upper(#[trigger] acc.push('-')[i]) by {
            if i < acc.len() {
                assert(acc.push('-')[i] == acc[i]);
            }
        }
    }
}

proof fn lemma_collapse_of_slug(s: Seq<char>, k: int)
    requires
        0 <= k <= s.len(),
        forall|i: int| 0 <= i < s.len() ==> crate::text::is_alnum(#[trigger] s[i]) || s[i] == '-',
        s.len() > 0 ==> s[0] != '-',
        forall|i: int| 0 < i < s.len() && #[trigger] s[i] == '-' ==> s[i - 1] != '-',
    ensures
        collapse(s.take(k)) == (s.take(k), k == 0 || s[k - 1] == '-'),
    decreases k,
{
    if k == 0 {
        assert(s.take(0) =~= Seq::<char>::empty());
    } else {
        lemma_collapse_of_slug(s, k - 1);
        assert(s.take(k).drop_last() =~= s.take(k - 1));
        assert(s.take(k).last() == s[k - 1]);
        assert(s.take(k - 1).push(s[k - 1]) =~= s.take(k));
        if s[k - 1] == '-' {
            assert(k - 1 > 0);
            assert(s[k - 2] != '-');
            assert(s.take(k - 1).len() > 0);
        }
    }
}

/// A slug is its own slug: slugs are ASCII, hold no uppercase letter (when
/// the lowercased title holds none, as `str::to_lowercase` guarantees), and
/// deriving a slug from one gives it back.
pub proof fn lemma_slug_fixed(lower: Seq<char>)
    requires
        no_ascii_upper(lower),
    ensures
        all_ascii(spec_slug(lower)),
        no_ascii_upper(spec_slug(lower)),
        ascii_lowercased(spec_slug(lower)) == spec_slug(lower),
        spec_slug(spec_slug(lower)) == spec_slug(lower),
{
    let s = spec_slug(lower);
    lemma_slug_well_formed(lower);
    lemma_collapse_no_upper(lower);
    let acc = collapse(lower).0;
    let a = drop_trailing_hyphen(acc);
    assert(forall|i: int| 0 <= i < a.len() ==> a[i] == acc[i]);
    let b = if a.len() > MAX_SLUG_LEN { drop_trailing_hyphen(a.take(MAX_SLUG_LEN as int)) } else { a };
    assert(forall|i: int| 0 <= i < b.len() ==> b[i] == acc[i]);
    assert(no_ascii_upper(s)) by {
        assert forall|i: int| 0 <= i < s.len() implies !is_ascii_upper(#[trigger] s[i]) by {
            if b.len() == 0 {
                assert(s == untitled());
            } else {
                assert(s[i] == acc[i]);
            }
        }
    }
    assert(all_ascii(s)) by {
        assert forall|i: int| 0 <= i < s.len() implies (#[trigger] s[i] as u32) < 128 by {
            assert(crate::text::is_alnum(s[i]) || s[i] == '-');
        }
    }
    assert(ascii_lowercased(s) =~= s);
    lemma_collapse_of_slug(s, s.len() as int);
    assert(s.take(s.len() as int) =~= s);
}

} // verus!

verus! {

/// `s` and `t` agree on which characters are ASCII letters or digits, and
/// on those characters themselves.
pub open spec fn same_words(s: Seq<char>, t: Seq<char>) -> bool {
    &&& s.len() == t.len()
    &&& forall|k: int|
        0 <= k < s.len() ==> (crate::text::is_alnum(#[trigger] s[k]) == crate::text::is_alnum(t[k])) && (
        crate::text::is_alnum(s[k]) ==> s[k] == t[k])
}

proof fn lemma_collapse_same_words(s: Seq<char>, t: Seq<char>)
    requires
        same_words(s, t),
    ensures
        collapse(s) == collapse(t),
    decreases s.len(),
{
    if s.len() > 0 {
        assert(same_words(s.drop_last(), t.drop_last())) by {
            assert forall|k: int| 0 <= k < s.drop_last().len() implies (crate::text::is_alnum(
                #[trigger] s.drop_last()[k],
            ) == crate::text::is_alnum(t.drop_last()[k])) && (crate::text::is_alnum(s.drop_last()[k])
                ==> s.drop_last()[k] == t.drop_last()[k]) by {
                assert(s.drop_last()[k] == s[k]);
                assert(t.drop_last()[k] == t[k]);
            }
        }
        lemma_collapse_same_words(s.drop_last(), t.drop_last());
        assert(crate::text::is_alnum(s[s.len() - 1]) == crate::text::is_alnum(t[t.len() - 1]));
    }
}

/// Only the letters and digits of a title, and where the other characters
/// stand, decide its slug: two titles that agree on their ASCII letters and
/// digits, and have some other character wherever the other has one, get
/// the same slug, whatever those other characters are.
pub proof fn lemma_slug_same_words(s: Seq<char>, t: Seq<char>)
    requires
        same_words(s, t),
    ensures
        spec_slug(s) == spec_slug(t),
{
    lemma_collapse_same_words(s, t);
}

/// Every character that is not an ASCII letter or digit separates words in
/// the same way: replacing it by any other such character (a space, `/`,
/// `_`, `.`, `:` ...) leaves the slug unchanged, so `login/logout` and
/// `login logout` both give `login-logout`.
pub proof fn lemma_slug_any_separator(t: Seq<char>, i: int, c: char, d: char)
    requires
        0 <= i < t.len(),
        !crate::text::is_alnum(c),
        !crate::text::is_alnum(d),
    ensures
        spec_slug(t.update(i, c)) == spec_slug(t.update(i, d)),
{
    let a = t.update(i, c);
    let b = t.update(i, d);
    assert(same_words(a, b)) by {
        assert forall|k: int| 0 <= k < a.len() implies (crate::text::is_alnum(#[trigger] a[k])
            == crate::text::is_alnum(b[k])) && (crate::text::is_alnum(a[k]) ==> a[k] == b[k]) by {
            if k != i {
                assert(a[k] == t[k] && b[k] == t[k]);
            }
        }
    }
    lemma_slug_same_words(a, b);
}

/// Every character of `w` is an ASCII letter or digit.
pub open spec fn is_word(w: Seq<char>) -> bool {
    forall|k: int| 0 <= k < w.len() ==> crate::text::is_alnum(#[trigger] w[k])
}

proof fn lemma_collapse_append_word(x: Seq<char>, w: Seq<char>)
    requires
        is_word(w),
    ensures
        collapse(x + w).0 == collapse(x).0 + w,
        w.len() > 0 ==> !collapse(x + w).1,
        w.len() == 0 ==> collapse(x + w) == collapse(x),
    decreases w.len(),
{
    if w.len() == 0 {
        assert(x + w =~= x);
    } else {
        let v = w.drop_last();
        assert(is_word(v)) by {
            assert forall|k: int| 0 <= k < v.len() implies crate::text::is_alnum(#[trigger] v[k]) by {
                assert(v[k] == w[k]);
            }
        }
        lemma_collapse_append_word(x, v);
        assert((x + w).drop_last() =~= x + v);
        assert((x + w).last() == w[w.len() - 1]);
        assert(crate::text::is_alnum(w[w.len() - 1]));
        assert(collapse(x).0 + v.push(w[w.len() - 1]) =~= collapse(x).0 + w);
        assert((collapse(x).0 + v).push(w[w.len() - 1]) =~= collapse(x).0 + v.push(w[w.len() - 1]));
        assert(v.push(w[w.len() - 1]) =~= w);
    }
}

/// Two words with one separating character between them give the two words
/// joined by a single hyphen, whichever character separates them (as long
/// as the result fits in `MAX_SLUG_LEN`): `login/logout` gives `login-logout`.
pub proof fn lemma_slug_joins_words(a: Seq<char>, c: char, b: Seq<char>)
    requires
        is_word(a),
        is_word(b),
        a.len() > 0,
        b.len() > 0,
        !crate::text::is_alnum(c),
        a.len() + 1 + b.len() <= MAX_SLUG_LEN,
    ensures
        spec_slug(a.push(c) + b) == a.push('-') + b,
{
    let e = Seq::<char>::empty();
    lemma_collapse_append_word(e, a);
    assert(e + a =~= a);
    assert(collapse(e) == (e, true));
    assert(a.push(c).drop_last() =~= a);
    assert(collapse(a.push(c)) == (a.push('-'), true));
    lemma_collapse_append_word(a.push(c), b);
    let acc = collapse(a.push(c) + b).0;
    assert(acc == a.push('-') + b);
    assert(acc.last() == b[b.len() - 1]);
    assert(acc.last() != '-');
}

} // verus!
