//! Line-ending normalisation.
use vstd::prelude::*;

verus! {

/// `s` with every `\r\n` replaced by `\n`, scanning left to right without overlap.
pub open spec fn normalized(s: Seq<char>) -> Seq<char>
    decreases s.len(),
{
    if s.len() == 0 {
        s
    } else if s.len() >= 2 && s[0] == '\r' && s[1] == '\n' {
        seq!['\n'] + normalized(s.skip(2))
    } else {
        seq![s[0]] + normalized(s.skip(1))
    }
}

/// `s` holds a `\r\n` pair somewhere.
pub open spec fn has_crlf(s: Seq<char>) -> bool {
    exists|i: int| 0 <= i && #[trigger] crate::text::has_at(s, i, crlf())
}

/// Normalise CRLF line endings to LF. Returns the input itself, borrowed,
/// when it holds no `\r\n`, and an owned copy with every `\r\n` replaced
/// otherwise.
pub fn normalize_line_endings(s: &str) -> (r: std::borrow::Cow<'_, str>)
    ensures
        r@ == normalized(s@),
        (r matches std::borrow::Cow::Borrowed(b) && b@ == s@) <==> !has_crlf(s@),
{
    let v = crate::text::chars_of(s);
    let mut i: usize = 0;
    while v.len() > 0 && i < v.len() - 1
        invariant
            v@ == s@,
            i <= v.len(),
            forall|j: int| 0 <= j < i ==> !#[trigger] crate::text::has_at(v@, j, crlf()),
        decreases v.len() - i,
    {
        if v[i] == '\r' && v[i + 1] == '\n' {
            assert(v@.subrange(i as int, i + 2) =~= crlf());
            assert(crate::text::has_at(v@, i as int, crlf()));
            let out = normalize_chars(&v);
            return std::borrow::Cow::Owned(crate::text::string_of(&out));
        }
        assert(!crate::text::has_at(v@, i as int, crlf())) by {
            if crate::text::has_at(v@, i as int, crlf()) {
                assert(v@.subrange(i as int, i + 2)[0] == v@[i as int]);
                assert(v@.subrange(i as int, i + 2)[1] == v@[i + 1]);
            }
        }
        i = i + 1;
    }
    assert forall|j: int| 0 <= j implies !#[trigger] crate::text::has_at(v@, j, crlf()) by {
        if j >= i {
            assert(j + 2 > v@.len());
        }
    }
    proof {
        lemma_normalized_without_crlf(s@);
    }
    std::borrow::Cow::Borrowed(s)
}

/// `normalized` on a character vector.
pub fn normalize_chars(v: &Vec<char>) -> (out: Vec<char>)
    ensures
        out@ == normalized(v@),
{
    let mut out: Vec<char> = Vec::new();
    let mut i: usize = 0;
    assert(v@.skip(0) =~= v@);
    while i < v.len()
        invariant
            i <= v.len(),
            out@ + normalized(v@.skip(i as int)) == normalized(v@),
        decreases v.len() - i,
    {
        let ghost rest = v@.skip(i as int);
        if v[i] == '\r' && i + 1 < v.len() && v[i + 1] == '\n' {
            assert(rest.skip(2) =~= v@.skip(i + 2));
            out.push('\n');
            i = i + 2;
            assert(out@ + normalized(v@.skip(i as int)) =~= normalized(v@));
        } else {
            assert(rest.skip(1) =~= v@.skip(i + 1));
            out.push(v[i]);
            i = i + 1;
            assert(out@ + normalized(v@.skip(i as int)) =~= normalized(v@));
        }
    }
    assert(v@.skip(i as int) =~= Seq::<char>::empty());
    assert(out@ =~= normalized(v@));
    out
}

} // verus!

verus! {

/// `\r\n`, the line ending that normalisation rewrites.
pub open spec fn crlf() -> Seq<char> {
    seq!['\r', '\n']
}

/// Text without a `\r\n` pair comes back unchanged.
pub proof fn lemma_normalized_without_crlf(s: Seq<char>)
    requires
        forall|i: int| 0 <= i ==> !#[trigger] crate::text::has_at(s, i, crlf()),
    ensures
        normalized(s) == s,
    decreases s.len(),
{
    if s.len() > 0 {
        let t = s.skip(1);
        assert forall|i: int| 0 <= i implies !#[trigger] crate::text::has_at(t, i, crlf()) by {
            if crate::text::has_at(t, i, crlf()) {
                assert(s.subrange(i + 1, i + 3) =~= t.subrange(i, i + 2));
                assert(crate::text::has_at(s, i + 1, crlf()));
            }
        }
        lemma_normalized_without_crlf(t);
        if s.len() >= 2 && s[0] == '\r' && s[1] == '\n' {
            assert(s.subrange(0, 2) =~= crlf());
            assert(crate::text::has_at(s, 0, crlf()));
        }
        assert(s =~= seq![s[0]] + t);
    }
}

} // verus!
