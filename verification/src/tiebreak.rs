//! Which of several files sharing a duplicate id keeps it: the earliest by
//! first appearance in history, then by modification time, then by name.
use vstd::prelude::*;

verus! {

/// What is known of one file competing for a duplicate id.
#[derive(Debug, Clone)]
pub struct TiebreakEntry {
    /// When the file first appeared in history (Unix seconds), if known.
    pub first_seen: Option<i64>,
    /// The file's modification time (nanoseconds since the epoch), if known.
    pub mtime: Option<i128>,
    /// The file name.
    pub name: String,
    /// The file's path.
    pub path: String,
}

/// A known value comes first, then the smaller one: -1, 0 or 1.
pub open spec fn option_order(a: Option<int>, b: Option<int>) -> int {
    match (a, b) {
        (Some(x), Some(y)) => if x < y {
            -1
        } else if x > y {
            1
        } else {
            0
        },
        (Some(_), None) => -1,
        (None, Some(_)) => 1,
        (None, None) => 0,
    }
}

/// Lexicographic order of names: -1, 0 or 1.
pub open spec fn name_order(a: Seq<char>, b: Seq<char>) -> int {
    if a == b {
        0
    } else if crate::order::lex_lt(a, b) {
        -1
    } else {
        1
    }
}

/// An `Option<i64>` as an optional integer.
pub open spec fn opt64(o: Option<i64>) -> Option<int> {
    match o {
        Some(x) => Some(x as int),
        None => None,
    }
}

/// An `Option<i128>` as an optional integer.
pub open spec fn opt128(o: Option<i128>) -> Option<int> {
    match o {
        Some(x) => Some(x as int),
        None => None,
    }
}

/// The tiebreak order of two entries: -1 when `a` wins over `b`, 1 when `b`
/// wins, 0 when they tie. Earliest first-seen time first (known before
/// unknown), then earliest modification time, then name.
pub open spec fn tiebreak_order(a: TiebreakEntry, b: TiebreakEntry) -> int {
    let g = option_order(opt64(a.first_seen), opt64(b.first_seen));
    if g != 0 {
        g
    } else {
        let m = option_order(opt128(a.mtime), opt128(b.mtime));
        if m != 0 {
            m
        } else {
            name_order(a.name@, b.name@)
        }
    }
}

/// `s` is in tiebreak order: the winner first.
pub open spec fn tiebreak_sorted(s: Seq<TiebreakEntry>) -> bool {
    forall|i: int, j: int| 0 <= i < j < s.len() ==> tiebreak_order(#[trigger] s[i], #[trigger] s[j]) <= 0
}

proof fn lemma_name_order(a: Seq<char>, b: Seq<char>)
    ensures
        name_order(a, b) == -name_order(b, a),
{
    crate::order::lemma_lex_total(a, b);
    crate::order::lemma_lex_asymmetric(a, b);
    crate::order::lemma_lex_irreflexive(a);
}

proof fn lemma_name_order_trans(a: Seq<char>, b: Seq<char>, c: Seq<char>)
    requires
        name_order(a, b) <= 0,
        name_order(b, c) <= 0,
    ensures
        name_order(a, c) <= 0,
        name_order(a, b) < 0 || name_order(b, c) < 0 ==> name_order(a, c) < 0,
{
    crate::order::lemma_lex_le_transitive(a, b, c);
    if crate::order::lex_lt(a, b) && crate::order::lex_lt(b, c) {
        crate::order::lemma_lex_transitive(a, b, c);
    }
    if a == c && (crate::order::lex_lt(a, b) || crate::order::lex_lt(b, c)) {
        crate::order::lemma_lex_asymmetric(a, b);
    }
}

/// Swapping the arguments flips the order.
pub proof fn lemma_tiebreak_antisymmetric(a: TiebreakEntry, b: TiebreakEntry)
    ensures
        tiebreak_order(a, b) == -tiebreak_order(b, a),
{
    lemma_name_order(a.name@, b.name@);
}

/// The tiebreak order is transitive.
pub proof fn lemma_tiebreak_transitive(a: TiebreakEntry, b: TiebreakEntry, c: TiebreakEntry)
    requires
        tiebreak_order(a, b) <= 0,
        tiebreak_order(b, c) <= 0,
    ensures
        tiebreak_order(a, c) <= 0,
{
    let gab = option_order(opt64(a.first_seen), opt64(b.first_seen));
    let gbc = option_order(opt64(b.first_seen), opt64(c.first_seen));
    let mab = option_order(opt128(a.mtime), opt128(b.mtime));
    let mbc = option_order(opt128(b.mtime), opt128(c.mtime));
    if gab == 0 && gbc == 0 && mab == 0 && mbc == 0 {
        lemma_name_order_trans(a.name@, b.name@, c.name@);
    }
}

fn option_order_exec64(a: Option<i64>, b: Option<i64>) -> (r: i8)
    ensures
        r as int == option_order(opt64(a), opt64(b)),
{
    match (a, b) {
        (Some(x), Some(y)) => if x < y {
            -1
        } else if x > y {
            1
        } else {
            0
        },
        (Some(_), None) => -1,
        (None, Some(_)) => 1,
        (None, None) => 0,
    }
}

fn option_order_exec128(a: Option<i128>, b: Option<i128>) -> (r: i8)
    ensures
        r as int == option_order(opt128(a), opt128(b)),
{
    match (a, b) {
        (Some(x), Some(y)) => if x < y {
            -1
        } else if x > y {
            1
        } else {
            0
        },
        (Some(_), None) => -1,
        (None, Some(_)) => 1,
        (None, None) => 0,
    }
}

/// `tiebreak_order` of two entries.
pub fn tiebreak_order_of(a: &TiebreakEntry, b: &TiebreakEntry) -> (r: i8)
    ensures
        r as int == tiebreak_order(*a, *b),
{
    let g = option_order_exec64(a.first_seen, b.first_seen);
    if g != 0 {
        return g;
    }
    let m = option_order_exec128(a.mtime, b.mtime);
    if m != 0 {
        return m;
    }
    let x = crate::text::chars_of(a.name.as_str());
    let y = crate::text::chars_of(b.name.as_str());
    if crate::text::str_eq(a.name.as_str(), b.name.as_str()) {
        0
    } else if crate::order::lex_less(&x, &y) {
        -1
    } else {
        1
    }
}

/// Sort the files competing for a duplicate id so that the winner comes
/// first: earliest first-seen time, then earliest modification time, then
/// name.
pub fn sort_by_tiebreaker(entries: &mut Vec<TiebreakEntry>)
    ensures
        tiebreak_sorted(final(entries)@),
        final(entries)@.to_multiset() == old(entries)@.to_multiset(),
{
    broadcast use vstd::seq_lib::group_to_multiset_ensures;
    let ghost v0 = entries@;
    let mut src: Vec<TiebreakEntry> = Vec::new();
    std::mem::swap(&mut src, entries);
    assert(src@ == v0);
    let mut out: Vec<TiebreakEntry> = Vec::new();
    let n = src.len();
    let mut i: usize = 0;
    assert(v0.skip(0) =~= v0);
    while i < n
        invariant
            i <= n,
            n == v0.len(),
            src@ == v0.skip(i as int),
            tiebreak_sorted(out@),
            out@.to_multiset() == v0.take(i as int).to_multiset(),
        decreases n - i,
    {
        let x = src.remove(0);
        assert(x == v0[i as int]);
        assert(src@ =~= v0.skip(i + 1));
        let ghost t = out@;
        let mut p = out.len();
        while p > 0 && tiebreak_order_of(&x, &out[p - 1]) < 0
            invariant
                p <= out@.len(),
                out@ == t,
                forall|k: int| p <= k < t.len() ==> tiebreak_order(x, #[trigger] t[k]) < 0,
            decreases p,
        {
            p = p - 1;
        }
        out.insert(p, x);
        let ghost r = out@;
        assert(r =~= t.take(p as int) + seq![x] + t.skip(p as int));
        assert forall|a: int, b: int| 0 <= a < b < r.len() implies tiebreak_order(#[trigger] r[a], #[trigger] r[b]) <= 0 by {
            if b < p {
                assert(r[a] == t[a] && r[b] == t[b]);
            } else if b == p {
                assert(r[a] == t[a]);
                lemma_tiebreak_antisymmetric(x, t[p - 1]);
                if a < p - 1 {
                    lemma_tiebreak_transitive(t[a], t[p - 1], x);
                }
            } else if a < p {
                assert(r[a] == t[a] && r[b] == t[b - 1]);
                lemma_tiebreak_antisymmetric(x, t[p - 1]);
                if a < p - 1 {
                    lemma_tiebreak_transitive(t[a], t[p - 1], x);
                }
                lemma_tiebreak_transitive(t[a], x, t[b - 1]);
            } else if a == p {
                assert(r[b] == t[b - 1]);
            } else {
                assert(r[a] == t[a - 1] && r[b] == t[b - 1]);
            }
        }
        proof {
            assert(t =~= t.take(p as int) + t.skip(p as int));
            vstd::seq_lib::lemma_multiset_commutative(t.take(p as int), seq![x]);
            vstd::seq_lib::lemma_multiset_commutative(t.take(p as int) + seq![x], t.skip(p as int));
            vstd::seq_lib::lemma_multiset_commutative(t.take(p as int), t.skip(p as int));
            assert(v0.take(i + 1) =~= v0.take(i as int) + seq![x]);
            vstd::seq_lib::lemma_multiset_commutative(v0.take(i as int), seq![x]);
            let a = t.take(p as int);
            let b = t.skip(p as int);
            assert(r.to_multiset() =~= a.to_multiset().add(seq![x].to_multiset()).add(b.to_multiset()));
            assert(t.to_multiset() =~= a.to_multiset().add(b.to_multiset()));
            assert(r.to_multiset() =~= v0.take(i + 1).to_multiset());
        }
        i = i + 1;
    }
    assert(v0.take(n as int) =~= v0);
    *entries = out;
}

} // verus!

verus! {

/// The value of the decimal digits `d`.
pub open spec fn digits_value(d: Seq<char>) -> int
    decreases d.len(),
{
    if d.len() == 0 {
        0
    } else {
        digits_value(d.drop_last()) * 10 + (d.last() as int - 48)
    }
}

/// `str::parse::<i64>`: an optional `+` or `-`, then one or more ASCII
/// digits, whose value fits in an `i64`.
pub open spec fn spec_parse_i64(s: Seq<char>) -> Option<i64> {
    let signed = s.len() > 0 && (s[0] == '-' || s[0] == '+');
    let d = if signed {
        s.skip(1)
    } else {
        s
    };
    let v = if s.len() > 0 && s[0] == '-' {
        -digits_value(d)
    } else {
        digits_value(d)
    };
    if d.len() == 0 || !crate::filename::digits_in(d, 0, d.len() as int) {
        None
    } else if i64::MIN <= v <= i64::MAX {
        Some(v as i64)
    } else {
        None
    }
}

proof fn lemma_digits_prefix_le(d: Seq<char>, k: int)
    requires
        0 <= k <= d.len(),
        crate::filename::digits_in(d, 0, d.len() as int),
    ensures
        0 <= digits_value(d.take(k)) <= digits_value(d),
    decreases d.len() - k,
{
    if k < d.len() {
        lemma_digits_prefix_le(d, k + 1);
        assert(d.take(k + 1).drop_last() =~= d.take(k));
        assert(crate::text::is_digit(d[k]));
        lemma_digits_nonneg(d.take(k));
    } else {
        assert(d.take(k) =~= d);
        lemma_digits_nonneg(d);
    }
}

proof fn lemma_digits_nonneg(d: Seq<char>)
    requires
        crate::filename::digits_in(d, 0, d.len() as int),
    ensures
        digits_value(d) >= 0,
    decreases d.len(),
{
    if d.len() > 0 {
        assert(crate::text::is_digit(d[d.len() - 1]));
        lemma_digits_nonneg(d.drop_last());
    }
}

/// Parse a signed decimal `i64` as `str::parse::<i64>` does.
pub fn parse_i64(s: &str) -> (r: Option<i64>)
    ensures
        r == spec_parse_i64(s@),
{
    let v = crate::text::chars_of(s);
    let signed = v.len() > 0 && (v[0] == '-' || v[0] == '+');
    let neg = v.len() > 0 && v[0] == '-';
    let start: usize = if signed {
        1
    } else {
        0
    };
    let ghost d = v@.skip(start as int);
    assert(!signed ==> d =~= v@);
    if start == v.len() {
        return None;
    }
    let mut acc: u128 = 0;
    let mut i = start;
    assert(d.take(0) =~= Seq::<char>::empty());
    while i < v.len()
        invariant
            start <= i <= v.len(),
            start < v.len(),
            v@ == s@,
            signed == (v@.len() > 0 && (v@[0] == '-' || v@[0] == '+')),
            neg == (v@.len() > 0 && v@[0] == '-'),
            start == (if signed { 1usize } else { 0usize }),
            d == v@.skip(start as int),
            d == (if signed { v@.skip(1) } else { v@ }),
            crate::filename::digits_in(d, 0, i - start),
            acc == digits_value(d.take(i - start)),
            acc <= 9223372036854775808,
        decreases v.len() - i,
    {
        let c = v[i];
        assert(d[i - start] == c);
        if !('0' <= c && c <= '9') {
            assert(!crate::filename::digits_in(d, 0, d.len() as int));
            return None;
        }
        assert(d.take(i + 1 - start).drop_last() =~= d.take(i - start));
        acc = acc * 10 + (c as u128 - 48);
        i = i + 1;
        if acc > 9223372036854775808 {
            proof {
                if crate::filename::digits_in(d, 0, d.len() as int) {
                    lemma_digits_prefix_le(d, i - start);
                }
            }
            return None;
        }
    }
    assert(d.take(i - start) =~= d);
    if neg {
        Some((0 - (acc as i128)) as i64)
    } else if acc <= 9223372036854775807 {
        Some(acc as i64)
    } else {
        None
    }
}

/// When a file first appeared, from the output of
/// `git log --follow --diff-filter=A --format=%at`: the last line (the
/// oldest entry), trimmed, read as Unix seconds.
pub open spec fn spec_first_seen(output: Seq<char>) -> Option<i64> {
    match crate::date::spec_last_line(output) {
        Some(l) => spec_parse_i64(crate::text::trim(l)),
        None => None,
    }
}

/// The first-appearance time in the output of a history query, or `None`
/// when the output is blank or its last line is not a number.
pub fn first_seen_from_log(output: &str) -> (r: Option<i64>)
    ensures
        r == spec_first_seen(output@),
{
    match crate::date::last_line(output) {
        None => None,
        Some(l) => {
            let v = crate::text::chars_of(l.as_str());
            let (a, b) = crate::text::trim_bounds(&v, 0, v.len());
            let t = crate::text::string_of_range(&v, a, b);
            parse_i64(t.as_str())
        },
    }
}

} // verus!
