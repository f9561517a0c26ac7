//! Lexicographic order on strings (by character code, which for UTF-8 is the
//! byte order `String`'s `Ord` uses) and sorting by it.
use vstd::prelude::*;

verus! {

/// `a` comes strictly before `b` in lexicographic order of character codes.
pub open spec fn lex_lt(a: Seq<char>, b: Seq<char>) -> bool
    decreases a.len(),
{
    if b.len() == 0 {
        false
    } else if a.len() == 0 {
        true
    } else if a[0] != b[0] {
        a[0] < b[0]
    } else {
        lex_lt(a.drop_first(), b.drop_first())
    }
}

/// `a` comes at or before `b`.
pub open spec fn lex_le(a: Seq<char>, b: Seq<char>) -> bool {
    a == b || lex_lt(a, b)
}

/// `s` is in non-decreasing lexicographic order.
pub open spec fn sorted_lex(s: Seq<Seq<char>>) -> bool {
    forall|i: int, j: int| 0 <= i < j < s.len() ==> lex_le(#[trigger] s[i], #[trigger] s[j])
}

pub proof fn lemma_lex_irreflexive(a: Seq<char>)
    ensures
        !lex_lt(a, a),
    decreases a.len(),
{
    if a.len() > 0 {
        lemma_lex_irreflexive(a.drop_first());
    }
}

pub proof fn lemma_lex_total(a: Seq<char>, b: Seq<char>)
    ensures
        a == b || lex_lt(a, b) || lex_lt(b, a),
    decreases a.len(),
{
    if a.len() > 0 && b.len() > 0 && a[0] == b[0] {
        lemma_lex_total(a.drop_first(), b.drop_first());
        if a.drop_first() == b.drop_first() {
            assert(a =~= seq![a[0]] + a.drop_first());
            assert(b =~= seq![b[0]] + b.drop_first());
        }
    }
    if a.len() == 0 && b.len() == 0 {
        assert(a =~= b);
    }
}

pub proof fn lemma_lex_asymmetric(a: Seq<char>, b: Seq<char>)
    ensures
        !(lex_lt(a, b) && lex_lt(b, a)),
    decreases a.len(),
{
    if a.len() > 0 && b.len() > 0 && a[0] == b[0] {
        lemma_lex_asymmetric(a.drop_first(), b.drop_first());
    }
}

pub proof fn lemma_lex_transitive(a: Seq<char>, b: Seq<char>, c: Seq<char>)
    requires
        lex_lt(a, b),
        lex_lt(b, c),
    ensures
        lex_lt(a, c),
    decreases a.len(),
{
    if a.len() > 0 && b.len() > 0 && c.len() > 0 && a[0] == b[0] && b[0] == c[0] {
        lemma_lex_transitive(a.drop_first(), b.drop_first(), c.drop_first());
    }
}

pub proof fn lemma_lex_le_transitive(a: Seq<char>, b: Seq<char>, c: Seq<char>)
    requires
        lex_le(a, b),
        lex_le(b, c),
    ensures
        lex_le(a, c),
{
    if lex_lt(a, b) && lex_lt(b, c) {
        lemma_lex_transitive(a, b, c);
    }
}

/// `lex_lt` on character vectors.
pub(crate) fn lex_less(a: &Vec<char>, b: &Vec<char>) -> (r: bool)
    ensures
        r == lex_lt(a@, b@),
{
    let mut i: usize = 0;
    assert(a@.skip(0) =~= a@);
    assert(b@.skip(0) =~= b@);
    while i < a.len() && i < b.len() && a[i] == b[i]
        invariant
            i <= a.len(),
            i <= b.len(),
            lex_lt(a@, b@) == lex_lt(a@.skip(i as int), b@.skip(i as int)),
        decreases a.len() - i,
    {
        assert(a@.skip(i as int).drop_first() =~= a@.skip(i + 1));
        assert(b@.skip(i as int).drop_first() =~= b@.skip(i + 1));
        i = i + 1;
    }
    if i == b.len() {
        return false;
    }
    if i == a.len() {
        return true;
    }
    a[i] < b[i]
}

/// Where `x` goes in the sorted `t` so that it follows every entry at or before it.
pub open spec fn insert_pos(t: Seq<Seq<char>>, x: Seq<char>) -> int
    decreases t.len(),
{
    if t.len() == 0 {
        0
    } else if lex_lt(x, t.last()) {
        insert_pos(t.drop_last(), x)
    } else {
        t.len() as int
    }
}

/// `s` sorted lexicographically by insertion, equal entries kept in order.
pub open spec fn sort_lex(s: Seq<Seq<char>>) -> Seq<Seq<char>>
    decreases s.len(),
{
    if s.len() == 0 {
        seq![]
    } else {
        let t = sort_lex(s.drop_last());
        let p = insert_pos(t, s.last());
        t.take(p) + seq![s.last()] + t.skip(p)
    }
}

proof fn lemma_insert_pos(t: Seq<Seq<char>>, x: Seq<char>)
    requires
        sorted_lex(t),
    ensures
        0 <= insert_pos(t, x) <= t.len(),
        forall|i: int| 0 <= i < insert_pos(t, x) ==> lex_le(#[trigger] t[i], x),
        forall|i: int| insert_pos(t, x) <= i < t.len() ==> lex_lt(x, #[trigger] t[i]),
    decreases t.len(),
{
    if t.len() > 0 {
        let u = t.drop_last();
        assert(sorted_lex(u)) by {
            assert forall|i: int, j: int| 0 <= i < j < u.len() implies lex_le(#[trigger] u[i], #[trigger] u[j]) by {
                assert(u[i] == t[i] && u[j] == t[j]);
            }
        }
        lemma_insert_pos(u, x);
        if lex_lt(x, t.last()) {
            assert forall|i: int| 0 <= i < insert_pos(t, x) implies lex_le(#[trigger] t[i], x) by {
                assert(t[i] == u[i]);
            }
            assert forall|i: int| insert_pos(t, x) <= i < t.len() implies lex_lt(x, #[trigger] t[i]) by {
                if i < t.len() - 1 {
                    assert(t[i] == u[i]);
                }
            }
        } else {
            assert forall|i: int| 0 <= i < insert_pos(t, x) implies lex_le(#[trigger] t[i], x) by {
                lemma_lex_total(x, t.last());
                if i < t.len() - 1 {
                    assert(lex_le(t[i], t.last()));
                    lemma_lex_le_transitive(t[i], t.last(), x);
                }
            }
        }
    }
}

/// Sorting by insertion gives a sorted permutation of the input.
pub proof fn lemma_sort_lex(s: Seq<Seq<char>>)
    ensures
        sorted_lex(sort_lex(s)),
        sort_lex(s).to_multiset() =~= s.to_multiset(),
        sort_lex(s).len() == s.len(),
    decreases s.len(),
{
    broadcast use vstd::seq_lib::group_to_multiset_ensures;
    if s.len() > 0 {
        let t = sort_lex(s.drop_last());
        lemma_sort_lex(s.drop_last());
        let x = s.last();
        lemma_insert_pos(t, x);
        let p = insert_pos(t, x);
        let r = t.take(p) + seq![x] + t.skip(p);
        assert(r.len() == s.len());
        assert forall|i: int, j: int| 0 <= i < j < r.len() implies lex_le(#[trigger] r[i], #[trigger] r[j]) by {
            if j < p {
                assert(r[i] == t[i] && r[j] == t[j]);
            } else if j == p {
                assert(r[i] == t[i]);
            } else if i < p {
                assert(r[i] == t[i] && r[j] == t[j - 1]);
                assert(lex_le(t[i], x));
                lemma_lex_le_transitive(t[i], x, t[j - 1]);
            } else if i == p {
                assert(r[j] == t[j - 1]);
            } else {
                assert(r[i] == t[i - 1] && r[j] == t[j - 1]);
            }
        }
        assert(t =~= t.take(p) + t.skip(p));
        vstd::seq_lib::lemma_multiset_commutative(t.take(p), seq![x]);
        vstd::seq_lib::lemma_multiset_commutative(t.take(p) + seq![x], t.skip(p));
        vstd::seq_lib::lemma_multiset_commutative(t.take(p), t.skip(p));
        vstd::seq_lib::lemma_multiset_commutative(s.drop_last(), seq![x]);
        assert(s =~= s.drop_last() + seq![x]);
    }
}

/// Sorts `v` lexicographically by its strings' characters, equal strings kept in order.
pub fn sort_strings(v: Vec<String>) -> (r: Vec<String>)
    ensures
        crate::text::views(r@) == sort_lex(crate::text::views(v@)),
{
    let mut out: Vec<String> = Vec::new();
    let mut keys: Vec<Vec<char>> = Vec::new();
    let ghost vs = crate::text::views(v@);
    let mut i: usize = 0;
    while i < v.len()
        invariant
            i <= v.len(),
            vs == crate::text::views(v@),
            crate::text::views(out@) == sort_lex(vs.take(i as int)),
            keys@.len() == out@.len(),
            forall|j: int| 0 <= j < keys@.len() ==> #[trigger] keys@[j]@ == out@[j]@,
        decreases v.len() - i,
    {
        let x = v[i].clone();
        let kx = crate::text::chars_of(x.as_str());
        let ghost t = crate::text::views(out@);
        assert(vs.take(i + 1).drop_last() =~= vs.take(i as int));
        assert(vs.take(i + 1).last() == x@);
        let mut p = out.len();
        assert(t.take(p as int) =~= t);
        while p > 0 && lex_less(&kx, &keys[p - 1])
            invariant
                p <= out@.len(),
                t == crate::text::views(out@),
                keys@.len() == out@.len(),
                forall|j: int| 0 <= j < keys@.len() ==> #[trigger] keys@[j]@ == out@[j]@,
                kx@ == x@,
                insert_pos(t, x@) == insert_pos(t.take(p as int), x@),
            decreases p,
        {
            assert(t.take(p as int).last() == keys@[p - 1]@);
            assert(t.take(p as int).drop_last() =~= t.take(p - 1));
            p = p - 1;
        }
        proof {
            if p > 0 {
                assert(t.take(p as int).last() == keys@[p - 1]@);
            }
            assert(t.take(0) =~= Seq::<Seq<char>>::empty());
        }
        out.insert(p, x);
        keys.insert(p, kx);
        assert(crate::text::views(out@) =~= t.take(p as int) + seq![x@] + t.skip(p as int));
        assert forall|j: int| 0 <= j < keys@.len() implies #[trigger] keys@[j]@ == out@[j]@ by {
            if j < p {
            } else if j == p {
            } else {
            }
        }
        i = i + 1;
    }
    assert(vs.take(v.len() as int) =~= vs);
    out
}

} // verus!

verus! {

/// The names `pick` takes out of the items of `s`, in order.
pub open spec fn picked<A>(s: Seq<A>, pick: spec_fn(A) -> Option<Seq<char>>) -> Seq<Seq<char>>
    decreases s.len(),
{
    if s.len() == 0 {
        seq![]
    } else {
        let rest = picked(s.drop_last(), pick);
        match pick(s.last()) {
            Some(n) => rest.push(n),
            None => rest,
        }
    }
}

proof fn lemma_picked_append<A>(u: Seq<A>, v: Seq<A>, pick: spec_fn(A) -> Option<Seq<char>>)
    ensures
        picked(u + v, pick) == picked(u, pick) + picked(v, pick),
    decreases v.len(),
{
    if v.len() == 0 {
        assert(u + v =~= u);
        assert(picked(u, pick) + picked(v, pick) =~= picked(u, pick));
    } else {
        lemma_picked_append(u, v.drop_last(), pick);
        assert((u + v).drop_last() =~= u + v.drop_last());
        assert((u + v).last() == v.last());
        match pick(v.last()) {
            Some(n) => {
                assert(picked(u, pick) + picked(v.drop_last(), pick).push(n) =~= (picked(u, pick)
                    + picked(v.drop_last(), pick)).push(n));
            },
            None => {},
        }
    }
}

/// Reordering the items reorders what is picked out of them.
pub proof fn lemma_picked_permutation<A>(a: Seq<A>, b: Seq<A>, pick: spec_fn(A) -> Option<Seq<char>>)
    requires
        a.to_multiset() == b.to_multiset(),
    ensures
        picked(a, pick).to_multiset() == picked(b, pick).to_multiset(),
    decreases a.len(),
{
    broadcast use vstd::seq_lib::group_to_multiset_ensures;
    broadcast use vstd::multiset::group_multiset_axioms;

    if a.len() == 0 {
        assert(a.to_multiset().len() == 0);
        assert(b.to_multiset().len() == b.len());
        assert(b =~= a);
    } else {
        let x = a.last();
        let t = a.drop_last();
        assert(a =~= t.push(x));
        assert(b.to_multiset().count(x) > 0);
        assert(b.contains(x));
        let j = choose|j: int| 0 <= j < b.len() && b[j] == x;
        let t2 = b.remove(j);
        assert(t2.to_multiset() =~= b.to_multiset().remove(x));
        assert(t.to_multiset() =~= a.to_multiset().remove(x));
        lemma_picked_permutation(t, t2, pick);
        let b1 = b.take(j);
        let b2 = b.skip(j + 1);
        assert(b =~= b1 + seq![x] + b2);
        assert(t2 =~= b1 + b2);
        lemma_picked_append(b1 + seq![x], b2, pick);
        lemma_picked_append(b1, seq![x], pick);
        lemma_picked_append(b1, b2, pick);
        let pb1 = picked(b1, pick);
        let pb2 = picked(b2, pick);
        let px = picked(seq![x], pick);
        assert(seq![x].drop_last() =~= Seq::<A>::empty());
        assert(seq![x].last() == x);
        assert(picked(Seq::<A>::empty(), pick) =~= Seq::<Seq<char>>::empty());
        assert(picked(seq![x], pick) == match pick(x) {
            Some(n) => picked(Seq::<A>::empty(), pick).push(n),
            None => picked(Seq::<A>::empty(), pick),
        });
        vstd::seq_lib::lemma_multiset_commutative(pb1 + px, pb2);
        vstd::seq_lib::lemma_multiset_commutative(pb1, px);
        vstd::seq_lib::lemma_multiset_commutative(pb1, pb2);
        vstd::seq_lib::lemma_multiset_commutative(picked(t, pick), px);
        match pick(x) {
            Some(n) => {
                assert(px =~= seq![n]);
                assert(picked(a, pick) =~= picked(t, pick) + px);
            },
            None => {
                assert(px =~= Seq::<Seq<char>>::empty());
                assert(picked(a, pick) =~= picked(t, pick) + px);
            },
        }
        assert(picked(b, pick) == pb1 + px + pb2);
        assert(picked(b, pick).to_multiset() =~= pb1.to_multiset().add(px.to_multiset()).add(
            pb2.to_multiset(),
        ));
        assert(picked(t2, pick).to_multiset() =~= pb1.to_multiset().add(pb2.to_multiset()));
    }
}

proof fn lemma_lex_le_total_ordering()
    ensures
        vstd::relations::total_ordering(|x: Seq<char>, y: Seq<char>| lex_le(x, y)),
{
    let leq = |x: Seq<char>, y: Seq<char>| lex_le(x, y);
    assert forall|x: Seq<char>, y: Seq<char>| #[trigger] leq(x, y) && #[trigger] leq(y, x) implies x == y by {
        lemma_lex_asymmetric(x, y);
    }
    assert forall|x: Seq<char>, y: Seq<char>, z: Seq<char>| #[trigger] leq(x, y) && #[trigger] leq(y, z) implies leq(x, z) by {
        lemma_lex_le_transitive(x, y, z);
    }
    assert forall|x: Seq<char>, y: Seq<char>| #[trigger] leq(x, y) || #[trigger] leq(y, x) by {
        lemma_lex_total(x, y);
    }
}

/// Sorting forgets the order of the input: two orderings of the same
/// strings sort to the same sequence.
pub proof fn lemma_sort_lex_permutation(a: Seq<Seq<char>>, b: Seq<Seq<char>>)
    requires
        a.to_multiset() == b.to_multiset(),
    ensures
        sort_lex(a) == sort_lex(b),
{
    lemma_sort_lex(a);
    lemma_sort_lex(b);
    lemma_lex_le_total_ordering();
    let leq = |x: Seq<char>, y: Seq<char>| lex_le(x, y);
    assert(vstd::relations::sorted_by(sort_lex(a), leq));
    assert(vstd::relations::sorted_by(sort_lex(b), leq));
    vstd::seq_lib::lemma_sorted_unique(sort_lex(a), sort_lex(b), leq);
}

} // verus!
