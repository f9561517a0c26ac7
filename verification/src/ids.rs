//! Task ids: `DDNNN` (two-digit prefix, three-digit sequence), with the legacy
//! forms `AANNN` and `NNNN` still recognised.
use sha2::Digest;
use vstd::prelude::*;

verus! {

/// Maximum sequence number that fits in the three-digit `NNN` suffix.
pub const MAX_SEQ: u32 = 999;

/// `b` is the byte of an ASCII decimal digit.
pub open spec fn is_digit_byte(b: u8) -> bool {
    48 <= b && b <= 57
}

/// All of `b` are ASCII digit bytes.
pub open spec fn all_digit_bytes(b: Seq<u8>) -> bool {
    forall|i: int| 0 <= i < b.len() ==> is_digit_byte(#[trigger] b[i])
}

/// The legacy four-digit id form, on the id's bytes.
pub open spec fn spec_is_legacy_id(b: Seq<u8>) -> bool {
    b.len() == 4 && all_digit_bytes(b)
}

/// An id needs migration when it is legacy `NNNN`, or five or more bytes
/// long with a first two bytes that are not both digits (old `AANNN`).
pub open spec fn spec_needs_migration(b: Seq<u8>) -> bool {
    if spec_is_legacy_id(b) {
        true
    } else if b.len() >= 5 {
        !(is_digit_byte(b[0]) && is_digit_byte(b[1]))
    } else {
        false
    }
}

/// The id can be split after its first two bytes without cutting a character
/// (the prefix/sequence split is taken there whenever the id has five or more bytes).
pub open spec fn id_splits(b: Seq<u8>) -> bool {
    b.len() >= 5 ==> vstd::utf8::is_char_boundary(b, 2)
}

/// The number written in decimal by the digit bytes `d`.
pub open spec fn decimal_value(d: Seq<u8>) -> nat
    decreases d.len(),
{
    if d.len() == 0 {
        0
    } else {
        decimal_value(d.drop_last()) * 10 + (d.last() - 48) as nat
    }
}

/// `u32`'s parse of a string's bytes: an optional `+`, then one or more ASCII
/// digits whose value fits in 32 bits.
pub open spec fn spec_parse_u32(b: Seq<u8>) -> Option<u32> {
    let d = if b.len() > 0 && b[0] == 43 { b.drop_first() } else { b };
    if d.len() > 0 && all_digit_bytes(d) && decimal_value(d) <= u32::MAX {
        Some(decimal_value(d) as u32)
    } else {
        None
    }
}

/// The prefix part of an id (its bytes): the first two bytes of a five-or-more
/// byte id, empty otherwise.
pub open spec fn spec_id_prefix(b: Seq<u8>) -> Seq<u8> {
    if !spec_is_legacy_id(b) && b.len() >= 5 {
        b.take(2)
    } else {
        seq![]
    }
}

/// The sequence part of an id: the whole legacy id's value, or the value of
/// what follows the two-byte prefix; 0 when that does not parse.
pub open spec fn spec_id_seq(b: Seq<u8>) -> u32 {
    if spec_is_legacy_id(b) {
        match spec_parse_u32(b) {
            Some(v) => v,
            None => 0,
        }
    } else if b.len() >= 5 {
        match spec_parse_u32(b.skip(2)) {
            Some(v) => v,
            None => 0,
        }
    } else {
        0
    }
}

fn digit_byte(b: u8) -> (r: bool)
    ensures
        r == is_digit_byte(b),
{
    48 <= b && b <= 57
}

/// True if the task id uses the legacy four-digit numeric format (e.g. `0042`).
pub fn is_legacy_id(task_id: &str) -> (r: bool)
    ensures
        r == spec_is_legacy_id(vstd::utf8::encode_utf8(task_id@)),
{
    let b = task_id.as_bytes();
    if b.len() != 4 {
        return false;
    }
    let mut i: usize = 0;
    while i < 4
        invariant
            b@ == vstd::utf8::encode_utf8(task_id@),
            b@.len() == 4,
            i <= 4,
            forall|j: int| 0 <= j < i ==> is_digit_byte(b@[j]),
        decreases 4 - i,
    {
        if !digit_byte(b[i]) {
            return false;
        }
        i = i + 1;
    }
    true
}

/// True if a task id needs migration to the current numeric format: legacy
/// `NNNN` or old alpha-prefix `AANNN`. A five-digit numeric id is never
/// migrated, whatever its prefix: the prefix records where the task was created.
pub fn needs_migration(task_id: &str, _expected_prefix: &str) -> (r: bool)
    requires
        id_splits(vstd::utf8::encode_utf8(task_id@)),
    ensures
        r == spec_needs_migration(vstd::utf8::encode_utf8(task_id@)),
{
    if is_legacy_id(task_id) {
        return true;
    }
    let b = task_id.as_bytes();
    if b.len() >= 5 {
        return !(digit_byte(b[0]) && digit_byte(b[1]));
    }
    false
}

/// `u32::from_str` on `b[lo..]`, written out: an optional `+`, then decimal digits.
fn parse_u32_from(b: &[u8], lo: usize) -> (r: Option<u32>)
    requires
        lo <= b@.len(),
    ensures
        r == spec_parse_u32(b@.skip(lo as int)),
{
    let ghost s = b@.skip(lo as int);
    let mut i = lo;
    if i < b.len() && b[i] == 43 {
        i = i + 1;
    }
    let ghost d = if s.len() > 0 && s[0] == 43 { s.drop_first() } else { s };
    assert(d =~= b@.skip(i as int));
    if i == b.len() {
        return None;
    }
    let start = i;
    let mut acc: u32 = 0;
    while i < b.len()
        invariant
            lo <= start <= i <= b@.len(),
            d == b@.skip(start as int),
            s == b@.skip(lo as int),
            d == (if s.len() > 0 && s[0] == 43 { s.drop_first() } else { s }),
            all_digit_bytes(b@.subrange(start as int, i as int)),
            acc == decimal_value(b@.subrange(start as int, i as int)),
        decreases b.len() - i,
    {
        let c = b[i];
        let ghost pre = b@.subrange(start as int, i as int);
        let ghost next = b@.subrange(start as int, i + 1);
        assert(next.drop_last() =~= pre);
        if !digit_byte(c) {
            assert(d[i - start] == c);
            assert(!all_digit_bytes(d));
            return None;
        }
        let v = (c - 48) as u32;
        if acc > 429496729 || (acc == 429496729 && v > 5) {
            // the value already exceeds u32::MAX, and further digits only grow it
            proof {
                assert(decimal_value(next) > u32::MAX);
                if all_digit_bytes(d) {
                    lemma_decimal_prefix_le(d, i + 1 - start);
                    assert(d.take(i + 1 - start) =~= next);
                }
            }
            return None;
        }
        acc = acc * 10 + v;
        i = i + 1;
    }
    assert(b@.subrange(start as int, i as int) =~= d);
    Some(acc)
}

proof fn lemma_decimal_prefix_le(d: Seq<u8>, k: int)
    requires
        0 <= k <= d.len(),
        all_digit_bytes(d),
    ensures
        decimal_value(d.take(k)) <= decimal_value(d),
    decreases d.len() - k,
{
    if k < d.len() {
        lemma_decimal_prefix_le(d, k + 1);
        assert(d.take(k + 1).drop_last() =~= d.take(k));
        assert(is_digit_byte(d[k]));
    } else {
        assert(d.take(k) =~= d);
    }
}

/// Decompose a task id into (prefix, sequence number).
///
/// New format `34042` gives (`34`, 42). Old alpha `AB042` gives (`AB`, 42).
/// Legacy `0042` gives (empty, 42). A sequence that does not parse is 0.
pub fn parse_id_parts(task_id: &str) -> (r: (String, u32))
    requires
        id_splits(vstd::utf8::encode_utf8(task_id@)),
    ensures
        vstd::utf8::encode_utf8(r.0@) == spec_id_prefix(vstd::utf8::encode_utf8(task_id@)),
        r.1 == spec_id_seq(vstd::utf8::encode_utf8(task_id@)),
{
    let b = task_id.as_bytes();
    if is_legacy_id(task_id) {
        let v = parse_u32_from(b, 0);
        assert(b@.skip(0) =~= b@);
        let n = match v {
            Some(n) => n,
            None => 0,
        };
        let e = String::new();
        assert(vstd::utf8::encode_utf8(e@) =~= Seq::<u8>::empty());
        (e, n)
    } else if b.len() >= 5 {
        proof {
            vstd::utf8::encode_utf8_valid_utf8(task_id@);
        }
        let (head, _tail) = task_id.split_at(2);
        let v = parse_u32_from(b, 2);
        let n = match v {
            Some(n) => n,
            None => 0,
        };
        let p = head.to_owned();
        assert(vstd::utf8::encode_utf8(p@) =~= b@.take(2));
        (p, n)
    } else {
        let e = String::new();
        assert(vstd::utf8::encode_utf8(e@) =~= Seq::<u8>::empty());
        (e, 0)
    }
}

} // verus!

verus! {

/// The prefix of the id `id` as `parse_id_parts` reports it, in characters.
pub open spec fn id_prefix_of(id: Seq<char>) -> Seq<char> {
    vstd::utf8::decode_utf8(spec_id_prefix(vstd::utf8::encode_utf8(id)))
}

/// The sequence number of the id `id` as `parse_id_parts` reports it.
pub open spec fn id_seq_of(id: Seq<char>) -> u32 {
    spec_id_seq(vstd::utf8::encode_utf8(id))
}

/// The sequence number a filename holds under `prefix`: `Some` when the name
/// parses as a task filename whose id has exactly that prefix.
pub open spec fn name_seq_in(name: Seq<char>, prefix: Seq<char>) -> Option<u32> {
    match crate::filename::spec_parse_filename(name) {
        Some(f) => if id_prefix_of(f.0) == prefix {
            Some(id_seq_of(f.0))
        } else {
            None
        },
        None => None,
    }
}

/// The sequence numbers used under `prefix` by `names`, in the order of the names.
pub open spec fn seqs_of(names: Seq<Seq<char>>, prefix: Seq<char>) -> Seq<u32>
    decreases names.len(),
{
    if names.len() == 0 {
        seq![]
    } else {
        let rest = seqs_of(names.drop_last(), prefix);
        match name_seq_in(names.last(), prefix) {
            Some(s) => rest.push(s),
            None => rest,
        }
    }
}

/// The largest of `s`, 0 for none.
pub open spec fn seq_max(s: Seq<u32>) -> u32
    decreases s.len(),
{
    if s.len() == 0 {
        0
    } else {
        let m = seq_max(s.drop_last());
        if s.last() > m {
            s.last()
        } else {
            m
        }
    }
}

/// Some name in `names` uses sequence number `s` under `prefix`.
pub open spec fn seq_used(names: Seq<Seq<char>>, prefix: Seq<char>, s: u32) -> bool {
    seqs_of(names, prefix).contains(s)
}

/// Every sequence number 1..=999 of bucket `q` is used.
pub open spec fn bucket_full(names: Seq<Seq<char>>, q: int) -> bool {
    forall|s: u32| 1 <= s <= MAX_SEQ ==> #[trigger] seq_used(names, crate::text::two_digits(q), s)
}

/// No id can be allocated: the local bucket `p` has reached 999 and every
/// other bucket is full.
pub open spec fn spec_ids_exhausted(p: int, names: Seq<Seq<char>>) -> bool {
    &&& seq_max(seqs_of(names, crate::text::two_digits(p))) >= MAX_SEQ
    &&& forall|o: int| 1 <= o < 100 ==> #[trigger] bucket_full(names, (p + o) % 100)
}

/// The id allocated in bucket `p` given the filenames `names`: the local
/// bucket's highest sequence plus one when that fits in three digits;
/// otherwise the first bucket after `p` (wrapping at 100) with a free
/// sequence number, and the smallest free number in it.
pub open spec fn spec_is_next_id(p: int, names: Seq<Seq<char>>, r: Seq<char>) -> bool {
    let m = seq_max(seqs_of(names, crate::text::two_digits(p)));
    if m < MAX_SEQ {
        r == crate::text::two_digits(p) + crate::text::three_digits(m + 1)
    } else {
        exists|o: int, s: u32|
            #![trigger crate::text::two_digits((p + o) % 100), crate::text::three_digits(s as int)]
            {
                &&& 1 <= o < 100
                &&& 1 <= s <= MAX_SEQ
                &&& r == crate::text::two_digits((p + o) % 100) + crate::text::three_digits(s as int)
                &&& !seq_used(names, crate::text::two_digits((p + o) % 100), s)
                &&& forall|o2: int| 1 <= o2 < o ==> #[trigger] bucket_full(names, (p + o2) % 100)
                &&& forall|s2: u32| 1 <= s2 < s ==> #[trigger] seq_used(names, crate::text::two_digits((p + o) % 100), s2)
            }
    }
}

/// A valid id splits after its second character.
pub(crate) proof fn lemma_valid_id_splits(id: Seq<char>)
    requires
        crate::filename::is_valid_id(id),
    ensures
        id_splits(vstd::utf8::encode_utf8(id)),
{
    let b = vstd::utf8::encode_utf8(id);
    assert(vstd::utf8::is_ascii_chars(id));
    vstd::utf8::is_ascii_chars_encode_utf8(id);
    vstd::utf8::encode_utf8_valid_utf8(id);
    if b.len() >= 5 {
        assert(id[2] as u8 == b[2]);
        assert(crate::text::is_digit(id[2]));
        vstd::utf8::is_char_boundary_iff_not_is_continuation_byte(b, 2);
    }
}

/// The sequence numbers used under `prefix` by the filenames `names`.
pub fn used_sequences(names: &Vec<String>, prefix: &str) -> (r: Vec<u32>)
    ensures
        r@ == seqs_of(crate::text::views(names@), prefix@),
{
    let mut r: Vec<u32> = Vec::new();
    let mut i: usize = 0;
    while i < names.len()
        invariant
            i <= names.len(),
            r@ == seqs_of(crate::text::views(names@).take(i as int), prefix@),
        decreases names.len() - i,
    {
        let ghost vs = crate::text::views(names@);
        assert(vs.take(i + 1).drop_last() =~= vs.take(i as int));
        assert(vs.take(i + 1).last() == names@[i as int]@);
        if let Some(parsed) = crate::filename::parse_filename(names[i].as_str()) {
            proof {
                crate::filename::lemma_format_parse_roundtrip(names@[i as int]@);
                lemma_valid_id_splits(parsed.id@);
            }
            let (pfx, seq) = parse_id_parts(parsed.id.as_str());
            proof {
                vstd::utf8::encode_utf8_decode_utf8(pfx@);
            }
            if crate::text::str_eq(pfx.as_str(), prefix) {
                r.push(seq);
            }
        }
        i = i + 1;
    }
    assert(crate::text::views(names@).take(names.len() as int) =~= crate::text::views(names@));
    r
}

/// The sequence numbers of the entries of `pairs` whose bucket is `q`, in order.
pub open spec fn bucket_seqs(pairs: Seq<(u32, u32)>, q: int) -> Seq<u32>
    decreases pairs.len(),
{
    if pairs.len() == 0 {
        seq![]
    } else {
        let rest = bucket_seqs(pairs.drop_last(), q);
        if pairs.last().0 == q {
            rest.push(pairs.last().1)
        } else {
            rest
        }
    }
}

proof fn lemma_two_digits_injective(a: int, b: int)
    requires
        0 <= a < 100,
        0 <= b < 100,
        crate::text::two_digits(a) == crate::text::two_digits(b),
    ensures
        a == b,
{
    assert(crate::text::two_digits(a)[0] == crate::text::two_digits(b)[0]);
    assert(crate::text::two_digits(a)[1] == crate::text::two_digits(b)[1]);
    assert(((a / 10 + 48) as char) as int == a / 10 + 48);
    assert(((b / 10 + 48) as char) as int == b / 10 + 48);
    assert(((a % 10 + 48) as char) as int == a % 10 + 48);
    assert(((b % 10 + 48) as char) as int == b % 10 + 48);
}

fn digit_value(c: char) -> (r: Option<u32>)
    ensures
        match r {
            Some(d) => d < 10 && crate::text::digit_char(d as int) == c,
            None => forall|d: int| 0 <= d < 10 ==> #[trigger] crate::text::digit_char(d) != c,
        },
{
    let mut d: u32 = 0;
    while d < 10
        invariant
            d <= 10,
            forall|e: int| 0 <= e < d ==> #[trigger] crate::text::digit_char(e) != c,
        decreases 10 - d,
    {
        if crate::text::digit(d) == c {
            return Some(d);
        }
        d = d + 1;
    }
    None
}

fn two_digit_value(pfx: &str) -> (r: Option<u32>)
    ensures
        match r {
            Some(v) => v < 100 && crate::text::two_digits(v as int) == pfx@,
            None => forall|q: int| 0 <= q < 100 ==> #[trigger] crate::text::two_digits(q) != pfx@,
        },
{
    let v = crate::text::chars_of(pfx);
    if v.len() != 2 {
        assert forall|q: int| 0 <= q < 100 implies #[trigger] crate::text::two_digits(q) != pfx@ by {
            assert(crate::text::two_digits(q).len() == 2);
        }
        return None;
    }
    match (digit_value(v[0]), digit_value(v[1])) {
        (Some(a), Some(b)) => {
            let x = a * 10 + b;
            assert(x / 10 == a && x % 10 == b);
            assert(crate::text::two_digits(x as int) =~= pfx@);
            Some(x)
        },
        _ => {
            assert forall|q: int| 0 <= q < 100 implies #[trigger] crate::text::two_digits(q) != pfx@ by {
                let t = crate::text::two_digits(q);
                assert(0 <= q / 10 < 10 && 0 <= q % 10 < 10);
                if t == pfx@ {
                    assert(t[0] == crate::text::digit_char(q / 10));
                    assert(t[1] == crate::text::digit_char(q % 10));
                }
            }
            None
        },
    }
}

/// The (bucket, sequence) pairs of the filenames `names` whose id has a
/// two-digit numeric prefix, in order: for every bucket, the same sequence
/// numbers `seqs_of` lists.
fn numeric_pairs(names: &Vec<String>) -> (r: Vec<(u32, u32)>)
    ensures
        forall|q: int|
            0 <= q < 100 ==> #[trigger] seqs_of(crate::text::views(names@), crate::text::two_digits(q))
                == bucket_seqs(r@, q),
{
    let ghost vs = crate::text::views(names@);
    let mut r: Vec<(u32, u32)> = Vec::new();
    let mut i: usize = 0;
    while i < names.len()
        invariant
            i <= names.len(),
            vs == crate::text::views(names@),
            forall|q: int|
                0 <= q < 100 ==> #[trigger] seqs_of(vs.take(i as int), crate::text::two_digits(q))
                    == bucket_seqs(r@, q),
        decreases names.len() - i,
    {
        assert(vs.take(i + 1).drop_last() =~= vs.take(i as int));
        assert(vs.take(i + 1).last() == names@[i as int]@);
        if let Some(parsed) = crate::filename::parse_filename(names[i].as_str()) {
            proof {
                crate::filename::lemma_format_parse_roundtrip(names@[i as int]@);
                lemma_valid_id_splits(parsed.id@);
            }
            let (pfx, seq) = parse_id_parts(parsed.id.as_str());
            proof {
                vstd::utf8::encode_utf8_decode_utf8(pfx@);
            }
            match two_digit_value(pfx.as_str()) {
                Some(v) => {
                    let ghost before = r@;
                    r.push((v, seq));
                    assert(r@.drop_last() =~= before);
                    assert forall|q: int|
                        0 <= q < 100 implies #[trigger] seqs_of(
                        vs.take(i + 1),
                        crate::text::two_digits(q),
                    ) == bucket_seqs(r@, q) by {
                        assert(seqs_of(vs.take(i as int), crate::text::two_digits(q)) == bucket_seqs(before, q));
                        if q != v {
                            if crate::text::two_digits(q) == pfx@ {
                                lemma_two_digits_injective(q, v as int);
                            }
                        }
                    }
                },
                None => {
                    assert forall|q: int|
                        0 <= q < 100 implies #[trigger] seqs_of(
                        vs.take(i + 1),
                        crate::text::two_digits(q),
                    ) == bucket_seqs(r@, q) by {
                        assert(seqs_of(vs.take(i as int), crate::text::two_digits(q)) == bucket_seqs(r@, q));
                        assert(crate::text::two_digits(q) != pfx@);
                    }
                },
            }
        } else {
            assert forall|q: int|
                0 <= q < 100 implies #[trigger] seqs_of(vs.take(i + 1), crate::text::two_digits(q))
                == bucket_seqs(r@, q) by {
                assert(seqs_of(vs.take(i as int), crate::text::two_digits(q)) == bucket_seqs(r@, q));
            }
        }
        i = i + 1;
    }
    assert(vs.take(names.len() as int) =~= vs);
    r
}

/// The largest sequence number of bucket `q` among `pairs`, 0 for none.
fn bucket_max(pairs: &Vec<(u32, u32)>, q: u32) -> (m: u32)
    ensures
        m == seq_max(bucket_seqs(pairs@, q as int)),
{
    let mut m: u32 = 0;
    let mut i: usize = 0;
    while i < pairs.len()
        invariant
            i <= pairs.len(),
            m == seq_max(bucket_seqs(pairs@.take(i as int), q as int)),
        decreases pairs.len() - i,
    {
        assert(pairs@.take(i + 1).drop_last() =~= pairs@.take(i as int));
        assert(pairs@.take(i + 1).last() == pairs@[i as int]);
        let ghost bs = bucket_seqs(pairs@.take(i as int), q as int);
        let (b, s) = pairs[i];
        if b == q {
            assert(bs.push(s).drop_last() =~= bs);
        }
        if b == q && s > m {
            m = s;
        }
        i = i + 1;
    }
    assert(pairs@.take(pairs.len() as int) =~= pairs@);
    m
}

/// Which sequence numbers below 1000 bucket `q` uses among `pairs`.
fn bucket_flags(pairs: &Vec<(u32, u32)>, q: u32) -> (used: Vec<bool>)
    ensures
        used@.len() == 1000,
        forall|s: int| 0 <= s < 1000 ==> #[trigger] used@[s] == bucket_seqs(pairs@, q as int).contains(s as u32),
{
    let mut used: Vec<bool> = Vec::new();
    let mut k: usize = 0;
    while k < 1000
        invariant
            k <= 1000,
            used@.len() == k,
            forall|s: int| 0 <= s < k ==> !#[trigger] used@[s],
        decreases 1000 - k,
    {
        used.push(false);
        k = k + 1;
    }
    let mut i: usize = 0;
    while i < pairs.len()
        invariant
            i <= pairs.len(),
            used@.len() == 1000,
            forall|s: int|
                0 <= s < 1000 ==> #[trigger] used@[s] == bucket_seqs(pairs@.take(i as int), q as int).contains(
                    s as u32,
                ),
        decreases pairs.len() - i,
    {
        let ghost bs = bucket_seqs(pairs@.take(i as int), q as int);
        assert(pairs@.take(i + 1).drop_last() =~= pairs@.take(i as int));
        let (b, x) = pairs[i];
        if b == q {
            assert(bucket_seqs(pairs@.take(i + 1), q as int) == bs.push(x));
            assert forall|s: int| 0 <= s < 1000 implies #[trigger] bs.push(x).contains(s as u32) == (bs.contains(
                s as u32,
            ) || x == s as u32) by {
                if bs.contains(s as u32) {
                    let j = choose|j: int| 0 <= j < bs.len() && bs[j] == s as u32;
                    assert(bs.push(x)[j] == s as u32);
                }
                if x == s as u32 {
                    assert(bs.push(x)[bs.len() as int] == x);
                }
                if bs.push(x).contains(s as u32) {
                    let j = choose|j: int| 0 <= j < bs.len() + 1 && bs.push(x)[j] == s as u32;
                    if j < bs.len() {
                        assert(bs[j] == s as u32);
                    }
                }
            }
            if x < 1000 {
                used.set(x as usize, true);
            }
        }
        i = i + 1;
    }
    assert(pairs@.take(pairs.len() as int) =~= pairs@);
    used
}

fn two_digit_string(v: u32) -> (s: String)
    requires
        v < 100,
    ensures
        s@ == crate::text::two_digits(v as int),
{
    let mut s = String::new();
    crate::text::push_two_digits(&mut s, v);
    s
}

/// The first bucket after `p` with a free sequence number, and that number.
fn allocate(p: u32, names: &Vec<String>, pairs: &Vec<(u32, u32)>) -> (r: Option<(u32, u32)>)
    requires
        p < 100,
        seq_max(seqs_of(crate::text::views(names@), crate::text::two_digits(p as int))) >= MAX_SEQ,
        forall|q: int|
            0 <= q < 100 ==> #[trigger] seqs_of(crate::text::views(names@), crate::text::two_digits(q))
                == bucket_seqs(pairs@, q),
    ensures
        r is None <==> spec_ids_exhausted(p as int, crate::text::views(names@)),
        r matches Some((q, s)) ==> exists|o: int|
            #![trigger crate::text::two_digits((p + o) % 100)]
            {
                &&& 1 <= o < 100
                &&& q == (p + o) % 100
                &&& 1 <= s <= MAX_SEQ
                &&& !seq_used(crate::text::views(names@), crate::text::two_digits((p + o) % 100), s)
                &&& forall|o2: int| 1 <= o2 < o ==> #[trigger] bucket_full(crate::text::views(names@), (p + o2) % 100)
                &&& forall|s2: u32| 1 <= s2 < s ==> #[trigger] seq_used(crate::text::views(names@), crate::text::two_digits((p + o) % 100), s2)
            },
{
    let ghost vs = crate::text::views(names@);
    let mut offset: u32 = 1;
    while offset < 100
        invariant
            p < 100,
            1 <= offset <= 100,
            vs == crate::text::views(names@),
            forall|q: int|
                0 <= q < 100 ==> #[trigger] seqs_of(vs, crate::text::two_digits(q)) == bucket_seqs(pairs@, q),
            forall|o2: int| 1 <= o2 < offset ==> #[trigger] bucket_full(vs, (p + o2) % 100),
        decreases 100 - offset,
    {
        let q = (p + offset) % 100;
        let used = bucket_flags(pairs, q);
        assert(seqs_of(vs, crate::text::two_digits(q as int)) == bucket_seqs(pairs@, q as int));
        let mut s: u32 = 1;
        while s <= MAX_SEQ
            invariant
                p < 100,
                1 <= offset < 100,
                vs == crate::text::views(names@),
                forall|o2: int| 1 <= o2 < offset ==> #[trigger] bucket_full(vs, (p + o2) % 100),
                1 <= s <= MAX_SEQ + 1,
                q == (p + offset) % 100,
                used@.len() == 1000,
                forall|t: int|
                    0 <= t < 1000 ==> #[trigger] used@[t] == seqs_of(vs, crate::text::two_digits(q as int)).contains(
                        t as u32,
                    ),
                forall|s2: u32| 1 <= s2 < s ==> #[trigger] seq_used(vs, crate::text::two_digits(q as int), s2),
            decreases MAX_SEQ + 1 - s,
        {
            if !used[s as usize] {
                assert(q == (p + offset as int) % 100);
                assert(!seq_used(vs, crate::text::two_digits(q as int), s));
                assert(!bucket_full(vs, (p + offset as int) % 100));
                assert(crate::text::two_digits((p + offset as int) % 100) == crate::text::two_digits(q as int));
                return Some((q, s));
            }
            assert(seq_used(vs, crate::text::two_digits(q as int), s));
            s = s + 1;
        }
        assert(bucket_full(vs, (p + offset as int) % 100));
        offset = offset + 1;
    }
    assert(spec_ids_exhausted(p as int, vs));
    None
}

/// No id is left to allocate in bucket `p` (and every bucket after it).
pub fn ids_exhausted(p: u32, names: &Vec<String>) -> (r: bool)
    requires
        p < 100,
    ensures
        r == spec_ids_exhausted(p as int, crate::text::views(names@)),
{
    let pairs = numeric_pairs(names);
    assert(seqs_of(crate::text::views(names@), crate::text::two_digits(p as int)) == bucket_seqs(pairs@, p as int));
    if bucket_max(&pairs, p) < MAX_SEQ {
        return false;
    }
    allocate(p, names, &pairs).is_none()
}

/// The next available task id for bucket `p`, given the task filenames
/// already in use (the directory listing, and any seen in history).
///
/// Only ids whose prefix is the local one count towards the next sequence
/// number. When the local bucket has reached 999, the following buckets
/// (wrapping at 100) are scanned for the first free sequence number.
pub fn next_id(p: u32, names: &Vec<String>) -> (r: String)
    requires
        p < 100,
        !spec_ids_exhausted(p as int, crate::text::views(names@)),
    ensures
        spec_is_next_id(p as int, crate::text::views(names@), r@),
{
    let pairs = numeric_pairs(names);
    assert(seqs_of(crate::text::views(names@), crate::text::two_digits(p as int)) == bucket_seqs(pairs@, p as int));
    let m = bucket_max(&pairs, p);
    if m < MAX_SEQ {
        let mut r = two_digit_string(p);
        crate::text::push_three_digits(&mut r, m + 1);
        return r;
    }
    match allocate(p, names, &pairs) {
        Some((q, s)) => {
            let mut r = two_digit_string(q);
            crate::text::push_three_digits(&mut r, s);
            r
        },
        None => String::new(),
    }
}

} // verus!

verus! {

pub(crate) proof fn lemma_seqs_of_contains(names: Seq<Seq<char>>, prefix: Seq<char>, i: int)
    requires
        0 <= i < names.len(),
        name_seq_in(names[i], prefix) is Some,
    ensures
        seqs_of(names, prefix).contains(name_seq_in(names[i], prefix)->0),
    decreases names.len(),
{
    let rest = seqs_of(names.drop_last(), prefix);
    if i < names.len() - 1 {
        assert(names.drop_last()[i] == names[i]);
        lemma_seqs_of_contains(names.drop_last(), prefix, i);
        let x = name_seq_in(names[i], prefix)->0;
        let j = choose|j: int| 0 <= j < rest.len() && rest[j] == x;
        match name_seq_in(names.last(), prefix) {
            Some(s) => assert(rest.push(s)[j] == x),
            None => {},
        }
    } else {
        let s = name_seq_in(names.last(), prefix)->0;
        assert(rest.push(s)[rest.len() as int] == s);
    }
}

proof fn lemma_seq_max_bounds(s: Seq<u32>, x: u32)
    requires
        s.contains(x),
    ensures
        x <= seq_max(s),
    decreases s.len(),
{
    if s.last() != x {
        let j = choose|j: int| 0 <= j < s.len() && s[j] == x;
        assert(s.drop_last()[j] == x);
        lemma_seq_max_bounds(s.drop_last(), x);
    }
}

/// A five-digit id `DDNNN` reports prefix `DD` and sequence `NNN`.
pub proof fn lemma_numeric_id_parts(q: int, s: int)
    requires
        0 <= q < 100,
        0 <= s <= 999,
    ensures
        ({
            let id = crate::text::two_digits(q) + crate::text::three_digits(s);
            &&& id_prefix_of(id) == crate::text::two_digits(q)
            &&& id_seq_of(id) == s
            &&& crate::filename::is_valid_id(id)
            &&& id.len() == 5
            &&& crate::filename::digits_in(id, 0, 5)
        }),
{
    let t = crate::text::two_digits(q);
    let id = t + crate::text::three_digits(s);
    assert(vstd::utf8::is_ascii_chars(id));
    assert(vstd::utf8::is_ascii_chars(t));
    vstd::utf8::is_ascii_chars_encode_utf8(id);
    vstd::utf8::is_ascii_chars_encode_utf8(t);
    let b = vstd::utf8::encode_utf8(id);
    assert(b.len() == 5);
    assert(!spec_is_legacy_id(b));
    assert(b.take(2) =~= vstd::utf8::encode_utf8(t));
    vstd::utf8::encode_utf8_decode_utf8(t);
    let d = b.skip(2);
    assert(d[0] == (s / 100 + 48) as u8);
    assert(d[1] == ((s / 10) % 10 + 48) as u8);
    assert(d[2] == (s % 10 + 48) as u8);
    assert(all_digit_bytes(d));
    assert(d.drop_last().drop_last().drop_last().len() == 0);
    reveal_with_fuel(decimal_value, 4);
    assert(decimal_value(d) == (s / 100) * 100 + ((s / 10) % 10) * 10 + s % 10);
    assert((s / 100) * 100 + ((s / 10) % 10) * 10 + s % 10 == s) by (nonlinear_arith)
        requires
            0 <= s <= 999,
    ;
    assert(crate::filename::digits_in(id, 0, 5));
}

/// The allocated id is five ASCII digits, and no filename in `names` already
/// carries it: a fresh id never collides with a task that is already there.
pub proof fn lemma_next_id_fresh(p: int, names: Seq<Seq<char>>, r: Seq<char>)
    requires
        0 <= p < 100,
        spec_is_next_id(p, names, r),
    ensures
        r.len() == 5,
        crate::filename::digits_in(r, 0, 5),
        id_seq_of(r) <= MAX_SEQ,
        forall|i: int|
            0 <= i < names.len() && #[trigger] crate::filename::spec_parse_filename(names[i]) is Some
                ==> crate::filename::spec_parse_filename(names[i]).unwrap().0 != r,
{
    let m = seq_max(seqs_of(names, crate::text::two_digits(p)));
    let (q, s) = if m < MAX_SEQ {
        (p, m + 1)
    } else {
        let (o, s) = choose|o: int, s: u32|
            #![trigger crate::text::two_digits((p + o) % 100), crate::text::three_digits(s as int)]
            {
                &&& 1 <= o < 100
                &&& 1 <= s <= MAX_SEQ
                &&& r == crate::text::two_digits((p + o) % 100) + crate::text::three_digits(s as int)
                &&& !seq_used(names, crate::text::two_digits((p + o) % 100), s)
                &&& forall|o2: int| 1 <= o2 < o ==> #[trigger] bucket_full(names, (p + o2) % 100)
                &&& forall|s2: u32| 1 <= s2 < s ==> #[trigger] seq_used(
                    names,
                    crate::text::two_digits((p + o) % 100),
                    s2,
                )
            };
        ((p + o) % 100, s as int)
    };
    assert(r == crate::text::two_digits(q) + crate::text::three_digits(s));
    lemma_numeric_id_parts(q, s);
    assert forall|i: int|
        0 <= i < names.len() && #[trigger] crate::filename::spec_parse_filename(names[i])
            is Some implies crate::filename::spec_parse_filename(names[i]).unwrap().0 != r by {
        if crate::filename::spec_parse_filename(names[i]).unwrap().0 == r {
            let pre = crate::text::two_digits(q);
            assert(name_seq_in(names[i], pre) == Some(s as u32));
            lemma_seqs_of_contains(names, pre, i);
            if m < MAX_SEQ {
                lemma_seq_max_bounds(seqs_of(names, pre), s as u32);
            }
        }
    }
}

} // verus!

verus! {

/// The SHA-256 digest of `data`.
pub uninterp spec fn sha256_of(data: Seq<u8>) -> Seq<u8>;

/// `sha2::Sha256::digest`. Claimed: the result is `sha256_of` the input bytes
/// and is 32 bytes long (SHA-256's output size); the digest itself is not stated.
#[verifier::external_body]
fn sha256(data: &[u8]) -> (r: Vec<u8>)
    ensures
        r@ == sha256_of(data@),
        r@.len() == 32,
{
    sha2::Sha256::digest(data).to_vec()
}

/// The bytes hashed for a tasks directory's prefix: the machine identity, a
/// NUL separator (so distinct pairs cannot collide by concatenation), then the
/// canonical directory path.
pub open spec fn prefix_hash_input(machine_identity: Seq<char>, resolved_dir: Seq<char>) -> Seq<u8> {
    vstd::utf8::encode_utf8(machine_identity) + seq![0u8] + vstd::utf8::encode_utf8(resolved_dir)
}

/// The bucket (0..100) of a tasks directory: the first two bytes of the
/// SHA-256 digest of its hash input, read big-endian, modulo 100.
pub open spec fn spec_prefix_digits(machine_identity: Seq<char>, resolved_dir: Seq<char>) -> int {
    let h = sha256_of(prefix_hash_input(machine_identity, resolved_dir));
    (h[0] as int * 256 + h[1] as int) % 100
}

/// Hash machine identity and tasks directory path together into a value 0..100.
pub fn prefix_digits(machine_identity: &str, resolved_dir: &str) -> (r: u32)
    ensures
        r == spec_prefix_digits(machine_identity@, resolved_dir@),
        r < 100,
{
    let mut data: Vec<u8> = Vec::new();
    data.extend_from_slice(machine_identity.as_bytes());
    data.push(0u8);
    data.extend_from_slice(resolved_dir.as_bytes());
    assert(data@ =~= prefix_hash_input(machine_identity@, resolved_dir@));
    let h = sha256(data.as_slice());
    ((h[0] as u32) * 256 + (h[1] as u32)) % 100
}

/// The two-digit id prefix of a tasks directory, from the machine identity
/// (an override if one is set, else the hostname) and the directory's
/// canonical path. Different machines and different checkouts land in
/// different buckets, so independent allocations rarely collide.
pub fn prefix_for(machine_identity: &str, resolved_dir: &str) -> (r: String)
    ensures
        r@ == crate::text::two_digits(spec_prefix_digits(machine_identity@, resolved_dir@)),
{
    let v = prefix_digits(machine_identity, resolved_dir);
    two_digit_string(v)
}

} // verus!

verus! {

/// A five-digit numeric id is never migrated, whatever its prefix: the
/// prefix records where the task was created.
pub proof fn lemma_numeric_id_never_migrated(id: Seq<char>)
    requires
        id.len() == 5,
        crate::filename::digits_in(id, 0, 5),
    ensures
        !spec_needs_migration(vstd::utf8::encode_utf8(id)),
{
    assert(vstd::utf8::is_ascii_chars(id));
    vstd::utf8::is_ascii_chars_encode_utf8(id);
    let b = vstd::utf8::encode_utf8(id);
    assert(crate::text::is_digit(id[0]) && crate::text::is_digit(id[1]));
    assert(b[0] == id[0] as u8 && b[1] == id[1] as u8);
}

/// A valid id needs migration exactly when it is legacy `NNNN` or old `AANNN`.
pub proof fn lemma_valid_id_migration(id: Seq<char>)
    requires
        crate::filename::is_valid_id(id),
    ensures
        spec_needs_migration(vstd::utf8::encode_utf8(id)) <==> !(id.len() == 5
            && crate::filename::digits_in(id, 0, 5)),
{
    assert(vstd::utf8::is_ascii_chars(id));
    vstd::utf8::is_ascii_chars_encode_utf8(id);
    let b = vstd::utf8::encode_utf8(id);
    if id.len() == 5 && crate::filename::digits_in(id, 0, 5) {
        lemma_numeric_id_never_migrated(id);
    } else if id.len() == 4 {
        assert(spec_is_legacy_id(b));
    } else {
        assert(b[0] == id[0] as u8);
        assert(!is_digit_byte(b[0]));
    }
}

} // verus!

verus! {

/// With no task of the local bucket `p` among `names` (in the working tree or
/// in history), the next id is the bucket's first: `DD001`.
pub proof fn lemma_next_id_starts_at_one(p: int, names: Seq<Seq<char>>, r: Seq<char>)
    requires
        0 <= p < 100,
        seqs_of(names, crate::text::two_digits(p)).len() == 0,
        spec_is_next_id(p, names, r),
    ensures
        r == crate::text::two_digits(p) + seq!['0', '0', '1'],
{
    assert(crate::text::three_digits(1) =~= seq!['0', '0', '1']);
}

} // verus!
