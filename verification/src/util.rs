//! Small shared helpers: first-match search over sequences and
//! big-endian byte packing for the wire format.

use vstd::prelude::*;

verus! {

/// Index of the first element of `s` satisfying `p`, or `-1` when none does.
pub open spec fn find_first<T>(s: Seq<T>, p: spec_fn(T) -> bool) -> int
    decreases s.len(),
{
    if s.len() == 0 {
        -1
    } else if p(s[0]) {
        0
    } else {
        let rest = find_first(s.subrange(1, s.len() as int), p);
        if rest == -1 {
            -1
        } else {
            rest + 1
        }
    }
}

/// `find_first` returns `-1` exactly when no element matches, and otherwise
/// the first matching index.
pub proof fn lemma_find_first<T>(s: Seq<T>, p: spec_fn(T) -> bool)
    ensures
        find_first(s, p) == -1 ==> forall|j: int| 0 <= j < s.len() ==> !p(#[trigger] s[j]),
        find_first(s, p) != -1 ==> {
            let i = find_first(s, p);
            &&& 0 <= i < s.len()
            &&& p(s[i])
            &&& forall|j: int| 0 <= j < i ==> !p(#[trigger] s[j])
        },
    decreases s.len(),
{
    if s.len() != 0 && !p(s[0]) {
        let rest = s.subrange(1, s.len() as int);
        lemma_find_first(rest, p);
        assert forall|j: int| 1 <= j < s.len() && find_first(rest, p) == -1 implies !p(
            #[trigger] s[j],
        ) by {
            assert(rest[j - 1] == s[j]);
        }
        assert forall|j: int|
            find_first(rest, p) != -1 && 1 <= j < find_first(rest, p) + 1 implies !p(
            #[trigger] s[j],
        ) by {
            assert(rest[j - 1] == s[j]);
        }
        if find_first(rest, p) != -1 {
            assert(s[find_first(rest, p) + 1] == rest[find_first(rest, p)]);
        }
    }
}

/// The first matching index is unique: any index that matches while nothing
/// before it matches is `find_first`.
pub proof fn lemma_find_first_unique<T>(s: Seq<T>, p: spec_fn(T) -> bool, i: int)
    requires
        0 <= i < s.len(),
        p(s[i]),
        forall|j: int| 0 <= j < i ==> !p(#[trigger] s[j]),
    ensures
        find_first(s, p) == i,
{
    lemma_find_first(s, p);
    let f = find_first(s, p);
    if f == -1 {
        assert(!p(s[i]));
    } else {
        if f < i {
            assert(!p(s[f]));
        }
        if i < f {
            assert(!p(s[i]));
        }
    }
}

/// No element of `s` matches `p`: `find_first` is `-1`.
pub proof fn lemma_find_first_none<T>(s: Seq<T>, p: spec_fn(T) -> bool)
    requires
        forall|j: int| 0 <= j < s.len() ==> !p(#[trigger] s[j]),
    ensures
        find_first(s, p) == -1,
{
    lemma_find_first(s, p);
    let f = find_first(s, p);
    if f != -1 {
        assert(!p(s[f]));
    }
}

/// A pointwise weaker predicate never keeps more elements.
pub proof fn lemma_filter_len_le<T>(s: Seq<T>, p1: spec_fn(T) -> bool, p2: spec_fn(T) -> bool)
    requires
        forall|i: int| 0 <= i < s.len() && p2(#[trigger] s[i]) ==> p1(s[i]),
    ensures
        s.filter(p2).len() <= s.filter(p1).len(),
    decreases s.len(),
{
    reveal(Seq::filter);
    if s.len() > 0 {
        let s0 = s.drop_last();
        assert(forall|i: int| 0 <= i < s0.len() ==> #[trigger] s0[i] == s[i]);
        lemma_filter_len_le(s0, p1, p2);
    }
}

/// A pointwise weaker predicate keeps strictly fewer elements when some
/// element separates the two.
pub proof fn lemma_filter_len_lt<T>(
    s: Seq<T>,
    p1: spec_fn(T) -> bool,
    p2: spec_fn(T) -> bool,
    w: int,
)
    requires
        forall|i: int| 0 <= i < s.len() && p2(#[trigger] s[i]) ==> p1(s[i]),
        0 <= w < s.len(),
        p1(s[w]),
        !p2(s[w]),
    ensures
        s.filter(p2).len() < s.filter(p1).len(),
    decreases s.len(),
{
    reveal(Seq::filter);
    let s0 = s.drop_last();
    assert(forall|i: int| 0 <= i < s0.len() ==> #[trigger] s0[i] == s[i]);
    if w == s.len() - 1 {
        lemma_filter_len_le(s0, p1, p2);
    } else {
        lemma_filter_len_lt(s0, p1, p2, w);
    }
}

/// Removing a kept element shrinks the filtered length by one.
pub proof fn lemma_filter_remove<T>(s: Seq<T>, p: spec_fn(T) -> bool, i: int)
    requires
        0 <= i < s.len(),
        p(s[i]),
    ensures
        s.remove(i).filter(p).len() < s.filter(p).len(),
{
    reveal(Seq::filter);
    let a = s.subrange(0, i);
    let mid = seq![s[i]];
    let b = s.subrange(i + 1, s.len() as int);
    assert(s =~= a + mid + b);
    assert(s.remove(i) =~= a + b);
    Seq::filter_distributes_over_add(a + mid, b, p);
    Seq::filter_distributes_over_add(a, mid, p);
    Seq::filter_distributes_over_add(a, b, p);
    assert(mid.drop_last() =~= Seq::<T>::empty());
    assert(mid.filter(p).len() == 1);
}

/// Filtering an already filtered sequence keeps no more than one pass
/// over the whole sequence keeps.
pub proof fn lemma_filter_of_filter_le<T>(s: Seq<T>, q: spec_fn(T) -> bool, p: spec_fn(T) -> bool)
    ensures
        s.filter(q).filter(p).len() <= s.filter(p).len(),
    decreases s.len(),
{
    reveal(Seq::filter);
    if s.len() > 0 {
        let s0 = s.drop_last();
        lemma_filter_of_filter_le(s0, q, p);
        if q(s.last()) {
            assert(s.filter(q) =~= s0.filter(q).push(s.last()));
            assert(s.filter(q).drop_last() =~= s0.filter(q));
        } else {
            assert(s.filter(q) =~= s0.filter(q));
        }
    }
}

/// Pushing an element moves the first match only when nothing matched.
pub proof fn lemma_find_first_push<T>(s: Seq<T>, p: spec_fn(T) -> bool, x: T)
    ensures
        find_first(s.push(x), p) == if find_first(s, p) != -1 {
            find_first(s, p)
        } else if p(x) {
            s.len() as int
        } else {
            -1
        },
{
    lemma_find_first(s, p);
    let f = find_first(s, p);
    if f != -1 {
        assert(s.push(x)[f] == s[f]);
        assert(forall|j: int| 0 <= j < f ==> s.push(x)[j] == s[j]);
        lemma_find_first_unique(s.push(x), p, f);
    } else {
        assert(forall|j: int| 0 <= j < s.len() ==> s.push(x)[j] == s[j]);
        if p(x) {
            assert(s.push(x)[s.len() as int] == x);
            lemma_find_first_unique(s.push(x), p, s.len() as int);
        } else {
            assert(forall|j: int| 0 <= j < s.push(x).len() ==> !p(#[trigger] s.push(x)[j]));
            lemma_find_first_none(s.push(x), p);
        }
    }
}

/// Two sequences on which a predicate agrees pointwise have the same
/// first match.
pub proof fn lemma_find_first_pointwise<T>(s1: Seq<T>, s2: Seq<T>, p: spec_fn(T) -> bool)
    requires
        s1.len() == s2.len(),
        forall|i: int| 0 <= i < s1.len() ==> p(#[trigger] s1[i]) == p(#[trigger] s2[i]),
    ensures
        find_first(s1, p) == find_first(s2, p),
    decreases s1.len(),
{
    if s1.len() > 0 && !p(s1[0]) {
        let r1 = s1.subrange(1, s1.len() as int);
        let r2 = s2.subrange(1, s2.len() as int);
        assert(forall|i: int| 0 <= i < r1.len() ==> #[trigger] r1[i] == s1[i + 1]);
        assert(forall|i: int| 0 <= i < r2.len() ==> #[trigger] r2[i] == s2[i + 1]);
        lemma_find_first_pointwise(r1, r2, p);
    }
}

/// Filtering keeps a sequence sorted strictly ascending under `key`.
pub proof fn lemma_filter_ascending<T>(s: Seq<T>, p: spec_fn(T) -> bool, key: spec_fn(T) -> int)
    requires
        forall|i: int, j: int| 0 <= i < j < s.len() ==> key(#[trigger] s[i]) < key(#[trigger] s[j]),
    ensures
        forall|i: int, j: int|
            0 <= i < j < s.filter(p).len() ==> key(#[trigger] s.filter(p)[i]) < key(
                #[trigger] s.filter(p)[j],
            ),
        forall|i: int|
            0 <= i < s.filter(p).len() ==> exists|k: int|
                0 <= k < s.len() && #[trigger] s.filter(p)[i] == s[k],
    decreases s.len(),
{
    reveal(Seq::filter);
    if s.len() > 0 {
        let s0 = s.drop_last();
        assert(forall|i: int| 0 <= i < s0.len() ==> #[trigger] s0[i] == s[i]);
        lemma_filter_ascending(s0, p, key);
        let out = s.filter(p);
        let out0 = s0.filter(p);
        if p(s.last()) {
            assert(out =~= out0.push(s.last()));
        } else {
            assert(out =~= out0);
        }
        assert forall|i: int|
            0 <= i < out.len() implies exists|k: int|
            0 <= k < s.len() && #[trigger] out[i] == s[k] by {
            if i < out0.len() {
                let k = choose|k: int| 0 <= k < s0.len() && out0[i] == s0[k];
                assert(out[i] == s[k]);
            } else {
                assert(out[i] == s[s.len() - 1]);
            }
        }
        assert forall|i: int, j: int|
            0 <= i < j < out.len() implies key(#[trigger] out[i]) < key(#[trigger] out[j]) by {
            if j < out0.len() {
                assert(key(out0[i]) < key(out0[j]));
            } else {
                assert(out[j] == s.last());
                let k = choose|k: int| 0 <= k < s0.len() && out0[i] == s0[k];
                assert(key(s[k]) < key(s[s.len() - 1]));
            }
        }
    }
}

/// The four big-endian bytes of a 32-bit word.
pub open spec fn be32_bytes(v: u32) -> Seq<u8> {
    seq![
        (v >> 24) as u8,
        (v >> 16) as u8,
        (v >> 8) as u8,
        v as u8,
    ]
}

/// The 32-bit word read from four big-endian bytes.
pub open spec fn be32_read(b0: u8, b1: u8, b2: u8, b3: u8) -> u32 {
    ((b0 as u32) << 24) | ((b1 as u32) << 16) | ((b2 as u32) << 8) | (b3 as u32)
}

/// Reading back the four big-endian bytes of a word gives the word,
/// and writing the bytes a word was read from gives those bytes.
pub proof fn lemma_be32_roundtrip(v: u32, b0: u8, b1: u8, b2: u8, b3: u8)
    ensures
        be32_read((v >> 24) as u8, (v >> 16) as u8, (v >> 8) as u8, v as u8) == v,
        be32_read(b0, b1, b2, b3) >> 24 == b0 as u32,
        (be32_read(b0, b1, b2, b3) >> 16) as u8 == b1,
        (be32_read(b0, b1, b2, b3) >> 8) as u8 == b2,
        be32_read(b0, b1, b2, b3) as u8 == b3,
{
    assert(((((b0 as u32) << 24) | ((b1 as u32) << 16) | ((b2 as u32) << 8) | (b3 as u32)) >> 24)
        == b0 as u32) by (bit_vector);
    assert((((((b0 as u32) << 24) | ((b1 as u32) << 16) | ((b2 as u32) << 8) | (b3 as u32)) >> 16)
        as u8) == b1) by (bit_vector);
    assert((((((b0 as u32) << 24) | ((b1 as u32) << 16) | ((b2 as u32) << 8) | (b3 as u32)) >> 8)
        as u8) == b2) by (bit_vector);
    assert(((((b0 as u32) << 24) | ((b1 as u32) << 16) | ((b2 as u32) << 8) | (b3 as u32)) as u8)
        == b3) by (bit_vector);
    assert(be32_read((v >> 24) as u8, (v >> 16) as u8, (v >> 8) as u8, v as u8) == v)
        by (bit_vector);
}

/// Push the four big-endian bytes of `v` onto `out`.
pub fn push_be32(out: &mut Vec<u8>, v: u32)
    ensures
        final(out)@ == old(out)@ + be32_bytes(v),
{
    out.push((v >> 24) as u8);
    out.push((v >> 16) as u8);
    out.push((v >> 8) as u8);
    out.push(v as u8);
    assert(final(out)@ =~= old(out)@ + be32_bytes(v));
}

/// Read a 32-bit word from four big-endian bytes of `b` starting at `at`.
pub fn read_be32(b: &Vec<u8>, at: usize) -> (v: u32)
    requires
        at + 4 <= b@.len(),
    ensures
        v == be32_read(b@[at as int], b@[at + 1], b@[at + 2], b@[at + 3]),
        be32_bytes(v) == b@.subrange(at as int, at + 4),
{
    let n: usize = b.len();
    let v = ((b[at] as u32) << 24) | ((b[at + 1] as u32) << 16) | ((b[at + 2] as u32) << 8) | (
    b[at + 3] as u32);
    proof {
        lemma_be32_roundtrip(v, b@[at as int], b@[at + 1], b@[at + 2], b@[at + 3]);
        assert(be32_bytes(v) =~= b@.subrange(at as int, at + 4));
    }
    v
}

/// Reinterpreting a signed 32-bit value as unsigned and back is the identity.
pub proof fn lemma_i32_u32_roundtrip(v: i32, u: u32)
    ensures
        (v as u32) as i32 == v,
        (u as i32) as u32 == u,
{
    assert((v as u32) as i32 == v) by (bit_vector);
    assert((u as i32) as u32 == u) by (bit_vector);
}

} // verus!
