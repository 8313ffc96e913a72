//! Conversation and message identities: 128-bit UUIDs, and the split form
//! stored as four 32-bit words so equality search can be indexed.

use vstd::prelude::*;

use crate::util::{be32_read, lemma_be32_roundtrip, lemma_i32_u32_roundtrip, push_be32, be32_bytes};

verus! {

/// A 128-bit identifier. The value is the big-endian reading of the
/// sixteen identity bytes.
#[derive(Clone, Copy, Debug, PartialEq, Eq, Hash, Structural)]
pub struct Uuid(pub u128);

/// The four 32-bit words of a 128-bit value, most significant first.
pub open spec fn u128_words(v: u128) -> (u32, u32, u32, u32) {
    ((v >> 96) as u32, (v >> 64) as u32, (v >> 32) as u32, v as u32)
}

/// The 128-bit value assembled from four 32-bit words, most significant first.
pub open spec fn u128_join(w0: u32, w1: u32, w2: u32, w3: u32) -> u128 {
    ((w0 as u128) << 96) | ((w1 as u128) << 64) | ((w2 as u128) << 32) | (w3 as u128)
}

/// Splitting a 128-bit value and joining the words round-trips, and so does
/// joining four words and splitting the result.
pub proof fn lemma_u128_words_roundtrip(v: u128, w0: u32, w1: u32, w2: u32, w3: u32)
    ensures
        u128_join((v >> 96) as u32, (v >> 64) as u32, (v >> 32) as u32, v as u32) == v,
        u128_words(u128_join(w0, w1, w2, w3)) == (w0, w1, w2, w3),
{
    assert(((((v >> 96) as u32) as u128) << 96) | ((((v >> 64) as u32) as u128) << 64) | ((((v
        >> 32) as u32) as u128) << 32) | ((v as u32) as u128) == v) by (bit_vector);
    assert(((((w0 as u128) << 96) | ((w1 as u128) << 64) | ((w2 as u128) << 32) | (w3 as u128))
        >> 96) as u32 == w0) by (bit_vector);
    assert(((((w0 as u128) << 96) | ((w1 as u128) << 64) | ((w2 as u128) << 32) | (w3 as u128))
        >> 64) as u32 == w1) by (bit_vector);
    assert(((((w0 as u128) << 96) | ((w1 as u128) << 64) | ((w2 as u128) << 32) | (w3 as u128))
        >> 32) as u32 == w2) by (bit_vector);
    assert((((w0 as u128) << 96) | ((w1 as u128) << 64) | ((w2 as u128) << 32) | (w3 as u128))
        as u32 == w3) by (bit_vector);
}

impl Uuid {
    /// The all-zero identifier.
    pub fn zero() -> (r: Uuid)
        ensures
            r.0 == 0,
    {
        Uuid(0)
    }

    /// Build an identifier from its 128-bit value.
    pub fn from_u128(v: u128) -> (r: Uuid)
        ensures
            r.0 == v,
    {
        Uuid(v)
    }

    /// Append the sixteen big-endian identity bytes to `out`.
    pub fn push_bytes(&self, out: &mut Vec<u8>)
        ensures
            final(out)@ == old(out)@ + spec_uuid_bytes(*self),
            final(out)@.len() == old(out)@.len() + 16,
    {
        proof {
            lemma_u128_words_roundtrip(self.0, 0, 0, 0, 0);
        }
        push_be32(out, (self.0 >> 96) as u32);
        push_be32(out, (self.0 >> 64) as u32);
        push_be32(out, (self.0 >> 32) as u32);
        push_be32(out, self.0 as u32);
        assert(final(out)@ =~= old(out)@ + spec_uuid_bytes(*self));
    }

    /// Read an identifier back from sixteen big-endian bytes at `at`.
    pub fn read_bytes(b: &Vec<u8>, at: usize) -> (r: Uuid)
        requires
            at + 16 <= b@.len(),
        ensures
            spec_uuid_bytes(r) == b@.subrange(at as int, at + 16),
    {
        let n: usize = b.len();
        let w0e = crate::util::read_be32(b, at);
        let w1e = crate::util::read_be32(b, at + 4);
        let w2e = crate::util::read_be32(b, at + 8);
        let w3e = crate::util::read_be32(b, at + 12);
        let v: u128 = ((w0e as u128) << 96) | ((w1e as u128) << 64) | ((w2e as u128) << 32) | (
        w3e as u128);
        proof {
            lemma_u128_words_roundtrip(v, w0e, w1e, w2e, w3e);
            assert(spec_uuid_bytes(Uuid(v)) =~= b@.subrange(at as int, at + 16));
        }
        Uuid(v)
    }
}

/// The sixteen big-endian identity bytes of a UUID.
pub open spec fn spec_uuid_bytes(u: Uuid) -> Seq<u8> {
    let (w0, w1, w2, w3) = u128_words(u.0);
    be32_bytes(w0) + be32_bytes(w1) + be32_bytes(w2) + be32_bytes(w3)
}

/// A UUID split into four 32-bit words, most significant first, each
/// reinterpreted as a signed column value.
#[derive(Clone, Copy, Debug, PartialEq, Eq, Structural)]
pub struct SplitUuid(pub i32, pub i32, pub i32, pub i32);

/// The split form of a UUID.
pub open spec fn spec_split_uuid(u: Uuid) -> SplitUuid {
    let (w0, w1, w2, w3) = u128_words(u.0);
    SplitUuid(w0 as i32, w1 as i32, w2 as i32, w3 as i32)
}

/// The UUID a split form stands for.
pub open spec fn spec_unsplit_uuid(s: SplitUuid) -> Uuid {
    Uuid(u128_join(s.0 as u32, s.1 as u32, s.2 as u32, s.3 as u32))
}

impl From<Uuid> for SplitUuid {
    fn from(u: Uuid) -> (r: SplitUuid) {
        SplitUuid((u.0 >> 96) as u32 as i32, (u.0 >> 64) as u32 as i32, (u.0 >> 32) as u32 as i32, u.0 as u32 as i32)
    }
}

impl vstd::std_specs::convert::FromSpecImpl<Uuid> for SplitUuid {
    open spec fn obeys_from_spec() -> bool {
        true
    }

    open spec fn from_spec(u: Uuid) -> SplitUuid {
        spec_split_uuid(u)
    }
}

impl From<SplitUuid> for Uuid {
    fn from(s: SplitUuid) -> (r: Uuid) {
        Uuid(
            (((s.0 as u32) as u128) << 96) | (((s.1 as u32) as u128) << 64) | (((s.2 as u32) as u128)
                << 32) | ((s.3 as u32) as u128),
        )
    }
}

impl vstd::std_specs::convert::FromSpecImpl<SplitUuid> for Uuid {
    open spec fn obeys_from_spec() -> bool {
        true
    }

    open spec fn from_spec(s: SplitUuid) -> Uuid {
        spec_unsplit_uuid(s)
    }
}

/// Splitting a UUID into four words and reassembling them is the identity,
/// in both directions.
pub proof fn lemma_split_uuid_roundtrip(u: Uuid, s: SplitUuid)
    ensures
        spec_unsplit_uuid(spec_split_uuid(u)) == u,
        spec_split_uuid(spec_unsplit_uuid(s)) == s,
{
    let (w0, w1, w2, w3) = u128_words(u.0);
    lemma_i32_u32_roundtrip(0, w0);
    lemma_i32_u32_roundtrip(0, w1);
    lemma_i32_u32_roundtrip(0, w2);
    lemma_i32_u32_roundtrip(0, w3);
    lemma_u128_words_roundtrip(u.0, w0, w1, w2, w3);
    lemma_i32_u32_roundtrip(s.0, 0);
    lemma_i32_u32_roundtrip(s.1, 0);
    lemma_i32_u32_roundtrip(s.2, 0);
    lemma_i32_u32_roundtrip(s.3, 0);
    lemma_u128_words_roundtrip(0, s.0 as u32, s.1 as u32, s.2 as u32, s.3 as u32);
}

/// Relies on uuid::Uuid::new_v4 for a fresh random identifier; nothing is
/// assumed of the value drawn.
#[verifier::external_body]
pub(crate) fn new_v4() -> Uuid {
    Uuid(::uuid::Uuid::new_v4().as_u128())
}

} // verus!
