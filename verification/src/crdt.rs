//! CRDT stamps: the metadata deciding merge precedence.
//!
//! Three stamp kinds exist. `CrdtWritable` orders last-writer-wins rows by
//! `(generation, author)`; `CrdtWritableSequence` adds a per-conversation
//! sequence number for append ordering; `CrdtAddOnly` stamps grow-only rows,
//! all of which rank equal, so an existing row is never superseded.

use vstd::prelude::*;

verus! {

/// A 32-bit identifier derived from a peer's Ed25519 certificate,
/// present in every stamp.
#[derive(Clone, Copy, Debug, PartialEq, Eq, Structural)]
pub struct Author(pub i32);

impl Author {
    /// The zero author used by placeholder rows.
    pub fn zero() -> (r: Author)
        ensures
            r.0 == 0,
    {
        Author(0)
    }
}

/// Last-writer-wins stamp, totally ordered by `(generation, author)`.
#[derive(Clone, Copy, Debug, PartialEq, Eq, Structural)]
pub struct CrdtWritable {
    pub generation: i32,
    pub author: Author,
}

impl CrdtWritable {
    /// The zero stamp carried by placeholder rows: any real write supersedes it.
    pub open spec fn spec_zero() -> CrdtWritable {
        CrdtWritable { generation: 0, author: Author(0) }
    }

    /// Strict lexicographic order on `(generation, author)`.
    pub open spec fn spec_lt(self, other: CrdtWritable) -> bool {
        self.generation < other.generation
            || (self.generation == other.generation && self.author.0 < other.author.0)
    }

    pub open spec fn spec_le(self, other: CrdtWritable) -> bool {
        self.spec_lt(other) || self == other
    }

    /// The successor stamp taken by a local write on behalf of `author`.
    pub open spec fn spec_next(self, author: Author) -> CrdtWritable {
        CrdtWritable { generation: (self.generation + 1) as i32, author }
    }

    pub fn zero() -> (r: CrdtWritable)
        ensures
            r == CrdtWritable::spec_zero(),
    {
        CrdtWritable { generation: 0, author: Author(0) }
    }

    pub fn lt(&self, other: &CrdtWritable) -> (r: bool)
        ensures
            r == self.spec_lt(*other),
    {
        self.generation < other.generation
            || (self.generation == other.generation && self.author.0 < other.author.0)
    }

    pub fn next(&self, author: Author) -> (r: CrdtWritable)
        requires
            self.generation < i32::MAX,
        ensures
            r == self.spec_next(author),
    {
        CrdtWritable { generation: self.generation + 1, author }
    }
}

/// Exactly one of `a < b`, `a == b`, `b < a` holds: the writable order is total.
pub proof fn lemma_writable_total_order(a: CrdtWritable, b: CrdtWritable)
    ensures
        a.spec_lt(b) || a == b || b.spec_lt(a),
        a.spec_lt(b) ==> !(a == b) && !b.spec_lt(a),
        a == b ==> !a.spec_lt(b) && !b.spec_lt(a),
        b.spec_lt(a) ==> !(a == b) && !a.spec_lt(b),
{
}

/// The writable order is transitive.
pub proof fn lemma_writable_transitive(a: CrdtWritable, b: CrdtWritable, c: CrdtWritable)
    requires
        a.spec_lt(b),
        b.spec_lt(c),
    ensures
        a.spec_lt(c),
{
}

/// A local write strictly advances the stamp it read.
pub proof fn lemma_writable_next_greater(a: CrdtWritable, author: Author)
    requires
        a.generation < i32::MAX,
    ensures
        a.spec_lt(a.spec_next(author)),
{
}

/// Append-order stamp: a writable stamp plus a per-conversation sequence
/// number, ordered lexicographically by `(writable, sequence)`.
#[derive(Clone, Copy, Debug, PartialEq, Eq, Structural)]
pub struct CrdtWritableSequence {
    pub writable: CrdtWritable,
    pub sequence: i32,
}

impl CrdtWritableSequence {
    pub open spec fn spec_zero() -> CrdtWritableSequence {
        CrdtWritableSequence { writable: CrdtWritable::spec_zero(), sequence: 0 }
    }

    pub open spec fn spec_lt(self, other: CrdtWritableSequence) -> bool {
        self.writable.spec_lt(other.writable)
            || (self.writable == other.writable && self.sequence < other.sequence)
    }

    /// The successor keeps the sequence; a push assigns the sequence separately.
    pub open spec fn spec_next(self, author: Author) -> CrdtWritableSequence {
        CrdtWritableSequence { writable: self.writable.spec_next(author), sequence: self.sequence }
    }

    pub fn zero() -> (r: CrdtWritableSequence)
        ensures
            r == CrdtWritableSequence::spec_zero(),
    {
        CrdtWritableSequence { writable: CrdtWritable::zero(), sequence: 0 }
    }

    pub fn lt(&self, other: &CrdtWritableSequence) -> (r: bool)
        ensures
            r == self.spec_lt(*other),
    {
        self.writable.lt(&other.writable)
            || (self.writable == other.writable && self.sequence < other.sequence)
    }

    pub fn next(&self, author: Author) -> (r: CrdtWritableSequence)
        requires
            self.writable.generation < i32::MAX,
        ensures
            r == self.spec_next(author),
    {
        CrdtWritableSequence { writable: self.writable.next(author), sequence: self.sequence }
    }
}

/// Exactly one of `a < b`, `a == b`, `b < a` holds for sequence stamps.
pub proof fn lemma_sequence_total_order(a: CrdtWritableSequence, b: CrdtWritableSequence)
    ensures
        a.spec_lt(b) || a == b || b.spec_lt(a),
        a.spec_lt(b) ==> !(a == b) && !b.spec_lt(a),
        a == b ==> !a.spec_lt(b) && !b.spec_lt(a),
        b.spec_lt(a) ==> !(a == b) && !a.spec_lt(b),
{
}

/// The sequence order is transitive.
pub proof fn lemma_sequence_transitive(
    a: CrdtWritableSequence,
    b: CrdtWritableSequence,
    c: CrdtWritableSequence,
)
    requires
        a.spec_lt(b),
        b.spec_lt(c),
    ensures
        a.spec_lt(c),
{
}

/// A local write strictly advances the sequence stamp it read.
pub proof fn lemma_sequence_next_greater(a: CrdtWritableSequence, author: Author)
    requires
        a.writable.generation < i32::MAX,
    ensures
        a.spec_lt(a.spec_next(author)),
{
}

/// Grow-only stamp. It records the author that inserted the row, but all
/// add-only stamps rank equal: a row, once present, is never superseded.
#[derive(Clone, Copy, Debug, PartialEq, Eq, Structural)]
pub struct CrdtAddOnly(pub Author);

impl CrdtAddOnly {
    /// No add-only stamp is ever strictly greater than another.
    pub open spec fn spec_lt(self, other: CrdtAddOnly) -> bool {
        false
    }

    pub open spec fn spec_next(self, author: Author) -> CrdtAddOnly {
        self
    }

    pub fn lt(&self, other: &CrdtAddOnly) -> (r: bool)
        ensures
            r == self.spec_lt(*other),
    {
        false
    }

    pub fn next(&self, author: Author) -> (r: CrdtAddOnly)
        ensures
            r == self.spec_next(author),
    {
        *self
    }
}

} // verus!
