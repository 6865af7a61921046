//! The order of the keys of each table.

use crate::base_types::{
    Bytes32, EpochId, ObjectContentDigest, ObjectDigest, ObjectID, ObjectKey, SequenceNumber,
    TransactionDigest, TransactionEffectsDigest, TransactionEventsDigest,
};
use crate::ordered_table::TableKey;
use vstd::prelude::*;

verus! {

/// The number that thirty-two bytes spell.
pub open spec fn bytes_rank(b: Bytes32) -> int {
    b.hi * 0x1_0000_0000_0000_0000_0000_0000_0000_0000int + b.lo
}

/// One more than the largest number that thirty-two bytes spell.
pub open spec fn bytes_span() -> int {
    0x1_0000_0000_0000_0000_0000_0000_0000_0000_0000_0000_0000_0000_0000_0000_0000_0000int
}

/// One more than the largest rank of an object version.
pub open spec fn object_key_span() -> int {
    0x1_0000_0000_0000_0000_0000_0000_0000_0000_0000_0000_0000_0000_0000_0000_0000_0000_0000_0000_0000_0000int
}

fn bytes_before(a: &Bytes32, b: &Bytes32) -> (r: bool)
    ensures
        r == (bytes_rank(*a) < bytes_rank(*b)),
{
    a.hi < b.hi || (a.hi == b.hi && a.lo < b.lo)
}

proof fn lemma_bytes_rank(a: Bytes32, b: Bytes32)
    ensures
        bytes_rank(a) == bytes_rank(b) ==> a == b,
        0 <= bytes_rank(a) < bytes_span(),
{
}

proof fn lemma_object_key_rank(k: ObjectKey)
    ensures
        0 <= k.rank() < object_key_span(),
{
    lemma_bytes_rank(k.0.0, k.0.0);
}

/// Numbers made of two parts compare by the first part, then by the second.
proof fn lemma_two_parts(a0: int, a1: int, b0: int, b1: int, span: int)
    requires
        0 <= a1 < span,
        0 <= b1 < span,
    ensures
        a0 * span + a1 < b0 * span + b1 <==> (a0 < b0 || (a0 == b0 && a1 < b1)),
        a0 * span + a1 == b0 * span + b1 ==> a0 == b0 && a1 == b1,
{
    if a0 < b0 {
        assert(a0 * span + span <= b0 * span) by (nonlinear_arith)
            requires
                a0 < b0,
                0 < span,
        ;
    } else if b0 < a0 {
        assert(b0 * span + span <= a0 * span) by (nonlinear_arith)
            requires
                b0 < a0,
                0 < span,
        ;
    }
}

/// The only key of a table with one row.
impl TableKey for () {
    open spec fn rank(self) -> int {
        0
    }

    proof fn rank_is_injective(a: Self, b: Self) {
    }

    fn before(&self, _other: &Self) -> (r: bool) {
        false
    }
}

impl TableKey for u64 {
    open spec fn rank(self) -> int {
        self as int
    }

    proof fn rank_is_injective(a: Self, b: Self) {
    }

    fn before(&self, other: &Self) -> (r: bool) {
        *self < *other
    }
}

impl TableKey for ObjectContentDigest {
    open spec fn rank(self) -> int {
        bytes_rank(self.0)
    }

    proof fn rank_is_injective(a: Self, b: Self) {
        lemma_bytes_rank(a.0, b.0);
    }

    fn before(&self, other: &Self) -> (r: bool) {
        bytes_before(&self.0, &other.0)
    }
}

impl TableKey for TransactionDigest {
    open spec fn rank(self) -> int {
        bytes_rank(self.0)
    }

    proof fn rank_is_injective(a: Self, b: Self) {
        lemma_bytes_rank(a.0, b.0);
    }

    fn before(&self, other: &Self) -> (r: bool) {
        bytes_before(&self.0, &other.0)
    }
}

impl TableKey for TransactionEffectsDigest {
    open spec fn rank(self) -> int {
        bytes_rank(self.0)
    }

    proof fn rank_is_injective(a: Self, b: Self) {
        lemma_bytes_rank(a.0, b.0);
    }

    fn before(&self, other: &Self) -> (r: bool) {
        bytes_before(&self.0, &other.0)
    }
}

/// Object versions are ordered by object first, then by version.
impl TableKey for ObjectKey {
    open spec fn rank(self) -> int {
        bytes_rank(self.0.0) * 0x1_0000_0000_0000_0000int + self.1.0
    }

    proof fn rank_is_injective(a: Self, b: Self) {
        lemma_bytes_rank(a.0.0, b.0.0);
    }

    fn before(&self, other: &Self) -> (r: bool) {
        proof {
            lemma_bytes_rank(self.0.0, other.0.0);
            lemma_bytes_rank(other.0.0, self.0.0);
        }
        bytes_before(&self.0.0, &other.0.0) || (self.0 == other.0 && self.1.0 < other.1.0)
    }
}

/// References are ordered by object, then by version, then by digest.
impl TableKey for (ObjectID, SequenceNumber, ObjectDigest) {
    open spec fn rank(self) -> int {
        ObjectKey(self.0, self.1).rank() * bytes_span() + bytes_rank(self.2.0)
    }

    proof fn rank_is_injective(a: Self, b: Self) {
        lemma_bytes_rank(a.2.0, b.2.0);
        lemma_bytes_rank(b.2.0, a.2.0);
        ObjectKey::rank_is_injective(ObjectKey(a.0, a.1), ObjectKey(b.0, b.1));
    }

    fn before(&self, other: &Self) -> (r: bool) {
        proof {
            lemma_bytes_rank(self.2.0, other.2.0);
            lemma_bytes_rank(other.2.0, self.2.0);
            ObjectKey::rank_is_injective(
                ObjectKey(self.0, self.1),
                ObjectKey(other.0, other.1),
            );
        }
        let mine = ObjectKey(self.0, self.1);
        let others = ObjectKey(other.0, other.1);
        mine.before(&others) || (mine == others && bytes_before(&self.2.0, &other.2.0))
    }
}

/// Events are ordered by the digest of the group that they belong to, then by their index in it.
impl TableKey for (TransactionEventsDigest, usize) {
    open spec fn rank(self) -> int {
        bytes_rank(self.0.0) * 0x1_0000_0000_0000_0000int + self.1
    }

    proof fn rank_is_injective(a: Self, b: Self) {
        lemma_bytes_rank(a.0.0, b.0.0);
    }

    fn before(&self, other: &Self) -> (r: bool) {
        proof {
            lemma_bytes_rank(self.0.0, other.0.0);
            lemma_bytes_rank(other.0.0, self.0.0);
        }
        bytes_before(&self.0.0, &other.0.0) || (self.0 == other.0 && self.1 < other.1)
    }
}

/// Markers are ordered by epoch, then by object version.
impl TableKey for (EpochId, ObjectKey) {
    open spec fn rank(self) -> int {
        self.0 * object_key_span() + self.1.rank()
    }

    proof fn rank_is_injective(a: Self, b: Self) {
        lemma_object_key_rank(a.1);
        lemma_object_key_rank(b.1);
        lemma_two_parts(a.0 as int, a.1.rank(), b.0 as int, b.1.rank(), object_key_span());
        ObjectKey::rank_is_injective(a.1, b.1);
    }

    fn before(&self, other: &Self) -> (r: bool) {
        proof {
            lemma_object_key_rank(self.1);
            lemma_object_key_rank(other.1);
            lemma_two_parts(
                self.0 as int,
                self.1.rank(),
                other.0 as int,
                other.1.rank(),
                object_key_span(),
            );
        }
        self.0 < other.0 || (self.0 == other.0 && self.1.before(&other.1))
    }
}

/// The keys of one object are ordered by version, and lie apart from those of every other object.
pub proof fn object_keys_are_grouped(a: ObjectKey, b: ObjectKey)
    ensures
        a.0 == b.0 ==> (a.rank() < b.rank() <==> a.1.0 < b.1.0),
        a.0 != b.0 && a.rank() < b.rank() ==> bytes_rank(a.0.0) < bytes_rank(b.0.0),
{
    lemma_bytes_rank(a.0.0, b.0.0);
}

/// The locks of one object version are ordered by digest, and lie apart from those of every other
/// object version.
pub proof fn lock_keys_are_grouped(
    a: (ObjectID, SequenceNumber, ObjectDigest),
    b: (ObjectID, SequenceNumber, ObjectDigest),
)
    ensures
        a.0 == b.0 && a.1 == b.1 ==> (a.rank() < b.rank() <==> bytes_rank(a.2.0) < bytes_rank(
            b.2.0,
        )),
        !(a.0 == b.0 && a.1 == b.1) && a.rank() < b.rank() ==> ObjectKey(a.0, a.1).rank()
            < ObjectKey(b.0, b.1).rank(),
        0 <= bytes_rank(a.2.0) < bytes_span(),
        bytes_rank(a.2.0) == bytes_span() - 1 <==> a.2.0.hi == u128::MAX && a.2.0.lo == u128::MAX,
{
    lemma_bytes_rank(a.2.0, b.2.0);
    lemma_bytes_rank(b.2.0, a.2.0);
    ObjectKey::rank_is_injective(ObjectKey(a.0, a.1), ObjectKey(b.0, b.1));
}

/// The events of one group are ordered by index, and lie apart from those of every other group.
pub proof fn event_keys_are_grouped(
    a: (TransactionEventsDigest, usize),
    b: (TransactionEventsDigest, usize),
)
    ensures
        a.0 == b.0 ==> (a.rank() < b.rank() <==> a.1 < b.1),
        a.0 != b.0 && a.rank() < b.rank() ==> bytes_rank(a.0.0) < bytes_rank(b.0.0),
{
    lemma_bytes_rank(a.0.0, b.0.0);
}

} // verus!
