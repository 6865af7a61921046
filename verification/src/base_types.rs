//! Plain identifiers and values shared by every table.

use std::sync::Arc;
use vstd::prelude::*;

verus! {

/// An epoch of the network.
pub type EpochId = u64;

/// The position of a checkpoint in the chain of checkpoints.
pub type CheckpointSequenceNumber = u64;

/// Thirty-two bytes read as one big-endian number: `hi` holds the first sixteen bytes, `lo` the
/// last sixteen, so that comparing the numbers compares the bytes from left to right.
#[derive(Clone, Copy, Debug, PartialEq, Eq, PartialOrd, Ord, Hash, Structural)]
pub struct Bytes32 {
    pub hi: u128,
    pub lo: u128,
}

/// The identity of an object.
#[derive(Clone, Copy, Debug, PartialEq, Eq, PartialOrd, Ord, Hash, Structural)]
pub struct ObjectID(pub Bytes32);

/// The version of an object.
#[derive(Clone, Copy, Debug, PartialEq, Eq, PartialOrd, Ord, Hash, Structural)]
pub struct SequenceNumber(pub u64);

/// The digest of an object, or one of the two markers that stand for an object that is gone.
#[derive(Clone, Copy, Debug, PartialEq, Eq, PartialOrd, Ord, Hash, Structural)]
pub struct ObjectDigest(pub Bytes32);

/// The digest under which the contents of an indirectly stored object are kept.
#[derive(Clone, Copy, Debug, PartialEq, Eq, PartialOrd, Ord, Hash, Structural)]
pub struct ObjectContentDigest(pub Bytes32);

/// The digest of a transaction.
#[derive(Clone, Copy, Debug, PartialEq, Eq, PartialOrd, Ord, Hash, Structural)]
pub struct TransactionDigest(pub Bytes32);

/// The digest of the effects of a transaction.
#[derive(Clone, Copy, Debug, PartialEq, Eq, PartialOrd, Ord, Hash, Structural)]
pub struct TransactionEffectsDigest(pub Bytes32);

/// The digest of the events that a transaction emitted.
#[derive(Clone, Copy, Debug, PartialEq, Eq, PartialOrd, Ord, Hash, Structural)]
pub struct TransactionEventsDigest(pub Bytes32);

/// The address of an account.
#[derive(Clone, Copy, Debug, PartialEq, Eq, PartialOrd, Ord, Hash, Structural)]
pub struct MgoAddress(pub Bytes32);

/// One version of one object: the key of the objects table.
#[derive(Clone, Copy, Debug, PartialEq, Eq, PartialOrd, Ord, Hash, Structural)]
pub struct ObjectKey(pub ObjectID, pub SequenceNumber);

/// One version of one object together with its digest.
pub type ObjectRef = (ObjectID, SequenceNumber, ObjectDigest);

/// Who may use an object.
#[derive(Clone, Copy, Debug, PartialEq, Eq, Hash, Structural)]
pub enum Owner {
    AddressOwner(MgoAddress),
    ObjectOwner(MgoAddress),
    Shared { initial_shared_version: SequenceNumber },
    Immutable,
}

/// The largest version that a lookup by object identity considers.
pub const MAX_VERSION: u64 = 0x7fff_ffff_ffff_ffff;

/// The version of a freshly created object.
pub const START_VERSION: u64 = 1;

/// The largest value of one half of a digest.
pub const ALL_ONES: u128 = 0xffff_ffff_ffff_ffff_ffff_ffff_ffff_ffff;

/// One half of the digest that marks a deleted object (every byte is 99).
pub const DELETED_HALF: u128 = 0x6363_6363_6363_6363_6363_6363_6363_6363;

/// One half of the digest that marks a wrapped object (every byte is 88).
pub const WRAPPED_HALF: u128 = 0x5858_5858_5858_5858_5858_5858_5858_5858;

/// The smallest digest.
pub open spec fn digest_min() -> ObjectDigest {
    ObjectDigest(Bytes32 { hi: 0, lo: 0 })
}

/// The largest digest.
pub open spec fn digest_max() -> ObjectDigest {
    ObjectDigest(Bytes32 { hi: ALL_ONES, lo: ALL_ONES })
}

/// The digest that stands for a deleted object.
pub open spec fn digest_deleted() -> ObjectDigest {
    ObjectDigest(Bytes32 { hi: DELETED_HALF, lo: DELETED_HALF })
}

/// The digest that stands for a wrapped object.
pub open spec fn digest_wrapped() -> ObjectDigest {
    ObjectDigest(Bytes32 { hi: WRAPPED_HALF, lo: WRAPPED_HALF })
}

impl ObjectDigest {
    /// The smallest digest.
    pub fn min_digest() -> (r: Self)
        ensures
            r == digest_min(),
    {
        ObjectDigest(Bytes32 { hi: 0, lo: 0 })
    }

    /// The largest digest.
    pub fn max_digest() -> (r: Self)
        ensures
            r == digest_max(),
    {
        ObjectDigest(Bytes32 { hi: ALL_ONES, lo: ALL_ONES })
    }

    /// The digest that stands for a deleted object.
    pub fn deleted() -> (r: Self)
        ensures
            r == digest_deleted(),
    {
        ObjectDigest(Bytes32 { hi: DELETED_HALF, lo: DELETED_HALF })
    }

    /// The digest that stands for a wrapped object.
    pub fn wrapped() -> (r: Self)
        ensures
            r == digest_wrapped(),
    {
        ObjectDigest(Bytes32 { hi: WRAPPED_HALF, lo: WRAPPED_HALF })
    }
}

/// The digest that stands for the transaction that nothing came before.
pub open spec fn genesis_digest() -> TransactionDigest {
    TransactionDigest(Bytes32 { hi: 0, lo: 0 })
}

impl TransactionDigest {
    /// The digest that stands for the transaction that nothing came before.
    pub fn genesis_marker() -> (r: Self)
        ensures
            r == genesis_digest(),
    {
        TransactionDigest(Bytes32 { hi: 0, lo: 0 })
    }
}

impl SequenceNumber {
    /// The version with this number.
    pub fn from_u64(number: u64) -> (r: Self)
        ensures
            r.0 == number,
    {
        SequenceNumber(number)
    }

    /// The version right after this one.
    pub fn next(&self) -> (r: Self)
        requires
            self.0 < u64::MAX,
        ensures
            r.0 == self.0 + 1,
    {
        SequenceNumber(self.0 + 1)
    }
}

impl ObjectKey {
    /// The key of the version that a reference names.
    pub fn from_ref(reference: &ObjectRef) -> (r: Self)
        ensures
            r == key_of_ref(*reference),
    {
        ObjectKey(reference.0, reference.1)
    }
}

/// The key of the version that a reference names.
pub open spec fn key_of_ref(reference: ObjectRef) -> ObjectKey {
    ObjectKey(reference.0, reference.1)
}

/// Bytes that the tables carry without looking inside, shared between copies.
#[derive(Debug, PartialEq, Eq, Hash)]
pub struct Blob {
    pub bytes: Arc<Vec<u8>>,
}

impl Clone for Blob {
    fn clone(&self) -> (r: Self)
        ensures
            r == *self,
    {
        Blob { bytes: self.bytes.clone() }
    }
}

impl Blob {
    /// Takes over the given bytes.
    pub fn new(bytes: Vec<u8>) -> (r: Self)
        ensures
            *r.bytes == bytes,
    {
        Blob { bytes: Arc::new(bytes) }
    }
}

} // verus!
