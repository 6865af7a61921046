//! The system transaction that marks the beginning of a rollback.

use crate::base_types::{CheckpointSequenceNumber, EpochId};
use vstd::prelude::*;

verus! {

/// The beginning of a rollback, as it is shown to those who ask.
#[derive(Clone, Copy, Debug, PartialEq, Eq)]
pub struct RollbackPrologueTransaction {
    pub epoch: EpochId,
    pub checkpoint_sequence_number: CheckpointSequenceNumber,
    pub timestamp_ms: u64,
    /// The checkpoint at which this was looked at.
    pub checkpoint_viewed_at: CheckpointSequenceNumber,
}

/// Which epoch to look up, and at which checkpoint.
#[derive(Clone, Copy, Debug, PartialEq, Eq)]
pub struct EpochQuery {
    pub epoch: Option<EpochId>,
    pub checkpoint_viewed_at: Option<CheckpointSequenceNumber>,
}

/// The signed number with the same bits.
pub open spec fn signed(n: u64) -> int {
    if n <= i64::MAX {
        n as int
    } else {
        n - 0x1_0000_0000_0000_0000
    }
}

impl RollbackPrologueTransaction {
    /// How to look up the epoch that is rolled back to, as of the checkpoint of the viewer.
    pub fn epoch(&self) -> (r: EpochQuery)
        ensures
            r.epoch == Some(self.epoch),
            r.checkpoint_viewed_at == Some(self.checkpoint_viewed_at),
    {
        EpochQuery {
            epoch: Some(self.epoch),
            checkpoint_viewed_at: Some(self.checkpoint_viewed_at),
        }
    }

    /// The checkpoint of the rollback.
    pub fn checkpoint_sequence_number(&self) -> (r: CheckpointSequenceNumber)
        ensures
            r == self.checkpoint_sequence_number,
    {
        self.checkpoint_sequence_number
    }

    /// The time of the rollback in milliseconds since 1970.
    pub fn timestamp(&self) -> (r: i64)
        ensures
            r == signed(self.timestamp_ms),
    {
        let n: u64 = self.timestamp_ms;
        assert(n <= 0x7fff_ffff_ffff_ffff ==> n as i64 == n) by (bit_vector);
        assert(n > 0x7fff_ffff_ffff_ffff ==> n as i64 == n - 0x1_0000_0000_0000_0000) by (bit_vector);
        #[verifier::truncate]
        (n as i64)
    }
}

/// A signed number with the same bits fits into sixty-four bits, and differs by a multiple of two to
/// the sixty-fourth, so it is the number itself where that fits.
pub proof fn signed_numbers_keep_their_bits(n: u64)
    ensures
        i64::MIN <= signed(n) <= i64::MAX,
        (n - signed(n)) % 0x1_0000_0000_0000_0000int == 0,
        n <= i64::MAX ==> signed(n) == n,
        signed(n) < 0 <==> n > i64::MAX,
{
}

} // verus!
