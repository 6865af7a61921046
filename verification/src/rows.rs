//! The values that the tables besides the objects table hold.

use crate::base_types::{
    Blob, EpochId, ObjectRef, Owner, TransactionDigest, TransactionEventsDigest,
};
use std::sync::Arc;
use vstd::prelude::*;

verus! {

/// What the execution of a transaction did.
#[derive(Debug, PartialEq, Eq, Hash)]
pub struct TransactionEffects {
    pub transaction_digest: TransactionDigest,
    pub executed_epoch: EpochId,
    pub created: Arc<Vec<(ObjectRef, Owner)>>,
    pub mutated: Arc<Vec<(ObjectRef, Owner)>>,
    pub unwrapped: Arc<Vec<(ObjectRef, Owner)>>,
    pub deleted: Arc<Vec<ObjectRef>>,
    pub wrapped: Arc<Vec<ObjectRef>>,
    pub events_digest: Option<TransactionEventsDigest>,
}

impl Clone for TransactionEffects {
    fn clone(&self) -> (r: Self)
        ensures
            r == *self,
    {
        TransactionEffects {
            transaction_digest: self.transaction_digest,
            executed_epoch: self.executed_epoch,
            created: self.created.clone(),
            mutated: self.mutated.clone(),
            unwrapped: self.unwrapped.clone(),
            deleted: self.deleted.clone(),
            wrapped: self.wrapped.clone(),
            events_digest: self.events_digest,
        }
    }
}

/// A transaction that is known to be executable.
#[derive(Debug, PartialEq, Eq, Hash)]
pub struct TrustedTransaction {
    pub data: Blob,
}

impl Clone for TrustedTransaction {
    fn clone(&self) -> (r: Self)
        ensures
            r == *self,
    {
        TrustedTransaction { data: self.data.clone() }
    }
}

/// An event that a transaction emitted.
#[derive(Debug, PartialEq, Eq, Hash)]
pub struct Event {
    pub data: Blob,
}

/// The accumulated digest of all live objects.
#[derive(Debug, PartialEq, Eq, Hash)]
pub struct Accumulator {
    pub data: Blob,
}

impl Clone for Accumulator {
    fn clone(&self) -> (r: Self)
        ensures
            r == *self,
    {
        Accumulator { data: self.data.clone() }
    }
}

/// The transaction that an object version is locked for.
#[derive(Clone, Copy, Debug, PartialEq, Eq, Hash)]
pub struct LockDetails {
    pub epoch: EpochId,
    pub tx_digest: TransactionDigest,
}

/// A lock, tagged with the version of its layout.
#[derive(Clone, Copy, Debug, PartialEq, Eq, Hash)]
pub enum LockDetailsWrapper {
    V1(LockDetails),
}

/// What happened to an object in an epoch.
#[derive(Clone, Copy, Debug, PartialEq, Eq, Hash)]
pub enum MarkerValue {
    Received,
    OwnedDeleted,
    SharedDeleted(TransactionDigest),
}

/// The state of the system at the start of an epoch.
#[derive(Debug, PartialEq, Eq, Hash)]
pub struct EpochStartSystemState {
    pub epoch: EpochId,
    pub data: Blob,
}

/// The parameters of the system that are fixed at the start of an epoch.
#[derive(Debug, PartialEq, Eq, Hash)]
pub struct EpochStartConfiguration {
    pub epoch_start_state: EpochStartSystemState,
}

impl Clone for EpochStartConfiguration {
    fn clone(&self) -> (r: Self)
        ensures
            r == *self,
    {
        EpochStartConfiguration {
            epoch_start_state: EpochStartSystemState {
                epoch: self.epoch_start_state.epoch,
                data: self.epoch_start_state.data.clone(),
            },
        }
    }
}

} // verus!
