//! Writes that are collected and then take effect together.

use crate::base_types::{
    CheckpointSequenceNumber, EpochId, ObjectContentDigest, ObjectKey, ObjectRef,
    TransactionDigest, TransactionEffectsDigest, TransactionEventsDigest,
};
use crate::rows::{Accumulator, EpochStartConfiguration, LockDetailsWrapper};
use crate::state::TablesState;
use crate::store_types::StoreObjectWrapper;
use vstd::prelude::*;

verus! {

/// One write to one table. A range runs from its first key up to, and without, its last.
#[derive(Debug, PartialEq, Eq, Hash)]
pub enum BatchOp {
    InsertObject(ObjectKey, StoreObjectWrapper),
    DeleteObject(ObjectKey),
    DeleteIndirectObject(ObjectContentDigest),
    InsertLock(ObjectRef, Option<LockDetailsWrapper>),
    DeleteLockRange(ObjectRef, ObjectRef),
    DeleteTransaction(TransactionDigest),
    DeleteEffects(TransactionEffectsDigest),
    DeleteExecutedEffects(TransactionDigest),
    DeleteExecutedCheckpoint(TransactionDigest),
    DeleteEventRange((TransactionEventsDigest, usize), (TransactionEventsDigest, usize)),
    InsertRootStateHash(EpochId, (CheckpointSequenceNumber, Accumulator)),
    DeleteRootStateHash(EpochId),
    InsertEpochStartConfiguration(EpochStartConfiguration),
    InsertPrunedCheckpoint(CheckpointSequenceNumber),
    DeleteMarker(EpochId, ObjectKey),
}

impl TablesState {
    /// The tables after one write.
    pub open spec fn apply(self, op: BatchOp) -> TablesState {
        match op {
            BatchOp::InsertObject(key, row) => TablesState {
                objects: self.objects.insert(key, row),
                ..self
            },
            BatchOp::DeleteObject(key) => TablesState { objects: self.objects.remove(key), ..self },
            BatchOp::DeleteIndirectObject(digest) => TablesState {
                indirect_move_objects: self.indirect_move_objects.remove(digest),
                ..self
            },
            BatchOp::InsertLock(object, lock) => TablesState {
                owned_object_transaction_locks: self.owned_object_transaction_locks.insert(
                    object,
                    lock,
                ),
                ..self
            },
            BatchOp::DeleteLockRange(from, to) => TablesState {
                owned_object_transaction_locks: crate::ordered_table::without_range(
                    self.owned_object_transaction_locks,
                    from,
                    to,
                ),
                ..self
            },
            BatchOp::DeleteTransaction(tx) => TablesState {
                transactions: self.transactions.remove(tx),
                ..self
            },
            BatchOp::DeleteEffects(digest) => TablesState {
                effects: self.effects.remove(digest),
                ..self
            },
            BatchOp::DeleteExecutedEffects(tx) => TablesState {
                executed_effects: self.executed_effects.remove(tx),
                ..self
            },
            BatchOp::DeleteExecutedCheckpoint(tx) => TablesState {
                executed_transactions_to_checkpoint:
                    self.executed_transactions_to_checkpoint.remove(tx),
                ..self
            },
            BatchOp::DeleteEventRange(from, to) => TablesState {
                events: crate::ordered_table::without_range(self.events, from, to),
                ..self
            },
            BatchOp::InsertRootStateHash(epoch, row) => self.with_root_state(epoch, row),
            BatchOp::DeleteRootStateHash(epoch) => TablesState {
                root_state_hash_by_epoch: self.root_state_hash_by_epoch.remove(epoch),
                ..self
            },
            BatchOp::InsertEpochStartConfiguration(configuration) => TablesState {
                epoch_start_configuration: self.epoch_start_configuration.insert(
                    (),
                    configuration,
                ),
                ..self
            },
            BatchOp::InsertPrunedCheckpoint(number) => TablesState {
                pruned_checkpoint: self.pruned_checkpoint.insert((), number),
                ..self
            },
            BatchOp::DeleteMarker(epoch, key) => TablesState {
                object_per_epoch_marker_table: self.object_per_epoch_marker_table.remove(
                    (epoch, key),
                ),
                ..self
            },
        }
    }

    /// The tables after several writes, one after the other.
    pub open spec fn apply_all(self, ops: Seq<BatchOp>) -> TablesState
        decreases ops.len(),
    {
        if ops.len() == 0 {
            self
        } else {
            self.apply_all(ops.drop_last()).apply(ops.last())
        }
    }
}

/// Writes in two groups are the first group, then the second.
pub proof fn apply_all_concat(state: TablesState, a: Seq<BatchOp>, b: Seq<BatchOp>)
    ensures
        state.apply_all(a + b) == state.apply_all(a).apply_all(b),
    decreases b.len(),
{
    if b.len() == 0 {
        assert(a + b =~= a);
    } else {
        apply_all_concat(state, a, b.drop_last());
        assert((a + b).drop_last() =~= a + b.drop_last());
        assert((a + b).last() == b.last());
    }
}

/// Collected writes, in the order in which they take effect.
#[derive(Debug, PartialEq, Eq)]
pub struct Batch {
    ops: Vec<BatchOp>,
}

impl View for Batch {
    type V = Seq<BatchOp>;

    closed spec fn view(&self) -> Seq<BatchOp> {
        self.ops@
    }
}

impl Batch {
    /// A batch without writes.
    pub fn new() -> (r: Self)
        ensures
            r@ == Seq::<BatchOp>::empty(),
    {
        Batch { ops: Vec::new() }
    }

    /// Adds a write after the others.
    pub fn push(&mut self, op: BatchOp)
        ensures
            final(self)@ == old(self)@.push(op),
    {
        self.ops.push(op);
    }

    /// The number of writes.
    pub fn len(&self) -> (r: usize)
        ensures
            r == self@.len(),
    {
        self.ops.len()
    }

    /// One of the writes.
    pub fn op(&self, position: usize) -> (r: &BatchOp)
        requires
            position < self@.len(),
        ensures
            *r == self@[position as int],
    {
        &self.ops[position]
    }
}

} // verus!
