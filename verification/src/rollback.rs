//! Rolling the tables back to the end of an earlier epoch.

use crate::base_types::{
    EpochId, ObjectContentDigest, ObjectDigest, ObjectKey, ObjectRef, Owner, TransactionDigest,
    TransactionEffectsDigest, TransactionEventsDigest,
};
use crate::batch::{Batch, BatchOp};
use crate::text::decimal_text;
use crate::error::{MgoError, MgoResult};
use crate::state::TablesState;
use crate::store_types::{StoreData, StoreObject};
use crate::tables::AuthorityPerpetualTables;
use vstd::prelude::*;
use vstd::string::StringExecFns;

verus! {

/// How much a rollback concerns.
#[derive(Debug, PartialEq, Eq)]
pub struct RollbackStatistics {
    pub target_epoch: EpochId,
    pub epochs_to_remove: usize,
    pub transactions_to_remove: usize,
    pub objects_to_remove: usize,
    pub markers_to_remove: usize,
}

impl Clone for RollbackStatistics {
    fn clone(&self) -> (r: Self)
        ensures
            r == *self,
    {
        RollbackStatistics {
            target_epoch: self.target_epoch,
            epochs_to_remove: self.epochs_to_remove,
            transactions_to_remove: self.transactions_to_remove,
            objects_to_remove: self.objects_to_remove,
            markers_to_remove: self.markers_to_remove,
        }
    }
}

impl RollbackStatistics {
    /// The statistics in one line.
    pub open spec fn summary_text(self) -> Seq<char> {
        "Rollback to epoch "@ + crate::text::decimal(self.target_epoch as nat) + ": "@
            + crate::text::decimal(self.epochs_to_remove as nat) + " epochs, "@
            + crate::text::decimal(self.transactions_to_remove as nat) + " transactions, "@
            + crate::text::decimal(self.objects_to_remove as nat) + " objects, "@
            + crate::text::decimal(self.markers_to_remove as nat) + " markers removed"@
    }

    /// The statistics in one line.
    pub fn summary(&self) -> (r: String)
        ensures
            r@ == self.summary_text(),
    {
        let mut text = String::from_str("Rollback to epoch ");
        text.append(decimal_text(self.target_epoch).as_str());
        text.append(": ");
        text.append(decimal_text(self.epochs_to_remove as u64).as_str());
        text.append(" epochs, ");
        text.append(decimal_text(self.transactions_to_remove as u64).as_str());
        text.append(" transactions, ");
        text.append(decimal_text(self.objects_to_remove as u64).as_str());
        text.append(" objects, ");
        text.append(decimal_text(self.markers_to_remove as u64).as_str());
        text.append(" markers removed");
        text
    }
}

/// The text of the refusal to roll back to an epoch that has not come.
pub open spec fn future_epoch_text(target_epoch: EpochId, max_epoch: EpochId) -> Seq<char> {
    "Cannot rollback to future epoch "@ + crate::text::decimal(target_epoch as nat)
        + " in AuthorityStore. Maximum existing epoch is "@ + crate::text::decimal(
        max_epoch as nat,
    )
}

/// The versions that references name.
pub open spec fn versions_named(references: Seq<(ObjectRef, Owner)>) -> Seq<ObjectKey> {
    references.map_values(|r: (ObjectRef, Owner)| crate::base_types::key_of_ref(r.0))
}

impl TablesState {
    /// `epoch` is the highest epoch on record: that of a root state or of effects, or zero.
    pub open spec fn is_highest_epoch(self, epoch: EpochId) -> bool {
        &&& epoch == 0 || self.root_state_hash_by_epoch.contains_key(epoch) || exists|
            d: TransactionEffectsDigest,
        | #[trigger]
            self.effects.contains_key(d) && self.effects[d].executed_epoch == epoch
        &&& forall|e: EpochId| #[trigger]
            self.root_state_hash_by_epoch.contains_key(e) ==> e <= epoch
        &&& forall|d: TransactionEffectsDigest| #[trigger]
            self.effects.contains_key(d) ==> self.effects[d].executed_epoch <= epoch
    }

    /// The highest epoch on record.
    pub open spec fn highest_epoch(self) -> EpochId {
        choose|epoch: EpochId| self.is_highest_epoch(epoch)
    }

    /// The epochs after `target` with a root state, in order.
    pub open spec fn late_epochs(self, target: EpochId) -> Seq<EpochId> {
        crate::ordered_table::ordered_keys(self.root_state_hash_by_epoch).filter(
            |epoch: EpochId| epoch > target,
        )
    }

    /// The markers of epochs after `target`, in order.
    pub open spec fn late_markers(self, target: EpochId) -> Seq<(EpochId, ObjectKey)> {
        crate::ordered_table::ordered_keys(self.object_per_epoch_marker_table).filter(
            |marker: (EpochId, ObjectKey)| marker.0 > target,
        )
    }

    /// The effects of epochs after `target`, in order.
    pub open spec fn late_effects(self, target: EpochId) -> Seq<TransactionEffectsDigest> {
        crate::ordered_table::ordered_keys(self.effects).filter(
            |digest: TransactionEffectsDigest| self.effects[digest].executed_epoch > target,
        )
    }

    /// The transactions with a checkpoint in an epoch after `target`, in order.
    pub open spec fn late_checkpointed(self, target: EpochId) -> Seq<TransactionDigest> {
        crate::ordered_table::ordered_keys(self.executed_transactions_to_checkpoint).filter(
            |tx: TransactionDigest| self.executed_transactions_to_checkpoint[tx].0 > target,
        )
    }

    /// The transactions that are not `listed` yet and were executed with these effects, in order.
    pub open spec fn unlisted_executors(
        self,
        listed: Seq<TransactionDigest>,
        digest: TransactionEffectsDigest,
    ) -> Seq<TransactionDigest> {
        crate::ordered_table::ordered_keys(self.executed_effects).filter(
            self.unlisted_with(listed, digest),
        )
    }

    /// Whether a transaction is not `listed` yet and was executed with these effects.
    pub open spec fn unlisted_with(
        self,
        listed: Seq<TransactionDigest>,
        digest: TransactionEffectsDigest,
    ) -> spec_fn(TransactionDigest) -> bool {
        |tx: TransactionDigest| self.executed_effects[tx] == digest && !listed.contains(tx)
    }

    /// The list with the first unlisted transaction that was executed with these effects, if any.
    pub open spec fn with_executor(
        self,
        listed: Seq<TransactionDigest>,
        digest: TransactionEffectsDigest,
    ) -> Seq<TransactionDigest> {
        let executors = self.unlisted_executors(listed, digest);
        if executors.len() > 0 {
            listed.push(executors[0])
        } else {
            listed
        }
    }

    /// The list with one transaction for each of these effects, as far as there is one.
    pub open spec fn with_executors(
        self,
        listed: Seq<TransactionDigest>,
        digests: Seq<TransactionEffectsDigest>,
    ) -> Seq<TransactionDigest>
        decreases digests.len(),
    {
        if digests.len() == 0 {
            listed
        } else {
            self.with_executor(self.with_executors(listed, digests.drop_last()), digests.last())
        }
    }

    /// The transactions that a rollback to `target` removes: those with a checkpoint in a later
    /// epoch, then those executed with effects of a later epoch.
    pub open spec fn transactions_after(self, target: EpochId) -> Seq<TransactionDigest> {
        self.with_executors(self.late_checkpointed(target), self.late_effects(target))
    }

    /// The digests of the effects with which these transactions were executed.
    pub open spec fn executed_digests(self, txs: Seq<TransactionDigest>) -> Seq<
        TransactionEffectsDigest,
    > {
        crate::seq_facts::flat(txs, |tx: TransactionDigest| self.executed_digest(tx))
    }

    /// The digest of the effects with which a transaction was executed, if it was.
    pub open spec fn executed_digest(self, tx: TransactionDigest) -> Seq<TransactionEffectsDigest> {
        if self.executed_effects.contains_key(tx) {
            seq![self.executed_effects[tx]]
        } else {
            Seq::empty()
        }
    }

    /// The digests of the events that these transactions emitted.
    pub open spec fn emitted_digests(self, txs: Seq<TransactionDigest>) -> Seq<
        TransactionEventsDigest,
    > {
        crate::seq_facts::flat(txs, |tx: TransactionDigest| self.emitted_digest(tx))
    }

    /// The digest of the events that a transaction emitted, if it did.
    pub open spec fn emitted_digest(self, tx: TransactionDigest) -> Seq<TransactionEventsDigest> {
        match self.effects_of(tx) {
            Some(effects) => match effects.events_digest {
                Some(digest) => seq![digest],
                None => Seq::empty(),
            },
            None => Seq::empty(),
        }
    }

    /// The object versions that a transaction created, mutated or unwrapped.
    pub open spec fn outputs(self, tx: TransactionDigest) -> Seq<ObjectKey> {
        match self.effects_of(tx) {
            Some(effects) => versions_named(effects.created@) + versions_named(effects.mutated@)
                + versions_named(effects.unwrapped@),
            None => Seq::empty(),
        }
    }

    /// The object versions that these transactions created, mutated or unwrapped.
    pub open spec fn outputs_of(self, txs: Seq<TransactionDigest>) -> Seq<ObjectKey> {
        crate::seq_facts::flat(txs, |tx: TransactionDigest| self.outputs(tx))
    }

    /// Where the contents of an object version are kept, if they are kept apart.
    pub open spec fn indirect_digest(self, key: ObjectKey) -> Seq<ObjectContentDigest> {
        if self.objects.contains_key(key) {
            match self.objects[key].spec_inner() {
                StoreObject::Value(value) => match value.data {
                    StoreData::IndirectObject(metadata) => seq![metadata.digest],
                    _ => Seq::empty(),
                },
                _ => Seq::empty(),
            }
        } else {
            Seq::empty()
        }
    }

    /// Where the contents of these object versions are kept, as far as they are kept apart.
    pub open spec fn indirect_digests(self, keys: Seq<ObjectKey>) -> Seq<ObjectContentDigest> {
        crate::seq_facts::flat(keys, |key: ObjectKey| self.indirect_digest(key))
    }

    /// The writes that remove what is keyed by an epoch after `target`.
    pub open spec fn epoch_keyed_ops(self, target: EpochId) -> Seq<BatchOp> {
        self.late_epochs(target).map_values(|epoch: EpochId| BatchOp::DeleteRootStateHash(epoch))
            + self.late_markers(target).map_values(
            |marker: (EpochId, ObjectKey)| BatchOp::DeleteMarker(marker.0, marker.1),
        )
    }

    /// The writes that remove the events of these transactions.
    pub open spec fn event_ops(self, txs: Seq<TransactionDigest>) -> Seq<BatchOp> {
        self.emitted_digests(txs).map_values(|digest: TransactionEventsDigest| event_op(digest))
    }

    /// The writes that remove what is known of these transactions.
    pub open spec fn transaction_ops(self, txs: Seq<TransactionDigest>) -> Seq<BatchOp> {
        txs.map_values(|tx: TransactionDigest| BatchOp::DeleteExecutedCheckpoint(tx))
            + txs.map_values(|tx: TransactionDigest| BatchOp::DeleteTransaction(tx))
            + self.executed_digests(txs).map_values(
            |digest: TransactionEffectsDigest| BatchOp::DeleteEffects(digest),
        ) + txs.map_values(|tx: TransactionDigest| BatchOp::DeleteExecutedEffects(tx))
            + self.event_ops(txs)
    }

    /// The writes that remove the effects of epochs after `target`, executed here or not.
    pub open spec fn late_effects_ops(self, target: EpochId) -> Seq<BatchOp> {
        self.late_effects(target).map_values(
            |digest: TransactionEffectsDigest| BatchOp::DeleteEffects(digest),
        )
    }

    /// The writes that remove the contents of these object versions that are kept apart.
    pub open spec fn indirect_ops(self, keys: Seq<ObjectKey>) -> Seq<BatchOp> {
        self.indirect_digests(keys).map_values(
            |digest: ObjectContentDigest| BatchOp::DeleteIndirectObject(digest),
        )
    }

    /// The writes that remove the object versions that these transactions put out.
    pub open spec fn object_ops(self, txs: Seq<TransactionDigest>) -> Seq<BatchOp> {
        self.outputs_of(txs).map_values(|key: ObjectKey| BatchOp::DeleteObject(key))
            + self.indirect_ops(self.outputs_of(txs))
    }

    /// The writes that remove the locks of the object versions that these transactions put out.
    pub open spec fn lock_ops(self, txs: Seq<TransactionDigest>) -> Seq<BatchOp> {
        self.outputs_of(txs).map_values(|key: ObjectKey| lock_op(key))
    }

    /// The writes of a rollback to `target`.
    pub open spec fn rollback_ops(self, target: EpochId) -> Seq<BatchOp> {
        let txs = self.transactions_after(target);
        self.epoch_keyed_ops(target) + self.transaction_ops(txs) + self.late_effects_ops(target)
            + self.object_ops(txs) + self.lock_ops(txs)
    }

    /// The number of object versions that these transactions created, mutated or unwrapped.
    pub open spec fn output_count(self, txs: Seq<TransactionDigest>) -> nat {
        self.outputs_of(txs).len()
    }

    /// What a rollback to `target` concerns, counted.
    pub open spec fn are_rollback_statistics(
        self,
        target: EpochId,
        statistics: RollbackStatistics,
    ) -> bool {
        &&& statistics.target_epoch == target
        &&& statistics.epochs_to_remove == self.late_epochs(target).len()
        &&& statistics.transactions_to_remove == self.transactions_after(target).len()
        &&& statistics.objects_to_remove == self.output_count(self.transactions_after(target))
        &&& statistics.markers_to_remove == self.late_markers(target).len()
    }

    /// The tables after a rollback to `target`.
    pub open spec fn rolled_back(self, target: EpochId) -> TablesState {
        let txs = self.transactions_after(target);
        TablesState {
            root_state_hash_by_epoch: self.root_state_hash_by_epoch.remove_keys(
                Set::new(|epoch: EpochId| epoch > target),
            ),
            object_per_epoch_marker_table: self.object_per_epoch_marker_table.remove_keys(
                Set::new(|marker: (EpochId, ObjectKey)| marker.0 > target),
            ),
            executed_transactions_to_checkpoint:
                self.executed_transactions_to_checkpoint.remove_keys(txs.to_set()),
            transactions: self.transactions.remove_keys(txs.to_set()),
            effects: self.effects.remove_keys(
                Set::new(
                    |digest: TransactionEffectsDigest|
                        self.executed_digests(txs).contains(digest) || (self.effects.contains_key(
                            digest,
                        ) && self.effects[digest].executed_epoch > target),
                ),
            ),
            executed_effects: self.executed_effects.remove_keys(txs.to_set()),
            events: self.events.remove_keys(
                Set::new(
                    |event: (TransactionEventsDigest, usize)|
                        self.emitted_digests(txs).contains(event.0) && event.1 < usize::MAX,
                ),
            ),
            objects: self.objects.remove_keys(self.outputs_of(txs).to_set()),
            indirect_move_objects: self.indirect_move_objects.remove_keys(
                self.indirect_digests(self.outputs_of(txs)).to_set(),
            ),
            owned_object_transaction_locks: self.owned_object_transaction_locks.remove_keys(
                Set::new(
                    |lock: ObjectRef|
                        lock.2 != crate::base_types::digest_max() && self.outputs_of(txs).contains(
                            ObjectKey(lock.0, lock.1),
                        ),
                ),
            ),
            ..self
        }
    }
}

/// The write that removes the events of a group, but for one at the largest index.
pub open spec fn event_op(digest: TransactionEventsDigest) -> BatchOp {
    BatchOp::DeleteEventRange((digest, 0usize), (digest, usize::MAX))
}

/// The write that removes the locks of an object version, but for one with the largest digest.
pub open spec fn lock_op(key: ObjectKey) -> BatchOp {
    BatchOp::DeleteLockRange(crate::state::first_lock(key), crate::state::last_lock(key))
}

/// At most one epoch is the highest.
pub proof fn highest_epoch_is_unique(state: TablesState, epoch: EpochId)
    requires
        state.is_highest_epoch(epoch),
    ensures
        state.highest_epoch() == epoch,
{
    let other = state.highest_epoch();
    assert(state.is_highest_epoch(other));
}

/// Whether a list has a transaction.
fn lists_transaction(list: &Vec<TransactionDigest>, tx: &TransactionDigest) -> (r: bool)
    ensures
        r == list@.contains(*tx),
{
    let mut i: usize = 0;
    while i < list.len()
        invariant
            i <= list@.len(),
            forall|j: int| 0 <= j < i ==> list@[j] != *tx,
        decreases list@.len() - i,
    {
        if list[i] == *tx {
            assert(list@[i as int] == *tx);
            return true;
        }
        i = i + 1;
    }
    false
}

/// Adds the versions that references name to a list.
fn add_versions(list: &mut Vec<ObjectKey>, references: &Vec<(ObjectRef, Owner)>)
    ensures
        final(list)@ == old(list)@ + versions_named(references@),
{
    let mut i: usize = 0;
    let ghost before = list@;
    let ghost named = versions_named(references@);
    assert(named.take(0) =~= Seq::<ObjectKey>::empty());
    assert(list@ =~= before + named.take(0));
    while i < references.len()
        invariant
            i <= references@.len(),
            named == versions_named(references@),
            list@ == before + named.take(i as int),
        decreases references@.len() - i,
    {
        list.push(ObjectKey::from_ref(&references[i].0));
        assert(named.take(i + 1) =~= named.take(i as int).push(named[i as int]));
        assert(list@ =~= before + named.take(i + 1));
        i = i + 1;
    }
    assert(named.take(i as int) =~= named);
}

impl AuthorityPerpetualTables {
    /// The effects with which a transaction was executed.
    fn executed_with(&self, tx: &TransactionDigest) -> (r: Option<&crate::rows::TransactionEffects>)
        requires
            self.wf(),
        ensures
            match r {
                Some(effects) => self@.effects_of(*tx) == Some(*effects),
                None => self@.effects_of(*tx) is None,
            },
    {
        match self.executed_effects.get(tx) {
            Some(digest) => self.effects.get(digest),
            None => None,
        }
    }

    /// Removes all records of epochs after `target_epoch`: root states, markers, effects, and the
    /// executed transactions with their events, outputs and locks. Effects name their transaction, so
    /// one transaction is taken per effects: of several that were executed with the same late effects
    /// and have no late checkpoint, one goes. Refuses, and changes nothing, if `target_epoch` is
    /// higher than every epoch on record.
    ///
    /// What is removed is lost: this is meant for recovery from disaster.
    pub fn rollback_to_epoch(&mut self, target_epoch: EpochId) -> (r: MgoResult<()>)
        requires
            old(self).wf(),
        ensures
            final(self).wf(),
            old(self)@.is_highest_epoch(old(self)@.highest_epoch()),
            match r {
                Ok(_) => {
                    &&& target_epoch <= old(self)@.highest_epoch()
                    &&& final(self)@ == old(self)@.rolled_back(target_epoch)
                },
                Err(e) => {
                    &&& target_epoch > old(self)@.highest_epoch()
                    &&& e is GenericAuthorityError
                    &&& e.text() == future_epoch_text(target_epoch, old(self)@.highest_epoch())
                    &&& final(self)@ == old(self)@
                },
            },
    {
        let batch = match self.rollback_batch(target_epoch) {
            Ok(batch) => batch,
            Err(e) => {
                return Err(e);
            },
        };
        self.write(&batch);
        Ok(())
    }

    /// The writes that roll the tables back to `target_epoch`. They must take effect together.
    pub fn rollback_batch(&self, target_epoch: EpochId) -> (r: MgoResult<Batch>)
        requires
            self.wf(),
        ensures
            self@.is_highest_epoch(self@.highest_epoch()),
            match r {
                Ok(batch) => {
                    &&& target_epoch <= self@.highest_epoch()
                    &&& batch@ == self@.rollback_ops(target_epoch)
                    &&& self@.apply_all(batch@) == self@.rolled_back(target_epoch)
                },
                Err(e) => {
                    &&& target_epoch > self@.highest_epoch()
                    &&& e is GenericAuthorityError
                    &&& e.text() == future_epoch_text(target_epoch, self@.highest_epoch())
                },
            },
    {
        match self.validate_rollback_parameters(target_epoch) {
            Ok(()) => {},
            Err(e) => {
                return Err(e);
            },
        }
        let mut batch = Batch::new();
        self.remove_epoch_keyed_data(&mut batch, target_epoch);
        let transactions_to_remove = self.identify_transactions_after_epoch(target_epoch);
        self.remove_transaction_data(&mut batch, transactions_to_remove.as_slice());
        self.remove_late_effects(&mut batch, target_epoch);
        self.remove_objects_after_epoch(&mut batch, transactions_to_remove.as_slice());
        self.clean_up_locks_and_markers(&mut batch, transactions_to_remove.as_slice());
        proof {
            assert(batch@ =~= self@.rollback_ops(target_epoch));
            crate::rollback_effects::rollback_ops_roll_back(*self, target_epoch);
        }
        Ok(batch)
    }

    /// How much a rollback to `target_epoch` would concern; `None` if the number of object versions
    /// is too large to count.
    pub fn checked_rollback_statistics(&self, target_epoch: EpochId) -> (r: Option<
        RollbackStatistics,
    >)
        requires
            self.wf(),
        ensures
            match r {
                Some(statistics) => self@.are_rollback_statistics(target_epoch, statistics),
                None => self@.output_count(self@.transactions_after(target_epoch)) > usize::MAX,
            },
    {
        let transactions_to_remove = self.identify_transactions_after_epoch(target_epoch);
        let epochs_to_remove = self.late_root_epochs(target_epoch).len();
        let markers_to_remove = self.late_object_markers(target_epoch).len();
        match self.count_outputs(transactions_to_remove.as_slice()) {
            Some(objects_to_remove) => Some(
                RollbackStatistics {
                    target_epoch,
                    epochs_to_remove,
                    transactions_to_remove: transactions_to_remove.len(),
                    objects_to_remove,
                    markers_to_remove,
                },
            ),
            None => None,
        }
    }

    /// How much a rollback to `target_epoch` would concern.
    pub fn get_rollback_statistics(&self, target_epoch: EpochId) -> (r: MgoResult<
        RollbackStatistics,
    >)
        requires
            self.wf(),
            self@.output_count(self@.transactions_after(target_epoch)) <= usize::MAX,
        ensures
            r matches Ok(statistics) && self@.are_rollback_statistics(target_epoch, statistics),
    {
        let statistics = self.checked_rollback_statistics(target_epoch);
        Ok(statistics.unwrap())
    }

    /// The number of object versions that these transactions created, mutated or unwrapped; `None`
    /// if it is too large to count.
    fn count_outputs(&self, txs: &[TransactionDigest]) -> (r: Option<usize>)
        requires
            self.wf(),
        ensures
            match r {
                Some(count) => count == self@.output_count(txs@),
                None => self@.output_count(txs@) > usize::MAX,
            },
    {
        let ghost f = |tx: TransactionDigest| self@.outputs(tx);
        let mut count: usize = 0;
        let mut i: usize = 0;
        assert(txs@.take(0) =~= Seq::<TransactionDigest>::empty());
        while i < txs.len()
            invariant
                self.wf(),
                i <= txs@.len(),
                f == (|tx: TransactionDigest| self@.outputs(tx)),
                count == crate::seq_facts::flat(txs@.take(i as int), f).len(),
            decreases txs@.len() - i,
        {
            proof {
                crate::seq_facts::flat_take(txs@, i as int, f);
                crate::seq_facts::flat_prefix_is_shorter(txs@, i + 1, f);
            }
            if let Some(effects) = self.executed_with(&txs[i]) {
                count = match count.checked_add(effects.created.len()) {
                    Some(sum) => sum,
                    None => {
                        return None;
                    },
                };
                count = match count.checked_add(effects.mutated.len()) {
                    Some(sum) => sum,
                    None => {
                        return None;
                    },
                };
                count = match count.checked_add(effects.unwrapped.len()) {
                    Some(sum) => sum,
                    None => {
                        return None;
                    },
                };
            }
            i = i + 1;
        }
        assert(txs@.take(i as int) =~= txs@);
        Some(count)
    }

    /// Refuses a target that is higher than every epoch on record.
    fn validate_rollback_parameters(&self, target_epoch: EpochId) -> (r: MgoResult<()>)
        requires
            self.wf(),
        ensures
            match r {
                Ok(_) => target_epoch <= self@.highest_epoch(),
                Err(e) => {
                    &&& target_epoch > self@.highest_epoch()
                    &&& e is GenericAuthorityError
                    &&& e.text() == future_epoch_text(target_epoch, self@.highest_epoch())
                },
            },
            self@.is_highest_epoch(self@.highest_epoch()),
    {
        let max_epoch = self.highest_recorded_epoch();
        if target_epoch > max_epoch {
            let mut error = String::from_str("Cannot rollback to future epoch ");
            error.append(decimal_text(target_epoch).as_str());
            error.append(" in AuthorityStore. Maximum existing epoch is ");
            error.append(decimal_text(max_epoch).as_str());
            return Err(MgoError::GenericAuthorityError { error });
        }
        Ok(())
    }

    /// The highest epoch of a root state or of effects; zero if there is none.
    fn highest_recorded_epoch(&self) -> (r: EpochId)
        requires
            self.wf(),
        ensures
            self@.is_highest_epoch(r),
            r == self@.highest_epoch(),
    {
        let mut max_epoch: EpochId = 0;
        let mut i: usize = 0;
        let ghost epochs = crate::ordered_table::rows_keys(self.root_state_hash_by_epoch.rows());
        proof {
            self.root_state_hash_by_epoch.rows_are_contents();
            self.effects.rows_are_contents();
        }
        while i < self.root_state_hash_by_epoch.len()
            invariant
                self.wf(),
                epochs == crate::ordered_table::rows_keys(self.root_state_hash_by_epoch.rows()),
                i <= epochs.len(),
                forall|j: int| 0 <= j < i ==> #[trigger] epochs[j] <= max_epoch,
                max_epoch == 0 || self@.root_state_hash_by_epoch.contains_key(max_epoch),
                forall|j: int|
                    0 <= j < epochs.len() ==> self@.root_state_hash_by_epoch.contains_key(
                        #[trigger] epochs[j],
                    ),
            decreases epochs.len() - i,
        {
            let epoch = self.root_state_hash_by_epoch.row(i).0;
            assert(epoch == epochs[i as int]);
            if epoch > max_epoch {
                max_epoch = epoch;
            }
            i = i + 1;
        }
        assert forall|e: EpochId| #[trigger]
            self@.root_state_hash_by_epoch.contains_key(e) implies e <= max_epoch by {
            assert(epochs.contains(e));
        }
        let ghost rows = self.effects.rows();
        let mut k: usize = 0;
        while k < self.effects.len()
            invariant
                self.wf(),
                rows == self.effects.rows(),
                k <= rows.len(),
                forall|e: EpochId| #[trigger]
                    self@.root_state_hash_by_epoch.contains_key(e) ==> e <= max_epoch,
                forall|j: int|
                    0 <= j < k ==> (#[trigger] rows[j]).1.executed_epoch <= max_epoch,
                max_epoch == 0 || self@.root_state_hash_by_epoch.contains_key(max_epoch) || exists|
                    d: TransactionEffectsDigest,
                | #[trigger]
                    self@.effects.contains_key(d) && self@.effects[d].executed_epoch == max_epoch,
                forall|j: int|
                    0 <= j < rows.len() ==> {
                        &&& self@.effects.contains_key((#[trigger] rows[j]).0)
                        &&& self@.effects[rows[j].0] == rows[j].1
                    },
            decreases rows.len() - k,
        {
            let row = self.effects.row(k);
            if row.1.executed_epoch > max_epoch {
                max_epoch = row.1.executed_epoch;
                assert(self@.effects.contains_key(rows[k as int].0));
            }
            k = k + 1;
        }
        proof {
            assert forall|d: TransactionEffectsDigest| #[trigger]
                self@.effects.contains_key(d) implies self@.effects[d].executed_epoch
                <= max_epoch by {
                let keys = crate::ordered_table::rows_keys(rows);
                assert(keys.contains(d));
                let j = choose|j: int| 0 <= j < keys.len() && keys[j] == d;
                assert(rows[j].0 == d);
            }
            highest_epoch_is_unique(self@, max_epoch);
        }
        max_epoch
    }

    /// The epochs after `target_epoch` with a root state.
    fn late_root_epochs(&self, target_epoch: EpochId) -> (r: Vec<EpochId>)
        requires
            self.wf(),
        ensures
            r@ == self@.late_epochs(target_epoch),
    {
        let ghost keys = crate::ordered_table::rows_keys(self.root_state_hash_by_epoch.rows());
        let ghost p = |epoch: EpochId| epoch > target_epoch;
        proof {
            self.root_state_hash_by_epoch.rows_are_contents();
            assert(keys.take(0) =~= Seq::<EpochId>::empty());
            assert(keys.take(0).filter(p) =~= Seq::<EpochId>::empty()) by {
                reveal(Seq::filter);
            }
        }
        let mut found: Vec<EpochId> = Vec::new();
        let mut i: usize = 0;
        while i < self.root_state_hash_by_epoch.len()
            invariant
                keys == crate::ordered_table::rows_keys(self.root_state_hash_by_epoch.rows()),
                p == (|epoch: EpochId| epoch > target_epoch),
                i <= keys.len(),
                found@ == keys.take(i as int).filter(p),
            decreases keys.len() - i,
        {
            let epoch = self.root_state_hash_by_epoch.row(i).0;
            proof {
                crate::seq_facts::filter_take(keys, i as int, p);
            }
            if epoch > target_epoch {
                found.push(epoch);
            }
            i = i + 1;
        }
        assert(keys.take(i as int) =~= keys);
        found
    }

    /// The markers of epochs after `target_epoch`.
    fn late_object_markers(&self, target_epoch: EpochId) -> (r: Vec<(EpochId, ObjectKey)>)
        requires
            self.wf(),
        ensures
            r@ == self@.late_markers(target_epoch),
    {
        let ghost keys = crate::ordered_table::rows_keys(self.object_per_epoch_marker_table.rows());
        let ghost p = |marker: (EpochId, ObjectKey)| marker.0 > target_epoch;
        proof {
            self.object_per_epoch_marker_table.rows_are_contents();
            assert(keys.take(0) =~= Seq::<(EpochId, ObjectKey)>::empty());
            assert(keys.take(0).filter(p) =~= Seq::<(EpochId, ObjectKey)>::empty()) by {
                reveal(Seq::filter);
            }
        }
        let mut found: Vec<(EpochId, ObjectKey)> = Vec::new();
        let mut i: usize = 0;
        while i < self.object_per_epoch_marker_table.len()
            invariant
                keys == crate::ordered_table::rows_keys(self.object_per_epoch_marker_table.rows()),
                p == (|marker: (EpochId, ObjectKey)| marker.0 > target_epoch),
                i <= keys.len(),
                found@ == keys.take(i as int).filter(p),
            decreases keys.len() - i,
        {
            let marker = self.object_per_epoch_marker_table.row(i).0;
            proof {
                crate::seq_facts::filter_take(keys, i as int, p);
            }
            if marker.0 > target_epoch {
                found.push(marker);
            }
            i = i + 1;
        }
        assert(keys.take(i as int) =~= keys);
        found
    }

    /// Adds the writes that remove what is keyed by an epoch after `target_epoch`.
    fn remove_epoch_keyed_data(&self, batch: &mut Batch, target_epoch: EpochId)
        requires
            self.wf(),
        ensures
            final(batch)@ == old(batch)@ + self@.epoch_keyed_ops(target_epoch),
    {
        let epochs = self.late_root_epochs(target_epoch);
        let ghost before = batch@;
        let ghost epoch_ops = epochs@.map_values(
            |epoch: EpochId| BatchOp::DeleteRootStateHash(epoch),
        );
        let mut i: usize = 0;
        assert(batch@ =~= before + epoch_ops.take(0));
        while i < epochs.len()
            invariant
                i <= epochs@.len(),
                epoch_ops == epochs@.map_values(
                    |epoch: EpochId| BatchOp::DeleteRootStateHash(epoch),
                ),
                batch@ == before + epoch_ops.take(i as int),
            decreases epochs@.len() - i,
        {
            batch.push(BatchOp::DeleteRootStateHash(epochs[i]));
            assert(batch@ =~= before + epoch_ops.take(i + 1));
            i = i + 1;
        }
        assert(epoch_ops.take(i as int) =~= epoch_ops);
        let markers = self.late_object_markers(target_epoch);
        let ghost middle = batch@;
        let ghost marker_ops = markers@.map_values(
            |marker: (EpochId, ObjectKey)| BatchOp::DeleteMarker(marker.0, marker.1),
        );
        let mut k: usize = 0;
        assert(batch@ =~= middle + marker_ops.take(0));
        while k < markers.len()
            invariant
                k <= markers@.len(),
                marker_ops == markers@.map_values(
                    |marker: (EpochId, ObjectKey)| BatchOp::DeleteMarker(marker.0, marker.1),
                ),
                batch@ == middle + marker_ops.take(k as int),
            decreases markers@.len() - k,
        {
            batch.push(BatchOp::DeleteMarker(markers[k].0, markers[k].1));
            assert(batch@ =~= middle + marker_ops.take(k + 1));
            k = k + 1;
        }
        assert(marker_ops.take(k as int) =~= marker_ops);
        assert(batch@ =~= before + self@.epoch_keyed_ops(target_epoch));
    }

    /// The first transaction that was executed with these effects and is not listed yet.
    fn first_unlisted_executor(
        &self,
        listed: &Vec<TransactionDigest>,
        digest: &TransactionEffectsDigest,
    ) -> (r: Option<TransactionDigest>)
        requires
            self.wf(),
        ensures
            match r {
                Some(tx) => {
                    &&& self@.unlisted_executors(listed@, *digest).len() > 0
                    &&& self@.unlisted_executors(listed@, *digest)[0] == tx
                },
                None => self@.unlisted_executors(listed@, *digest).len() == 0,
            },
    {
        let ghost rows = self.executed_effects.rows();
        let ghost keys = crate::ordered_table::rows_keys(rows);
        let ghost p = self@.unlisted_with(listed@, *digest);
        proof {
            self.executed_effects.rows_are_contents();
        }
        let mut i: usize = 0;
        while i < self.executed_effects.len()
            invariant
                self.wf(),
                rows == self.executed_effects.rows(),
                keys == crate::ordered_table::rows_keys(rows),
                keys == crate::ordered_table::ordered_keys(self@.executed_effects),
                p == self@.unlisted_with(listed@, *digest),
                i <= keys.len(),
                forall|j: int| 0 <= j < i ==> !p(#[trigger] keys[j]),
                forall|j: int|
                    0 <= j < rows.len() ==> self@.executed_effects[(#[trigger] rows[j]).0]
                        == rows[j].1,
            decreases keys.len() - i,
        {
            let row = self.executed_effects.row(i);
            assert(keys[i as int] == rows[i as int].0);
            if row.1 == *digest && !lists_transaction(listed, &row.0) {
                proof {
                    crate::seq_facts::first_that_passes(keys, i as int, p);
                }
                return Some(row.0);
            }
            i = i + 1;
        }
        proof {
            crate::seq_facts::filter_interval(keys, p, 0, 0);
        }
        None
    }

    /// The transactions with a checkpoint in an epoch after `target_epoch`.
    fn checkpointed_after_epoch(&self, target_epoch: EpochId) -> (r: Vec<TransactionDigest>)
        requires
            self.wf(),
        ensures
            r@ == self@.late_checkpointed(target_epoch),
    {
        let ghost rows = self.executed_transactions_to_checkpoint.rows();
        let ghost keys = crate::ordered_table::rows_keys(rows);
        let ghost p = |tx: TransactionDigest|
            self@.executed_transactions_to_checkpoint[tx].0 > target_epoch;
        proof {
            self.executed_transactions_to_checkpoint.rows_are_contents();
            assert(keys.take(0) =~= Seq::<TransactionDigest>::empty());
            assert(keys.take(0).filter(p) =~= Seq::<TransactionDigest>::empty()) by {
                reveal(Seq::filter);
            }
        }
        let mut found: Vec<TransactionDigest> = Vec::new();
        let mut i: usize = 0;
        while i < self.executed_transactions_to_checkpoint.len()
            invariant
                rows == self.executed_transactions_to_checkpoint.rows(),
                keys == crate::ordered_table::rows_keys(rows),
                p == (|tx: TransactionDigest|
                    self@.executed_transactions_to_checkpoint[tx].0 > target_epoch),
                i <= keys.len(),
                found@ == keys.take(i as int).filter(p),
                forall|j: int|
                    0 <= j < rows.len() ==> self@.executed_transactions_to_checkpoint[(
                    #[trigger] rows[j]).0] == rows[j].1,
            decreases keys.len() - i,
        {
            let row = self.executed_transactions_to_checkpoint.row(i);
            assert(keys[i as int] == rows[i as int].0);
            proof {
                crate::seq_facts::filter_take(keys, i as int, p);
            }
            if row.1.0 > target_epoch {
                found.push(row.0);
            }
            i = i + 1;
        }
        assert(keys.take(i as int) =~= keys);
        found
    }

    /// The transactions of epochs after `target_epoch`: by their checkpoint where it is known, else
    /// by their effects.
    pub fn identify_transactions_after_epoch(&self, target_epoch: EpochId) -> (r: Vec<
        TransactionDigest,
    >)
        requires
            self.wf(),
        ensures
            r@ == self@.transactions_after(target_epoch),
    {
        let mut transactions = self.checkpointed_after_epoch(target_epoch);
        let ghost listed = transactions@;
        let ghost rows = self.effects.rows();
        let ghost keys = crate::ordered_table::rows_keys(rows);
        let ghost p = |digest: TransactionEffectsDigest|
            self@.effects[digest].executed_epoch > target_epoch;
        proof {
            self.effects.rows_are_contents();
            assert(keys.take(0) =~= Seq::<TransactionEffectsDigest>::empty());
            assert(keys.take(0).filter(p) =~= Seq::<TransactionEffectsDigest>::empty()) by {
                reveal(Seq::filter);
            }
        }
        let mut i: usize = 0;
        while i < self.effects.len()
            invariant
                self.wf(),
                rows == self.effects.rows(),
                keys == crate::ordered_table::rows_keys(rows),
                p == (|digest: TransactionEffectsDigest|
                    self@.effects[digest].executed_epoch > target_epoch),
                i <= keys.len(),
                transactions@ == self@.with_executors(listed, keys.take(i as int).filter(p)),
                forall|j: int|
                    0 <= j < rows.len() ==> self@.effects[(#[trigger] rows[j]).0] == rows[j].1,
            decreases keys.len() - i,
        {
            let row = self.effects.row(i);
            assert(keys[i as int] == rows[i as int].0);
            proof {
                crate::seq_facts::filter_take(keys, i as int, p);
            }
            if row.1.executed_epoch > target_epoch {
                proof {
                    let before = keys.take(i as int).filter(p);
                    assert(before.push(row.0).drop_last() =~= before);
                    assert(before.push(row.0).last() == row.0);
                }
                match self.first_unlisted_executor(&transactions, &row.0) {
                    Some(tx) => {
                        transactions.push(tx);
                    },
                    None => {},
                }
            }
            i = i + 1;
        }
        assert(keys.take(i as int) =~= keys);
        transactions
    }

    /// Adds the writes that remove what is known of these transactions.
    fn remove_transaction_data(&self, batch: &mut Batch, txs: &[TransactionDigest])
        requires
            self.wf(),
        ensures
            final(batch)@ == old(batch)@ + self@.transaction_ops(txs@),
    {
        let ghost before = batch@;
        let ghost checkpoint_ops = txs@.map_values(
            |tx: TransactionDigest| BatchOp::DeleteExecutedCheckpoint(tx),
        );
        let ghost tx_ops = txs@.map_values(|tx: TransactionDigest| BatchOp::DeleteTransaction(tx));
        let ghost executed_ops = txs@.map_values(
            |tx: TransactionDigest| BatchOp::DeleteExecutedEffects(tx),
        );
        let effects_to_remove = self.executed_effects_digests(txs);
        let ghost effects_ops = effects_to_remove@.map_values(
            |digest: TransactionEffectsDigest| BatchOp::DeleteEffects(digest),
        );
        let mut a: usize = 0;
        assert(batch@ =~= before + checkpoint_ops.take(0));
        while a < txs.len()
            invariant
                a <= txs@.len(),
                checkpoint_ops == txs@.map_values(
                    |tx: TransactionDigest| BatchOp::DeleteExecutedCheckpoint(tx),
                ),
                batch@ == before + checkpoint_ops.take(a as int),
            decreases txs@.len() - a,
        {
            batch.push(BatchOp::DeleteExecutedCheckpoint(txs[a]));
            assert(batch@ =~= before + checkpoint_ops.take(a + 1));
            a = a + 1;
        }
        assert(checkpoint_ops.take(a as int) =~= checkpoint_ops);
        let ghost after_checkpoints = batch@;
        let mut b: usize = 0;
        assert(batch@ =~= after_checkpoints + tx_ops.take(0));
        while b < txs.len()
            invariant
                b <= txs@.len(),
                tx_ops == txs@.map_values(|tx: TransactionDigest| BatchOp::DeleteTransaction(tx)),
                batch@ == after_checkpoints + tx_ops.take(b as int),
            decreases txs@.len() - b,
        {
            batch.push(BatchOp::DeleteTransaction(txs[b]));
            assert(batch@ =~= after_checkpoints + tx_ops.take(b + 1));
            b = b + 1;
        }
        assert(tx_ops.take(b as int) =~= tx_ops);
        let ghost after_transactions = batch@;
        let mut c: usize = 0;
        assert(batch@ =~= after_transactions + effects_ops.take(0));
        while c < effects_to_remove.len()
            invariant
                c <= effects_to_remove@.len(),
                effects_ops == effects_to_remove@.map_values(
                    |digest: TransactionEffectsDigest| BatchOp::DeleteEffects(digest),
                ),
                batch@ == after_transactions + effects_ops.take(c as int),
            decreases effects_to_remove@.len() - c,
        {
            batch.push(BatchOp::DeleteEffects(effects_to_remove[c]));
            assert(batch@ =~= after_transactions + effects_ops.take(c + 1));
            c = c + 1;
        }
        assert(effects_ops.take(c as int) =~= effects_ops);
        let ghost after_effects = batch@;
        let mut d: usize = 0;
        assert(batch@ =~= after_effects + executed_ops.take(0));
        while d < txs.len()
            invariant
                d <= txs@.len(),
                executed_ops == txs@.map_values(
                    |tx: TransactionDigest| BatchOp::DeleteExecutedEffects(tx),
                ),
                batch@ == after_effects + executed_ops.take(d as int),
            decreases txs@.len() - d,
        {
            batch.push(BatchOp::DeleteExecutedEffects(txs[d]));
            assert(batch@ =~= after_effects + executed_ops.take(d + 1));
            d = d + 1;
        }
        assert(executed_ops.take(d as int) =~= executed_ops);
        self.remove_events_for_transactions(batch, txs);
        assert(batch@ =~= before + self@.transaction_ops(txs@));
    }

    /// The effects of epochs after `target_epoch`.
    fn late_effects_digests(&self, target_epoch: EpochId) -> (r: Vec<TransactionEffectsDigest>)
        requires
            self.wf(),
        ensures
            r@ == self@.late_effects(target_epoch),
    {
        let ghost rows = self.effects.rows();
        let ghost keys = crate::ordered_table::rows_keys(rows);
        let ghost p = |digest: TransactionEffectsDigest|
            self@.effects[digest].executed_epoch > target_epoch;
        proof {
            self.effects.rows_are_contents();
            assert(keys.take(0) =~= Seq::<TransactionEffectsDigest>::empty());
            assert(keys.take(0).filter(p) =~= Seq::<TransactionEffectsDigest>::empty()) by {
                reveal(Seq::filter);
            }
        }
        let mut found: Vec<TransactionEffectsDigest> = Vec::new();
        let mut i: usize = 0;
        while i < self.effects.len()
            invariant
                rows == self.effects.rows(),
                keys == crate::ordered_table::rows_keys(rows),
                p == (|digest: TransactionEffectsDigest|
                    self@.effects[digest].executed_epoch > target_epoch),
                i <= keys.len(),
                found@ == keys.take(i as int).filter(p),
                forall|j: int|
                    0 <= j < rows.len() ==> self@.effects[(#[trigger] rows[j]).0] == rows[j].1,
            decreases keys.len() - i,
        {
            let row = self.effects.row(i);
            assert(keys[i as int] == rows[i as int].0);
            proof {
                crate::seq_facts::filter_take(keys, i as int, p);
            }
            if row.1.executed_epoch > target_epoch {
                found.push(row.0);
            }
            i = i + 1;
        }
        assert(keys.take(i as int) =~= keys);
        found
    }

    /// Adds the writes that remove the effects of epochs after `target_epoch`, executed here or not.
    fn remove_late_effects(&self, batch: &mut Batch, target_epoch: EpochId)
        requires
            self.wf(),
        ensures
            final(batch)@ == old(batch)@ + self@.late_effects_ops(target_epoch),
    {
        let digests = self.late_effects_digests(target_epoch);
        let ghost before = batch@;
        let ghost ops = self@.late_effects_ops(target_epoch);
        let mut i: usize = 0;
        assert(batch@ =~= before + ops.take(0));
        while i < digests.len()
            invariant
                i <= digests@.len(),
                digests@ == self@.late_effects(target_epoch),
                ops == self@.late_effects_ops(target_epoch),
                batch@ == before + ops.take(i as int),
            decreases digests@.len() - i,
        {
            batch.push(BatchOp::DeleteEffects(digests[i]));
            assert(batch@ =~= before + ops.take(i + 1));
            i = i + 1;
        }
        assert(ops.take(i as int) =~= ops);
    }

    /// The digests of the effects with which these transactions were executed.
    fn executed_effects_digests(&self, txs: &[TransactionDigest]) -> (r: Vec<
        TransactionEffectsDigest,
    >)
        requires
            self.wf(),
        ensures
            r@ == self@.executed_digests(txs@),
    {
        let ghost f = |tx: TransactionDigest| self@.executed_digest(tx);
        let mut found: Vec<TransactionEffectsDigest> = Vec::new();
        let mut i: usize = 0;
        assert(txs@.take(0) =~= Seq::<TransactionDigest>::empty());
        while i < txs.len()
            invariant
                self.wf(),
                i <= txs@.len(),
                f == (|tx: TransactionDigest| self@.executed_digest(tx)),
                found@ == crate::seq_facts::flat(txs@.take(i as int), f),
            decreases txs@.len() - i,
        {
            let ghost before = found@;
            proof {
                crate::seq_facts::flat_take(txs@, i as int, f);
            }
            if let Some(digest) = self.executed_effects.get(&txs[i]) {
                found.push(*digest);
            }
            assert(found@ =~= before + f(txs@[i as int]));
            i = i + 1;
        }
        assert(txs@.take(i as int) =~= txs@);
        found
    }

    /// Adds the writes that remove the events of these transactions.
    fn remove_events_for_transactions(&self, batch: &mut Batch, txs: &[TransactionDigest])
        requires
            self.wf(),
        ensures
            final(batch)@ == old(batch)@ + self@.event_ops(txs@),
    {
        let ghost f = |tx: TransactionDigest| self@.emitted_digest(tx);
        let ghost g = |digest: TransactionEventsDigest| event_op(digest);
        let ghost before = batch@;
        let mut i: usize = 0;
        assert(txs@.take(0) =~= Seq::<TransactionDigest>::empty());
        assert(batch@ =~= before + crate::seq_facts::flat(txs@.take(0), f).map_values(g));
        while i < txs.len()
            invariant
                self.wf(),
                i <= txs@.len(),
                f == (|tx: TransactionDigest| self@.emitted_digest(tx)),
                g == (|digest: TransactionEventsDigest| event_op(digest)),
                batch@ == before + crate::seq_facts::flat(txs@.take(i as int), f).map_values(g),
            decreases txs@.len() - i,
        {
            let ghost current = batch@;
            proof {
                crate::seq_facts::flat_take(txs@, i as int, f);
            }
            if let Some(effects) = self.executed_with(&txs[i]) {
                if let Some(digest) = effects.events_digest {
                    batch.push(
                        BatchOp::DeleteEventRange((digest, usize::MIN), (digest, usize::MAX)),
                    );
                }
            }
            assert(batch@ =~= current + f(txs@[i as int]).map_values(g));
            assert(batch@ =~= before + crate::seq_facts::flat(txs@.take(i + 1), f).map_values(g));
            i = i + 1;
        }
        assert(txs@.take(i as int) =~= txs@);
    }

    /// The object versions that these transactions created, mutated or unwrapped. Deleted objects
    /// are gone already, and wrapped ones may still be needed.
    fn object_versions_put_out(&self, txs: &[TransactionDigest]) -> (r: Vec<ObjectKey>)
        requires
            self.wf(),
        ensures
            r@ == self@.outputs_of(txs@),
    {
        let ghost f = |tx: TransactionDigest| self@.outputs(tx);
        let mut found: Vec<ObjectKey> = Vec::new();
        let mut i: usize = 0;
        assert(txs@.take(0) =~= Seq::<TransactionDigest>::empty());
        while i < txs.len()
            invariant
                self.wf(),
                i <= txs@.len(),
                f == (|tx: TransactionDigest| self@.outputs(tx)),
                found@ == crate::seq_facts::flat(txs@.take(i as int), f),
            decreases txs@.len() - i,
        {
            let ghost before = found@;
            proof {
                crate::seq_facts::flat_take(txs@, i as int, f);
            }
            if let Some(effects) = self.executed_with(&txs[i]) {
                add_versions(&mut found, &effects.created);
                add_versions(&mut found, &effects.mutated);
                add_versions(&mut found, &effects.unwrapped);
            }
            assert(found@ =~= before + f(txs@[i as int]));
            i = i + 1;
        }
        assert(txs@.take(i as int) =~= txs@);
        found
    }

    /// Adds the writes that remove the object versions that these transactions put out.
    fn remove_objects_after_epoch(&self, batch: &mut Batch, txs: &[TransactionDigest])
        requires
            self.wf(),
        ensures
            final(batch)@ == old(batch)@ + self@.object_ops(txs@),
    {
        let keys = self.object_versions_put_out(txs);
        let ghost before = batch@;
        let ghost ops = keys@.map_values(|key: ObjectKey| BatchOp::DeleteObject(key));
        let mut i: usize = 0;
        assert(batch@ =~= before + ops.take(0));
        while i < keys.len()
            invariant
                i <= keys@.len(),
                ops == keys@.map_values(|key: ObjectKey| BatchOp::DeleteObject(key)),
                batch@ == before + ops.take(i as int),
            decreases keys@.len() - i,
        {
            batch.push(BatchOp::DeleteObject(keys[i]));
            assert(batch@ =~= before + ops.take(i + 1));
            i = i + 1;
        }
        assert(ops.take(i as int) =~= ops);
        self.remove_indirect_objects_for_objects(batch, keys.as_slice());
        assert(batch@ =~= before + self@.object_ops(txs@));
    }

    /// Adds the writes that remove the contents of these object versions that are kept apart.
    fn remove_indirect_objects_for_objects(&self, batch: &mut Batch, keys: &[ObjectKey])
        requires
            self.wf(),
        ensures
            final(batch)@ == old(batch)@ + self@.indirect_ops(keys@),
    {
        let ghost f = |key: ObjectKey| self@.indirect_digest(key);
        let ghost g = |digest: ObjectContentDigest| BatchOp::DeleteIndirectObject(digest);
        let ghost before = batch@;
        let mut i: usize = 0;
        assert(keys@.take(0) =~= Seq::<ObjectKey>::empty());
        assert(batch@ =~= before + crate::seq_facts::flat(keys@.take(0), f).map_values(g));
        while i < keys.len()
            invariant
                self.wf(),
                i <= keys@.len(),
                f == (|key: ObjectKey| self@.indirect_digest(key)),
                g == (|digest: ObjectContentDigest| BatchOp::DeleteIndirectObject(digest)),
                batch@ == before + crate::seq_facts::flat(keys@.take(i as int), f).map_values(g),
            decreases keys@.len() - i,
        {
            let ghost current = batch@;
            proof {
                crate::seq_facts::flat_take(keys@, i as int, f);
            }
            if let Some(row) = self.objects.get(&keys[i]) {
                if let StoreObject::Value(value) = row.inner() {
                    if let StoreData::IndirectObject(metadata) = &value.data {
                        batch.push(BatchOp::DeleteIndirectObject(metadata.digest));
                    }
                }
            }
            assert(batch@ =~= current + f(keys@[i as int]).map_values(g));
            assert(batch@ =~= before + crate::seq_facts::flat(keys@.take(i + 1), f).map_values(g));
            i = i + 1;
        }
        assert(keys@.take(i as int) =~= keys@);
    }

    /// Adds the writes that remove the locks of the object versions that these transactions put out:
    /// those versions are removed too.
    fn clean_up_locks_and_markers(&self, batch: &mut Batch, txs: &[TransactionDigest])
        requires
            self.wf(),
        ensures
            final(batch)@ == old(batch)@ + self@.lock_ops(txs@),
    {
        let keys = self.object_versions_put_out(txs);
        let ghost before = batch@;
        let ghost ops = keys@.map_values(|key: ObjectKey| lock_op(key));
        let mut i: usize = 0;
        assert(batch@ =~= before + ops.take(0));
        while i < keys.len()
            invariant
                i <= keys@.len(),
                ops == keys@.map_values(|key: ObjectKey| lock_op(key)),
                batch@ == before + ops.take(i as int),
            decreases keys@.len() - i,
        {
            let key = keys[i];
            batch.push(
                BatchOp::DeleteLockRange(
                    (key.0, key.1, ObjectDigest::min_digest()),
                    (key.0, key.1, ObjectDigest::max_digest()),
                ),
            );
            assert(batch@ =~= before + ops.take(i + 1));
            i = i + 1;
        }
        assert(ops.take(i as int) =~= ops);
    }
}

} // verus!
