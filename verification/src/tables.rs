//! The tables of an authority, and what is read from and written to them one record at a time.

use crate::base_types::{
    CheckpointSequenceNumber, EpochId, ObjectContentDigest, ObjectDigest, ObjectID, ObjectKey,
    ObjectRef, SequenceNumber, TransactionDigest, TransactionEffectsDigest,
    TransactionEventsDigest, MAX_VERSION,
};
use crate::batch::{Batch, BatchOp};
use crate::ordered_table::{OrderedTable, TableKey};
use crate::error::{MgoError, MgoResult, StorageError};
use crate::object::Object;
use crate::rows::{
    Accumulator, EpochStartConfiguration, Event, LockDetailsWrapper, MarkerValue,
    TransactionEffects, TrustedTransaction,
};
use crate::state::TablesState;
use crate::store_types::{
    get_store_object_pair, try_construct_object, StoreData, StoreMoveObjectWrapper, StoreObject,
    StoreObjectPair, StoreObjectValue, StoreObjectWrapper,
};
use vstd::prelude::*;

verus! {

/// Data that must be preserved from one epoch to the next.
#[derive(Debug)]
pub struct AuthorityPerpetualTables {
    /// The state of each version of each object. Old versions are pruned eventually, but only when
    /// they appear as inputs in the effects of some transaction.
    pub objects: OrderedTable<ObjectKey, StoreObjectWrapper>,
    /// The contents of objects that are stored indirectly.
    pub indirect_move_objects: OrderedTable<ObjectContentDigest, StoreMoveObjectWrapper>,
    /// The transaction that each mutable object version is locked for; `None` where no transaction
    /// has been seen using it yet.
    pub owned_object_transaction_locks: OrderedTable<
        (ObjectID, SequenceNumber, ObjectDigest),
        Option<LockDetailsWrapper>,
    >,
    /// The transactions that are known to be executable.
    pub transactions: OrderedTable<TransactionDigest, TrustedTransaction>,
    /// The effects of transactions, executed here or known to be final in the network.
    pub effects: OrderedTable<TransactionEffectsDigest, TransactionEffects>,
    /// The transactions that were executed here.
    pub executed_effects: OrderedTable<TransactionDigest, TransactionEffectsDigest>,
    /// The events of each transaction, by their digest and index.
    pub events: OrderedTable<(TransactionEventsDigest, usize), Event>,
    /// The epoch and the checkpoint in which a transaction was executed. Superseded by a table of
    /// the current epoch: add no new uses.
    pub executed_transactions_to_checkpoint: OrderedTable<
        TransactionDigest,
        (EpochId, CheckpointSequenceNumber),
    >,
    /// The root state of each finished epoch. Written once per epoch and never changed.
    pub root_state_hash_by_epoch: OrderedTable<EpochId, (CheckpointSequenceNumber, Accumulator)>,
    /// The parameters of the system fixed at the start of the epoch.
    pub epoch_start_configuration: OrderedTable<(), EpochStartConfiguration>,
    /// The latest pruned checkpoint.
    pub pruned_checkpoint: OrderedTable<(), CheckpointSequenceNumber>,
    /// The expected total amount in the network.
    pub expected_network_mgo_amount: OrderedTable<(), u64>,
    /// The expected difference between the storage fund and the storage rebates of live objects.
    pub expected_storage_fund_imbalance: OrderedTable<(), i64>,
    /// The objects that were received or deleted in each epoch.
    pub object_per_epoch_marker_table: OrderedTable<(EpochId, ObjectKey), MarkerValue>,
}

impl View for AuthorityPerpetualTables {
    type V = TablesState;

    open spec fn view(&self) -> TablesState {
        TablesState {
            objects: self.objects@,
            indirect_move_objects: self.indirect_move_objects@,
            owned_object_transaction_locks: self.owned_object_transaction_locks@,
            transactions: self.transactions@,
            effects: self.effects@,
            executed_effects: self.executed_effects@,
            events: self.events@,
            executed_transactions_to_checkpoint: self.executed_transactions_to_checkpoint@,
            root_state_hash_by_epoch: self.root_state_hash_by_epoch@,
            epoch_start_configuration: self.epoch_start_configuration@,
            pruned_checkpoint: self.pruned_checkpoint@,
            expected_network_mgo_amount: self.expected_network_mgo_amount@,
            expected_storage_fund_imbalance: self.expected_storage_fund_imbalance@,
            object_per_epoch_marker_table: self.object_per_epoch_marker_table@,
        }
    }
}

impl AuthorityPerpetualTables {
    /// Every table is in order.
    pub open spec fn wf(&self) -> bool {
        &&& self.objects.wf()
        &&& self.indirect_move_objects.wf()
        &&& self.owned_object_transaction_locks.wf()
        &&& self.transactions.wf()
        &&& self.effects.wf()
        &&& self.executed_effects.wf()
        &&& self.events.wf()
        &&& self.executed_transactions_to_checkpoint.wf()
        &&& self.root_state_hash_by_epoch.wf()
        &&& self.epoch_start_configuration.wf()
        &&& self.pruned_checkpoint.wf()
        &&& self.expected_network_mgo_amount.wf()
        &&& self.expected_storage_fund_imbalance.wf()
        &&& self.object_per_epoch_marker_table.wf()
    }

    /// Tables without rows.
    pub fn new() -> (r: Self)
        ensures
            r.wf(),
            r@ == TablesState::vacant(),
    {
        AuthorityPerpetualTables {
            objects: OrderedTable::new(),
            indirect_move_objects: OrderedTable::new(),
            owned_object_transaction_locks: OrderedTable::new(),
            transactions: OrderedTable::new(),
            effects: OrderedTable::new(),
            executed_effects: OrderedTable::new(),
            events: OrderedTable::new(),
            executed_transactions_to_checkpoint: OrderedTable::new(),
            root_state_hash_by_epoch: OrderedTable::new(),
            epoch_start_configuration: OrderedTable::new(),
            pruned_checkpoint: OrderedTable::new(),
            expected_network_mgo_amount: OrderedTable::new(),
            expected_storage_fund_imbalance: OrderedTable::new(),
            object_per_epoch_marker_table: OrderedTable::new(),
        }
    }

    /// The row of the newest version of an object up to version `bound`.
    fn newest_row(&self, object_id: ObjectID, bound: u64) -> (r: Option<
        &(ObjectKey, StoreObjectWrapper),
    >)
        requires
            self.wf(),
        ensures
            match r {
                Some(row) => {
                    &&& crate::state::newest_up_to(self@.objects, object_id, bound) == Some(row.0)
                    &&& self@.objects.contains_key(row.0)
                    &&& self@.objects[row.0] == row.1
                    &&& row.0.0 == object_id
                },
                None => crate::state::newest_up_to(self@.objects, object_id, bound) is None,
            },
    {
        let limit = ObjectKey(object_id, SequenceNumber(bound));
        let start = self.objects.lower_bound(&limit);
        proof {
            self.objects.rows_are_contents();
        }
        let ghost rows = self.objects.rows();
        // The row at `start` is the one sought if it is the limit itself.
        if start < self.objects.len() && self.objects.row(start).0 == limit {
            let row = self.objects.row(start);
            proof {
                crate::state::newest_is_unique(self@.objects, object_id, bound, row.0);
            }
            return Some(row);
        }
        proof {
            assert forall|o: ObjectKey|
                #[trigger] self@.objects.contains_key(o) && o.0 == object_id && o.1.0
                    <= bound implies exists|i: int| 0 <= i < start && rows[i].0 == o by {
                let keys = crate::ordered_table::rows_keys(rows);
                assert(keys.contains(o));
                let i = choose|i: int| 0 <= i < keys.len() && keys[i] == o;
                assert(rows[i].0 == o);
                crate::keys::object_keys_are_grouped(o, limit);
                crate::keys::object_keys_are_grouped(limit, o);
                ObjectKey::rank_is_injective(o, limit);
                if i >= start {
                    if i > start {
                        assert(keys[start as int].rank() < keys[i].rank());
                    }
                }
            }
        }
        if start > 0 && self.objects.row(start - 1).0.0 == object_id {
            let row = self.objects.row(start - 1);
            proof {
                crate::keys::object_keys_are_grouped(row.0, limit);
                assert forall|o: ObjectKey|
                    #[trigger] self@.objects.contains_key(o) && o.0 == object_id && o.1.0
                        <= bound implies o.1.0 <= row.0.1.0 by {
                    let i = choose|i: int| 0 <= i < start && rows[i].0 == o;
                    let keys = crate::ordered_table::rows_keys(rows);
                    if i < start - 1 {
                        assert(keys[i].rank() < keys[start - 1].rank());
                        crate::keys::object_keys_are_grouped(o, row.0);
                    }
                }
                crate::state::newest_is_unique(self@.objects, object_id, bound, row.0);
            }
            Some(row)
        } else {
            proof {
                if exists|k: ObjectKey|
                    crate::state::is_newest_up_to(self@.objects, object_id, bound, k) {
                    let k = choose|k: ObjectKey|
                        crate::state::is_newest_up_to(self@.objects, object_id, bound, k);
                    assert(self@.objects.contains_key(k));
                    let i = choose|i: int| 0 <= i < start && rows[i].0 == k;
                    let keys = crate::ordered_table::rows_keys(rows);
                    let last = rows[start - 1].0;
                    assert(i < start - 1);
                    assert(keys[i].rank() < keys[start - 1].rank());
                    crate::keys::object_keys_are_grouped(k, last);
                    crate::keys::object_keys_are_grouped(last, limit);
                }
            }
            None
        }
    }

    /// The newest version of an object that is not newer than `version`, if it can be read and was
    /// neither deleted nor wrapped.
    ///
    /// A child object is found this way from its parent: the child is never newer.
    pub fn find_object_lt_or_eq_version(
        &self,
        object_id: ObjectID,
        version: SequenceNumber,
    ) -> (r: Option<Object>)
        requires
            self.wf(),
        ensures
            r == match self@.read_newest(
                object_id,
                if version.0 <= MAX_VERSION {
                    version.0
                } else {
                    MAX_VERSION
                },
            ) {
                Ok(found) => found,
                Err(_) => None,
            },
    {
        let bound: u64 = if version.0 <= MAX_VERSION {
            version.0
        } else {
            MAX_VERSION
        };
        match self.newest_row(object_id, bound) {
            Some(row) => match self.object(&row.0, row.1.clone()) {
                Ok(found) => found,
                Err(_) => None,
            },
            None => None,
        }
    }

    /// Puts a stored object together, fetching contents that are kept apart.
    fn construct_object(&self, object_key: &ObjectKey, store_object: StoreObjectValue) -> (r: Result<
        Object,
        MgoError,
    >)
        requires
            self.wf(),
        ensures
            match r {
                Ok(object) => self@.constructed(*object_key, store_object) == Some(object),
                Err(e) => {
                    &&& self@.constructed(*object_key, store_object) is None
                    &&& e.is_inconsistent_object()
                },
            },
    {
        let indirect_object = match &store_object.data {
            StoreData::IndirectObject(metadata) => match self.indirect_move_objects.get(
                &metadata.digest,
            ) {
                Some(contents) => Some(contents.clone().migrate().into_inner()),
                None => None,
            },
            _ => None,
        };
        try_construct_object(object_key, store_object, indirect_object)
    }

    /// Reads a row of the objects table: `None` if the object was deleted or wrapped.
    pub fn object(&self, object_key: &ObjectKey, store_object: StoreObjectWrapper) -> (r: Result<
        Option<Object>,
        MgoError,
    >)
        requires
            self.wf(),
        ensures
            match r {
                Ok(found) => self@.read_row(*object_key, store_object) == Ok::<
                    Option<Object>,
                    (),
                >(found),
                Err(e) => {
                    &&& self@.read_row(*object_key, store_object) is Err
                    &&& e.is_inconsistent_object()
                },
            },
    {
        match store_object.migrate().into_inner() {
            StoreObject::Value(value) => match self.construct_object(object_key, value) {
                Ok(object) => Ok(Some(object)),
                Err(e) => Err(e),
            },
            _ => Ok(None),
        }
    }

    /// The reference that a row of the objects table gives. A deleted or wrapped object has a
    /// reference too, with a digest that says so.
    pub fn object_reference(
        &self,
        object_key: &ObjectKey,
        store_object: StoreObjectWrapper,
    ) -> (r: Result<ObjectRef, MgoError>)
        requires
            self.wf(),
        ensures
            match r {
                Ok(reference) => self@.row_reference(*object_key, store_object) == Some(reference),
                Err(e) => {
                    &&& self@.row_reference(*object_key, store_object) is None
                    &&& e.is_inconsistent_object()
                },
            },
    {
        match store_object.migrate().into_inner() {
            StoreObject::Value(value) => match self.construct_object(object_key, value) {
                Ok(object) => Ok(object.compute_object_reference()),
                Err(e) => Err(e),
            },
            StoreObject::Deleted => Ok((object_key.0, object_key.1, ObjectDigest::deleted())),
            StoreObject::Wrapped => Ok((object_key.0, object_key.1, ObjectDigest::wrapped())),
        }
    }

    /// The reference of a deleted or wrapped object; `None` for any other.
    pub fn tombstone_reference(
        &self,
        object_key: &ObjectKey,
        store_object: &StoreObjectWrapper,
    ) -> (r: Result<Option<ObjectRef>, MgoError>)
        ensures
            r == Ok::<Option<ObjectRef>, MgoError>(
                match store_object.spec_inner() {
                    StoreObject::Value(_) => None,
                    StoreObject::Deleted => Some(
                        (object_key.0, object_key.1, crate::base_types::digest_deleted()),
                    ),
                    StoreObject::Wrapped => Some(
                        (object_key.0, object_key.1, crate::base_types::digest_wrapped()),
                    ),
                },
            ),
    {
        let reference = match store_object.inner() {
            StoreObject::Deleted => Some((object_key.0, object_key.1, ObjectDigest::deleted())),
            StoreObject::Wrapped => Some((object_key.0, object_key.1, ObjectDigest::wrapped())),
            _ => None,
        };
        Ok(reference)
    }

    /// The reference of the newest version of an object, deleted or wrapped ones included.
    pub fn get_latest_object_ref_or_tombstone(&self, object_id: ObjectID) -> (r: Result<
        Option<ObjectRef>,
        MgoError,
    >)
        requires
            self.wf(),
        ensures
            match (self@.latest(object_id), r) {
                (None, r) => r == Ok::<Option<ObjectRef>, MgoError>(None),
                (Some(key), Ok(reference)) => {
                    &&& reference is Some
                    &&& reference == self@.row_reference(key, self@.objects[key])
                },
                (Some(key), Err(e)) => {
                    &&& self@.row_reference(key, self@.objects[key]) is None
                    &&& e.is_inconsistent_object()
                },
            },
    {
        match self.newest_row(object_id, MAX_VERSION) {
            Some(row) => match self.object_reference(&row.0, row.1.clone()) {
                Ok(reference) => Ok(Some(reference)),
                Err(e) => Err(e),
            },
            None => Ok(None),
        }
    }

    /// The row of the newest version of an object, deleted or wrapped ones included.
    pub fn get_latest_object_or_tombstone(&self, object_id: ObjectID) -> (r: Result<
        Option<(ObjectKey, StoreObjectWrapper)>,
        MgoError,
    >)
        requires
            self.wf(),
        ensures
            r == Ok::<Option<(ObjectKey, StoreObjectWrapper)>, MgoError>(
                match self@.latest(object_id) {
                    Some(key) => Some((key, self@.objects[key])),
                    None => None,
                },
            ),
    {
        match self.newest_row(object_id, MAX_VERSION) {
            Some(row) => Ok(Some((row.0, row.1.clone()))),
            None => Ok(None),
        }
    }

    /// The newest version of an object; `None` if there is none, or if it was deleted or wrapped.
    pub fn get_object(&self, object_id: &ObjectID) -> (r: Result<Option<Object>, StorageError>)
        requires
            self.wf(),
        ensures
            match r {
                Ok(found) => self@.read_newest(*object_id, MAX_VERSION) == Ok::<
                    Option<Object>,
                    (),
                >(found),
                Err(e) => {
                    &&& self@.read_newest(*object_id, MAX_VERSION) is Err
                    &&& e.cause.is_inconsistent_object()
                },
            },
    {
        match self.newest_row(*object_id, MAX_VERSION) {
            Some(row) => match self.object(&row.0, row.1.clone()) {
                Ok(found) => Ok(found),
                Err(e) => Err(StorageError::custom(e)),
            },
            None => Ok(None),
        }
    }

    /// One version of an object; `None` if there is none, or if it was deleted or wrapped.
    pub fn get_object_by_key(&self, object_id: &ObjectID, version: SequenceNumber) -> (r: Result<
        Option<Object>,
        StorageError,
    >)
        requires
            self.wf(),
        ensures
            match r {
                Ok(found) => self@.read_version(ObjectKey(*object_id, version)) == Ok::<
                    Option<Object>,
                    (),
                >(found),
                Err(e) => {
                    &&& self@.read_version(ObjectKey(*object_id, version)) is Err
                    &&& e.cause.is_inconsistent_object()
                },
            },
    {
        let key = ObjectKey(*object_id, version);
        match self.objects.get(&key) {
            Some(row) => match self.object(&key, row.clone()) {
                Ok(found) => Ok(found),
                Err(e) => Err(StorageError::custom(e)),
            },
            None => Ok(None),
        }
    }

    /// The epoch to resume from.
    pub fn get_recovery_epoch_at_restart(&self) -> (r: MgoResult<EpochId>)
        requires
            self.wf(),
            self@.epoch_start_configuration.contains_key(()),
        ensures
            r == Ok::<EpochId, MgoError>(
                self@.epoch_start_configuration[()].epoch_start_state.epoch,
            ),
    {
        let configuration = self.epoch_start_configuration.get(&()).unwrap();
        Ok(configuration.epoch_start_state.epoch)
    }

    /// Fixes the parameters of the system for the epoch that starts.
    pub fn set_epoch_start_configuration(
        &mut self,
        epoch_start_configuration: &EpochStartConfiguration,
    ) -> (r: MgoResult<()>)
        requires
            old(self).wf(),
        ensures
            final(self).wf(),
            r == Ok::<(), MgoError>(()),
            final(self)@ == (TablesState {
                epoch_start_configuration: old(self)@.epoch_start_configuration.insert(
                    (),
                    *epoch_start_configuration,
                ),
                ..old(self)@
            }),
    {
        let mut wb = Batch::new();
        wb.push(BatchOp::InsertEpochStartConfiguration(epoch_start_configuration.clone()));
        proof {
            lemma_apply_one(self@, wb@[0]);
            assert(wb@ =~= seq![wb@[0]]);
        }
        self.write(&wb);
        Ok(())
    }

    /// The highest checkpoint that was pruned; zero if none was.
    pub fn get_highest_pruned_checkpoint(&self) -> (r: MgoResult<CheckpointSequenceNumber>)
        requires
            self.wf(),
        ensures
            r == Ok::<CheckpointSequenceNumber, MgoError>(
                if self@.pruned_checkpoint.contains_key(()) {
                    self@.pruned_checkpoint[()]
                } else {
                    0
                },
            ),
    {
        match self.pruned_checkpoint.get(&()) {
            Some(number) => Ok(*number),
            None => Ok(0),
        }
    }

    /// Adds to a batch the write that records the highest pruned checkpoint.
    pub fn set_highest_pruned_checkpoint(
        &self,
        wb: &mut Batch,
        checkpoint_number: CheckpointSequenceNumber,
    ) -> (r: MgoResult<()>)
        ensures
            r == Ok::<(), MgoError>(()),
            final(wb)@ == old(wb)@.push(BatchOp::InsertPrunedCheckpoint(checkpoint_number)),
    {
        wb.push(BatchOp::InsertPrunedCheckpoint(checkpoint_number));
        Ok(())
    }

    /// Records the highest pruned checkpoint at once.
    pub fn set_highest_pruned_checkpoint_without_wb(
        &mut self,
        checkpoint_number: CheckpointSequenceNumber,
    ) -> (r: MgoResult<()>)
        requires
            old(self).wf(),
        ensures
            final(self).wf(),
            r == Ok::<(), MgoError>(()),
            final(self)@ == (TablesState {
                pruned_checkpoint: old(self)@.pruned_checkpoint.insert((), checkpoint_number),
                ..old(self)@
            }),
    {
        let mut wb = Batch::new();
        match self.set_highest_pruned_checkpoint(&mut wb, checkpoint_number) {
            Ok(()) => {},
            Err(e) => {
                return Err(e);
            },
        }
        proof {
            lemma_apply_one(self@, wb@[0]);
            assert(wb@ =~= seq![wb@[0]]);
        }
        self.write(&wb);
        Ok(())
    }

    /// A transaction that is known to be executable.
    pub fn get_transaction(&self, digest: &TransactionDigest) -> (r: MgoResult<
        Option<TrustedTransaction>,
    >)
        requires
            self.wf(),
        ensures
            r == Ok::<Option<TrustedTransaction>, MgoError>(
                if self@.transactions.contains_key(*digest) {
                    Some(self@.transactions[*digest])
                } else {
                    None
                },
            ),
    {
        match self.transactions.get(digest) {
            Some(transaction) => Ok(Some(transaction.clone())),
            None => Ok(None),
        }
    }

    /// The effects of a transaction that was executed here.
    pub fn get_effects(&self, digest: &TransactionDigest) -> (r: MgoResult<
        Option<TransactionEffects>,
    >)
        requires
            self.wf(),
        ensures
            r == Ok::<Option<TransactionEffects>, MgoError>(self@.effects_of(*digest)),
    {
        match self.executed_effects.get(digest) {
            Some(effects_digest) => match self.effects.get(effects_digest) {
                Some(effects) => Ok(Some(effects.clone())),
                None => Ok(None),
            },
            None => Ok(None),
        }
    }

    /// The epoch and the checkpoint in which a transaction was executed. Add no new uses.
    pub fn get_checkpoint_sequence_number(&self, digest: &TransactionDigest) -> (r: MgoResult<
        Option<(EpochId, CheckpointSequenceNumber)>,
    >)
        requires
            self.wf(),
        ensures
            r == Ok::<Option<(EpochId, CheckpointSequenceNumber)>, MgoError>(
                if self@.executed_transactions_to_checkpoint.contains_key(*digest) {
                    Some(self@.executed_transactions_to_checkpoint[*digest])
                } else {
                    None
                },
            ),
    {
        match self.executed_transactions_to_checkpoint.get(digest) {
            Some(checkpoint) => Ok(Some(*checkpoint)),
            None => Ok(None),
        }
    }

    /// Whether there are no objects.
    pub fn database_is_empty(&self) -> (r: MgoResult<bool>)
        requires
            self.wf(),
        ensures
            r == Ok::<bool, MgoError>(
                self@.objects == Map::<ObjectKey, StoreObjectWrapper>::empty(),
            ),
    {
        Ok(self.objects.is_empty())
    }

    /// The root state of an epoch.
    pub fn get_root_state_hash(&self, epoch: EpochId) -> (r: MgoResult<
        Option<(CheckpointSequenceNumber, Accumulator)>,
    >)
        requires
            self.wf(),
        ensures
            r == Ok::<Option<(CheckpointSequenceNumber, Accumulator)>, MgoError>(
                self@.root_state(epoch),
            ),
    {
        match self.root_state_hash_by_epoch.get(&epoch) {
            Some(row) => Ok(Some((row.0, row.1.clone()))),
            None => Ok(None),
        }
    }

    /// Records the root state of an epoch.
    pub fn insert_root_state_hash(
        &mut self,
        epoch: EpochId,
        last_checkpoint_of_epoch: CheckpointSequenceNumber,
        accumulator: Accumulator,
    ) -> (r: MgoResult<()>)
        requires
            old(self).wf(),
        ensures
            final(self).wf(),
            r == Ok::<(), MgoError>(()),
            final(self)@ == old(self)@.with_root_state(
                epoch,
                (last_checkpoint_of_epoch, accumulator),
            ),
    {
        self.root_state_hash_by_epoch.insert(epoch, (last_checkpoint_of_epoch, accumulator));
        Ok(())
    }

    /// Records an object with its contents kept in its row.
    pub fn insert_object_test_only(&mut self, object: Object) -> (r: MgoResult<()>)
        requires
            old(self).wf(),
        ensures
            final(self).wf(),
            r == Ok::<(), MgoError>(()),
            final(self)@ == old(self)@.with_object(object),
    {
        let wb = Self::insert_object_batch(object);
        proof {
            lemma_apply_one(self@, wb@[0]);
        }
        self.write(&wb);
        Ok(())
    }

    /// The write that records an object with its contents kept in its row.
    pub fn insert_object_batch(object: Object) -> (r: Batch)
        ensures
            r@ == seq![
                BatchOp::InsertObject(
                    ObjectKey(object.spec_id(), object.spec_version()),
                    crate::store_types::stored_whole(object),
                ),
            ],
    {
        let object_reference = object.compute_object_reference();
        let StoreObjectPair(wrapper, _indirect_object) = get_store_object_pair(object);
        let mut wb = Batch::new();
        wb.push(BatchOp::InsertObject(ObjectKey::from_ref(&object_reference), wrapper));
        assert(wb@ =~= seq![wb@[0]]);
        wb
    }

    /// Empties every table that execution since genesis fills again. The transactions and their
    /// effects stay: they are what is executed again.
    pub fn reset_db_for_execution_since_genesis(&mut self) -> (r: MgoResult<()>)
        requires
            old(self).wf(),
        ensures
            final(self).wf(),
            r == Ok::<(), MgoError>(()),
            final(self)@ == old(self)@.reset(),
    {
        self.objects.clear();
        self.indirect_move_objects.clear();
        self.owned_object_transaction_locks.clear();
        self.executed_effects.clear();
        self.events.clear();
        self.executed_transactions_to_checkpoint.clear();
        self.root_state_hash_by_epoch.clear();
        self.epoch_start_configuration.clear();
        self.pruned_checkpoint.clear();
        self.expected_network_mgo_amount.clear();
        self.expected_storage_fund_imbalance.clear();
        self.object_per_epoch_marker_table.clear();
        Ok(())
    }

    /// Carries out one write.
    fn write_one(&mut self, op: &BatchOp)
        requires
            old(self).wf(),
        ensures
            final(self).wf(),
            final(self)@ == old(self)@.apply(*op),
    {
        match op {
            BatchOp::InsertObject(key, row) => self.objects.insert(*key, row.clone()),
            BatchOp::DeleteObject(key) => self.objects.remove(key),
            BatchOp::DeleteIndirectObject(digest) => self.indirect_move_objects.remove(digest),
            BatchOp::InsertLock(object, lock) => self.owned_object_transaction_locks.insert(
                *object,
                *lock,
            ),
            BatchOp::DeleteLockRange(from, to) => self.owned_object_transaction_locks.remove_range(
                from,
                to,
            ),
            BatchOp::DeleteTransaction(tx) => self.transactions.remove(tx),
            BatchOp::DeleteEffects(digest) => self.effects.remove(digest),
            BatchOp::DeleteExecutedEffects(tx) => self.executed_effects.remove(tx),
            BatchOp::DeleteExecutedCheckpoint(
                tx,
            ) => self.executed_transactions_to_checkpoint.remove(tx),
            BatchOp::DeleteEventRange(from, to) => self.events.remove_range(from, to),
            BatchOp::InsertRootStateHash(epoch, row) => self.root_state_hash_by_epoch.insert(
                *epoch,
                (row.0, row.1.clone()),
            ),
            BatchOp::DeleteRootStateHash(epoch) => self.root_state_hash_by_epoch.remove(epoch),
            BatchOp::InsertEpochStartConfiguration(
                configuration,
            ) => self.epoch_start_configuration.insert((), configuration.clone()),
            BatchOp::InsertPrunedCheckpoint(number) => self.pruned_checkpoint.insert((), *number),
            BatchOp::DeleteMarker(epoch, key) => self.object_per_epoch_marker_table.remove(
                &(*epoch, *key),
            ),
        }
    }

    /// Carries out the writes of a batch, in their order.
    pub fn write(&mut self, wb: &Batch)
        requires
            old(self).wf(),
        ensures
            final(self).wf(),
            final(self)@ == old(self)@.apply_all(wb@),
    {
        let mut position: usize = 0;
        let ghost start = self@;
        while position < wb.len()
            invariant
                self.wf(),
                position <= wb@.len(),
                self@ == start.apply_all(wb@.take(position as int)),
            decreases wb@.len() - position,
        {
            let op = wb.op(position);
            self.write_one(op);
            proof {
                let done = wb@.take(position + 1);
                assert(done.drop_last() =~= wb@.take(position as int));
                assert(done.last() == *op);
            }
            position = position + 1;
        }
        assert(wb@.take(position as int) =~= wb@);
    }
}

/// A batch with one write does that write.
pub proof fn lemma_apply_one(state: TablesState, op: BatchOp)
    ensures
        state.apply_all(seq![op]) == state.apply(op),
{
    assert(seq![op].drop_last() =~= Seq::<BatchOp>::empty());
    assert(state.apply_all(Seq::<BatchOp>::empty()) == state);
}

} // verus!
