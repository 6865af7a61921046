//! What the tables hold, as maps, and what reading them means.

use crate::base_types::{
    CheckpointSequenceNumber, EpochId, ObjectContentDigest, ObjectID, ObjectKey, ObjectRef,
    TransactionDigest, TransactionEffectsDigest, TransactionEventsDigest, MAX_VERSION,
};
use crate::object::Object;
use crate::rows::{
    Accumulator, EpochStartConfiguration, Event, LockDetailsWrapper, MarkerValue,
    TransactionEffects, TrustedTransaction,
};
use crate::store_types::{
    StoreData, StoreMoveObject, StoreMoveObjectWrapper, StoreObject, StoreObjectValue,
    StoreObjectWrapper,
};
use vstd::prelude::*;

verus! {

/// The contents of all tables.
#[verifier::ext_equal]
pub struct TablesState {
    pub objects: Map<ObjectKey, StoreObjectWrapper>,
    pub indirect_move_objects: Map<ObjectContentDigest, StoreMoveObjectWrapper>,
    pub owned_object_transaction_locks: Map<ObjectRef, Option<LockDetailsWrapper>>,
    pub transactions: Map<TransactionDigest, TrustedTransaction>,
    pub effects: Map<TransactionEffectsDigest, TransactionEffects>,
    pub executed_effects: Map<TransactionDigest, TransactionEffectsDigest>,
    pub events: Map<(TransactionEventsDigest, usize), Event>,
    pub executed_transactions_to_checkpoint: Map<
        TransactionDigest,
        (EpochId, CheckpointSequenceNumber),
    >,
    pub root_state_hash_by_epoch: Map<EpochId, (CheckpointSequenceNumber, Accumulator)>,
    pub epoch_start_configuration: Map<(), EpochStartConfiguration>,
    pub pruned_checkpoint: Map<(), CheckpointSequenceNumber>,
    pub expected_network_mgo_amount: Map<(), u64>,
    pub expected_storage_fund_imbalance: Map<(), i64>,
    pub object_per_epoch_marker_table: Map<(EpochId, ObjectKey), MarkerValue>,
}

/// `k` is the newest version of `id` that `objects` has up to version `bound`.
pub open spec fn is_newest_up_to<V>(
    objects: Map<ObjectKey, V>,
    id: ObjectID,
    bound: u64,
    k: ObjectKey,
) -> bool {
    &&& objects.contains_key(k)
    &&& k.0 == id
    &&& k.1.0 <= bound
    &&& forall|o: ObjectKey|
        #[trigger] objects.contains_key(o) && o.0 == id && o.1.0 <= bound ==> o.1.0 <= k.1.0
}

/// The newest version of `id` that `objects` has up to version `bound`.
pub open spec fn newest_up_to<V>(objects: Map<ObjectKey, V>, id: ObjectID, bound: u64) -> Option<
    ObjectKey,
> {
    if exists|k: ObjectKey| is_newest_up_to(objects, id, bound, k) {
        Some(choose|k: ObjectKey| is_newest_up_to(objects, id, bound, k))
    } else {
        None
    }
}

/// At most one version is the newest.
pub proof fn newest_is_unique<V>(
    objects: Map<ObjectKey, V>,
    id: ObjectID,
    bound: u64,
    k: ObjectKey,
)
    requires
        is_newest_up_to(objects, id, bound, k),
    ensures
        newest_up_to(objects, id, bound) == Some(k),
{
    let other = choose|o: ObjectKey| is_newest_up_to(objects, id, bound, o);
    assert(objects.contains_key(other) && objects.contains_key(k));
    assert(other.1.0 == k.1.0);
    assert(other.1 == k.1);
}

/// `k` is the newest version of its object that `objects` has before the version `object`.
pub open spec fn is_previous<V>(
    objects: Map<ObjectKey, V>,
    object: ObjectKey,
    k: ObjectKey,
) -> bool {
    &&& objects.contains_key(k)
    &&& k.0 == object.0
    &&& k.1.0 < object.1.0
    &&& forall|o: ObjectKey| #[trigger]
        objects.contains_key(o) && o.0 == object.0 && o.1.0 < object.1.0 ==> o.1.0 <= k.1.0
}

/// The newest version of an object that `objects` has before the version `object`.
pub open spec fn previous_version<V>(objects: Map<ObjectKey, V>, object: ObjectKey) -> Option<
    ObjectKey,
> {
    if exists|k: ObjectKey| is_previous(objects, object, k) {
        Some(choose|k: ObjectKey| is_previous(objects, object, k))
    } else {
        None
    }
}

/// At most one version is the previous one.
pub proof fn previous_is_unique<V>(
    objects: Map<ObjectKey, V>,
    object: ObjectKey,
    k: ObjectKey,
)
    requires
        is_previous(objects, object, k),
    ensures
        previous_version(objects, object) == Some(k),
{
    let other = choose|o: ObjectKey| is_previous(objects, object, o);
    assert(objects.contains_key(other) && objects.contains_key(k));
    assert(other.1 == k.1);
}

impl TablesState {
    /// Tables without rows.
    pub open spec fn vacant() -> TablesState {
        TablesState {
            objects: Map::empty(),
            indirect_move_objects: Map::empty(),
            owned_object_transaction_locks: Map::empty(),
            transactions: Map::empty(),
            effects: Map::empty(),
            executed_effects: Map::empty(),
            events: Map::empty(),
            executed_transactions_to_checkpoint: Map::empty(),
            root_state_hash_by_epoch: Map::empty(),
            epoch_start_configuration: Map::empty(),
            pruned_checkpoint: Map::empty(),
            expected_network_mgo_amount: Map::empty(),
            expected_storage_fund_imbalance: Map::empty(),
            object_per_epoch_marker_table: Map::empty(),
        }
    }

    /// The tables after an object was recorded with its contents in its row.
    pub open spec fn with_object(self, object: Object) -> TablesState {
        TablesState {
            objects: self.objects.insert(
                ObjectKey(object.spec_id(), object.spec_version()),
                crate::store_types::stored_whole(object),
            ),
            ..self
        }
    }

    /// The tables after the root state of an epoch was recorded.
    pub open spec fn with_root_state(
        self,
        epoch: EpochId,
        row: (CheckpointSequenceNumber, Accumulator),
    ) -> TablesState {
        TablesState {
            root_state_hash_by_epoch: self.root_state_hash_by_epoch.insert(epoch, row),
            ..self
        }
    }

    /// The root state of an epoch, if it is on record.
    pub open spec fn root_state(self, epoch: EpochId) -> Option<
        (CheckpointSequenceNumber, Accumulator),
    > {
        if self.root_state_hash_by_epoch.contains_key(epoch) {
            Some(self.root_state_hash_by_epoch[epoch])
        } else {
            None
        }
    }

    /// The tables after everything was emptied that execution since genesis fills again.
    pub open spec fn reset(self) -> TablesState {
        TablesState {
            transactions: self.transactions,
            effects: self.effects,
            ..TablesState::vacant()
        }
    }

    /// The contents that belong to the data of a stored object, where they are kept apart.
    pub open spec fn indirect_contents(self, data: StoreData) -> Option<StoreMoveObject> {
        match data {
            StoreData::IndirectObject(metadata) => if self.indirect_move_objects.contains_key(
                metadata.digest,
            ) {
                Some(self.indirect_move_objects[metadata.digest].spec_inner())
            } else {
                None
            },
            _ => None,
        }
    }

    /// The object that a stored object stands for; `None` if its parts do not fit together.
    pub open spec fn constructed(self, key: ObjectKey, value: StoreObjectValue) -> Option<Object> {
        crate::store_types::assembled(key, value, self.indirect_contents(value.data))
    }

    /// What a row of the objects table reads as: an object, nothing where the object was deleted or
    /// wrapped, or an error where the object cannot be put together.
    pub open spec fn read_row(self, key: ObjectKey, row: StoreObjectWrapper) -> Result<
        Option<Object>,
        (),
    > {
        match row.spec_inner() {
            StoreObject::Value(value) => match self.constructed(key, value) {
                Some(object) => Ok(Some(object)),
                None => Err(()),
            },
            _ => Ok(None),
        }
    }

    /// The reference that a row of the objects table gives; `None` if the object cannot be put
    /// together.
    pub open spec fn row_reference(self, key: ObjectKey, row: StoreObjectWrapper) -> Option<
        ObjectRef,
    > {
        match row.spec_inner() {
            StoreObject::Value(value) => match self.constructed(key, value) {
                Some(object) => Some(object.reference()),
                None => None,
            },
            StoreObject::Deleted => Some((key.0, key.1, crate::base_types::digest_deleted())),
            StoreObject::Wrapped => Some((key.0, key.1, crate::base_types::digest_wrapped())),
        }
    }

    /// The newest version of an object.
    pub open spec fn latest(self, id: ObjectID) -> Option<ObjectKey> {
        newest_up_to(self.objects, id, MAX_VERSION)
    }

    /// What reading the newest version of an object up to `bound` gives.
    pub open spec fn read_newest(self, id: ObjectID, bound: u64) -> Result<Option<Object>, ()> {
        match newest_up_to(self.objects, id, bound) {
            Some(key) => self.read_row(key, self.objects[key]),
            None => Ok(None),
        }
    }

    /// What reading one version of an object gives.
    pub open spec fn read_version(self, key: ObjectKey) -> Result<Option<Object>, ()> {
        if self.objects.contains_key(key) {
            self.read_row(key, self.objects[key])
        } else {
            Ok(None)
        }
    }

    /// The effects of a transaction that was executed here.
    pub open spec fn effects_of(self, tx: TransactionDigest) -> Option<TransactionEffects> {
        if self.executed_effects.contains_key(tx) && self.effects.contains_key(
            self.executed_effects[tx],
        ) {
            Some(self.effects[self.executed_effects[tx]])
        } else {
            None
        }
    }

    /// Whether a lock of this object version lies below the largest digest.
    pub open spec fn locked(self, object: ObjectKey) -> bool {
        exists|lock: ObjectRef| #[trigger]
            self.owned_object_transaction_locks.contains_key(lock) && is_lock_of(lock, object)
    }
}

/// `lock` is a lock of this object version whose digest is not the largest.
pub open spec fn is_lock_of(lock: ObjectRef, object: ObjectKey) -> bool {
    lock.0 == object.0 && lock.1 == object.1 && lock.2 != crate::base_types::digest_max()
}

/// The first possible lock of an object version.
pub open spec fn first_lock(object: ObjectKey) -> ObjectRef {
    (object.0, object.1, crate::base_types::digest_min())
}

/// The last possible lock of an object version.
pub open spec fn last_lock(object: ObjectKey) -> ObjectRef {
    (object.0, object.1, crate::base_types::digest_max())
}

} // verus!
