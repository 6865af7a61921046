//! Reading and writing single records.

use perpetual_tables::base_types::{
    Blob, Bytes32, MgoAddress, ObjectContentDigest, ObjectDigest, ObjectID, ObjectKey, Owner,
    SequenceNumber, TransactionDigest, TransactionEffectsDigest, TransactionEventsDigest,
    MAX_VERSION,
};
use perpetual_tables::batch::{BatchOp, Batch};
use perpetual_tables::error::{MgoError, StorageError};
use perpetual_tables::object::{Data, MoveObject, MovePackage, Object};
use perpetual_tables::rows::{
    Accumulator, EpochStartConfiguration, EpochStartSystemState, Event, MarkerValue,
    TransactionEffects, TrustedTransaction,
};
use perpetual_tables::store_types::{
    get_store_object_pair, IndirectObjectMetadata, StoreData, StoreMoveObject,
    StoreMoveObjectWrapper, StoreObject, StoreObjectValue, StoreObjectWrapper,
};
use perpetual_tables::tables::AuthorityPerpetualTables;
use std::sync::Arc;

fn bytes(n: u128) -> Bytes32 {
    Bytes32 { hi: n, lo: n }
}

fn id(n: u128) -> ObjectID {
    ObjectID(bytes(n))
}

fn key(n: u128, version: u64) -> ObjectKey {
    ObjectKey(id(n), SequenceNumber(version))
}

fn object(n: u128, version: u64) -> Object {
    Object {
        data: Data::Move(MoveObject {
            id: id(n),
            version: SequenceNumber(version),
            contents: Blob::new(vec![version as u8]),
        }),
        owner: Owner::AddressOwner(MgoAddress(bytes(3))),
        previous_transaction: TransactionDigest(bytes(4)),
        storage_rebate: 5,
        digest: ObjectDigest(bytes(version as u128)),
    }
}

fn tombstone(gone: StoreObject) -> StoreObjectWrapper {
    StoreObjectWrapper::V1(gone)
}

fn indirect(version: u64, digest: u128) -> StoreObjectWrapper {
    StoreObjectWrapper::V1(StoreObject::Value(StoreObjectValue {
        data: StoreData::IndirectObject(IndirectObjectMetadata {
            version: SequenceNumber(version),
            digest: ObjectContentDigest(bytes(digest)),
        }),
        owner: Owner::Immutable,
        previous_transaction: TransactionDigest(bytes(4)),
        storage_rebate: 0,
        digest: ObjectDigest(bytes(6)),
    }))
}

fn store_with(objects: &[Object]) -> AuthorityPerpetualTables {
    let mut store = AuthorityPerpetualTables::new();
    for object in objects {
        store.insert_object_test_only(object.clone()).unwrap();
    }
    store
}

fn inconsistent() -> MgoError {
    MgoError::StorageCorruptedFieldError("inconsistent object representation".to_string())
}

#[test]
fn recorded_object_comes_back() {
    let store = store_with(&[object(1, 3), object(1, 5), object(2, 9)]);
    assert_eq!(store.get_object_by_key(&id(1), SequenceNumber(3)), Ok(Some(object(1, 3))));
    assert_eq!(store.get_object_by_key(&id(1), SequenceNumber(4)), Ok(None));
    assert_eq!(store.get_object(&id(1)), Ok(Some(object(1, 5))));
    assert_eq!(store.get_object(&id(2)), Ok(Some(object(2, 9))));
    assert_eq!(store.get_object(&id(3)), Ok(None));
    assert_eq!(
        store.get_latest_object_ref_or_tombstone(id(1)),
        Ok(Some((id(1), SequenceNumber(5), ObjectDigest(bytes(5)))))
    );
}

#[test]
fn package_comes_back() {
    let package = Object {
        data: Data::Package(MovePackage {
            id: id(8),
            version: SequenceNumber(1),
            modules: Arc::new(vec![Blob::new(vec![1, 2])]),
            dependencies: Arc::new(vec![id(1)]),
        }),
        owner: Owner::Immutable,
        previous_transaction: TransactionDigest(bytes(0)),
        storage_rebate: 0,
        digest: ObjectDigest(bytes(7)),
    };
    let store = store_with(&[package.clone()]);
    assert_eq!(store.get_object(&id(8)), Ok(Some(package)));
}

#[test]
fn found_version_is_the_newest_that_is_not_newer() {
    let store = store_with(&[object(1, 3), object(1, 5), object(2, 1)]);
    let found = |n: u128, version: u64| {
        store.find_object_lt_or_eq_version(id(n), SequenceNumber(version))
    };
    assert_eq!(found(1, 2), None);
    assert_eq!(found(1, 3), Some(object(1, 3)));
    assert_eq!(found(1, 4), Some(object(1, 3)));
    assert_eq!(found(1, 5), Some(object(1, 5)));
    assert_eq!(found(1, u64::MAX), Some(object(1, 5)));
    assert_eq!(found(2, 0), None);
    assert_eq!(found(3, 9), None);
}

#[test]
fn versions_above_the_largest_are_not_looked_up() {
    let mut store = store_with(&[object(1, 3)]);
    store.objects.insert(
        key(1, MAX_VERSION + 1),
        get_store_object_pair(object(1, MAX_VERSION + 1)).0,
    );
    assert_eq!(store.get_object(&id(1)), Ok(Some(object(1, 3))));
    assert_eq!(
        store.find_object_lt_or_eq_version(id(1), SequenceNumber(u64::MAX)),
        Some(object(1, 3))
    );
    assert_eq!(
        store.get_object_by_key(&id(1), SequenceNumber(MAX_VERSION + 1)),
        Ok(Some(object(1, MAX_VERSION + 1)))
    );
}

#[test]
fn tombstones_read_as_nothing_but_have_references() {
    let mut store = store_with(&[object(1, 3), object(2, 3)]);
    store.objects.insert(key(1, 4), tombstone(StoreObject::Deleted));
    store.objects.insert(key(2, 4), tombstone(StoreObject::Wrapped));
    assert_eq!(store.get_object(&id(1)), Ok(None));
    assert_eq!(store.get_object(&id(2)), Ok(None));
    assert_eq!(store.find_object_lt_or_eq_version(id(1), SequenceNumber(4)), None);
    let deleted = (id(1), SequenceNumber(4), ObjectDigest::deleted());
    let wrapped = (id(2), SequenceNumber(4), ObjectDigest::wrapped());
    assert_eq!(deleted.2 .0.hi.to_be_bytes(), [99; 16]);
    assert_eq!(wrapped.2 .0.lo.to_be_bytes(), [88; 16]);
    assert_eq!(store.get_latest_object_ref_or_tombstone(id(1)), Ok(Some(deleted)));
    assert_eq!(store.get_latest_object_ref_or_tombstone(id(2)), Ok(Some(wrapped)));
    assert_eq!(store.get_latest_object_ref_or_tombstone(id(7)), Ok(None));
    assert_eq!(
        store.get_latest_object_or_tombstone(id(1)),
        Ok(Some((key(1, 4), tombstone(StoreObject::Deleted))))
    );
    assert_eq!(
        store.tombstone_reference(&key(1, 4), &tombstone(StoreObject::Deleted)),
        Ok(Some(deleted))
    );
    assert_eq!(
        store.tombstone_reference(&key(2, 4), &tombstone(StoreObject::Wrapped)),
        Ok(Some(wrapped))
    );
    let whole = get_store_object_pair(object(1, 3)).0;
    assert_eq!(store.tombstone_reference(&key(1, 3), &whole), Ok(None));
    assert_eq!(store.object(&key(1, 3), whole.clone()), Ok(Some(object(1, 3))));
    assert_eq!(
        store.object_reference(&key(1, 3), whole),
        Ok(object(1, 3).compute_object_reference())
    );
}

#[test]
fn contents_kept_apart_are_put_together() {
    let mut store = AuthorityPerpetualTables::new();
    store.objects.insert(key(1, 2), indirect(2, 50));
    assert_eq!(
        store.get_object(&id(1)),
        Err(StorageError { cause: inconsistent() })
    );
    assert_eq!(
        store.get_object_by_key(&id(1), SequenceNumber(2)),
        Err(StorageError { cause: inconsistent() })
    );
    assert_eq!(store.get_latest_object_ref_or_tombstone(id(1)), Err(inconsistent()));
    assert_eq!(store.find_object_lt_or_eq_version(id(1), SequenceNumber(2)), None);
    store.indirect_move_objects.insert(
        ObjectContentDigest(bytes(50)),
        StoreMoveObjectWrapper::V1(StoreMoveObject { contents: Blob::new(vec![1, 2, 3]) }),
    );
    let found = store.get_object(&id(1)).unwrap().unwrap();
    assert_eq!(
        found.data,
        Data::Move(MoveObject {
            id: id(1),
            version: SequenceNumber(2),
            contents: Blob::new(vec![1, 2, 3]),
        })
    );
}

#[test]
fn newer_versions_are_listed_oldest_first() {
    let mut store = store_with(&[object(1, 3), object(1, 5), object(1, 4), object(2, 8)]);
    store.objects.insert(key(1, 9), tombstone(StoreObject::Deleted));
    store.objects.insert(key(1, MAX_VERSION), tombstone(StoreObject::Deleted));
    assert_eq!(
        store.get_newer_object_keys(&(id(1), SequenceNumber(3))),
        Ok(vec![key(1, 4), key(1, 5), key(1, 9)])
    );
    assert_eq!(store.get_newer_object_keys(&(id(1), SequenceNumber(9))), Ok(vec![]));
    assert_eq!(store.get_newer_object_keys(&(id(3), SequenceNumber(0))), Ok(vec![]));
}

#[test]
fn single_values_are_read_back() {
    let mut store = AuthorityPerpetualTables::new();
    assert_eq!(store.get_highest_pruned_checkpoint(), Ok(0));
    store.set_highest_pruned_checkpoint_without_wb(7).unwrap();
    assert_eq!(store.get_highest_pruned_checkpoint(), Ok(7));
    let mut wb = Batch::new();
    store.set_highest_pruned_checkpoint(&mut wb, 9).unwrap();
    assert_eq!(wb.len(), 1);
    assert_eq!(*wb.op(0), BatchOp::InsertPrunedCheckpoint(9));
    assert_eq!(store.get_highest_pruned_checkpoint(), Ok(7));
    store.write(&wb);
    assert_eq!(store.get_highest_pruned_checkpoint(), Ok(9));

    let configuration = |epoch: u64| EpochStartConfiguration {
        epoch_start_state: EpochStartSystemState { epoch, data: Blob::new(vec![]) },
    };
    store.set_epoch_start_configuration(&configuration(3)).unwrap();
    store.set_epoch_start_configuration(&configuration(4)).unwrap();
    assert_eq!(store.get_recovery_epoch_at_restart(), Ok(4));

    let accumulator = || Accumulator { data: Blob::new(vec![1]) };
    assert_eq!(store.get_root_state_hash(2), Ok(None));
    store.insert_root_state_hash(2, 200, accumulator()).unwrap();
    assert_eq!(store.get_root_state_hash(2), Ok(Some((200, accumulator()))));
    assert_eq!(store.get_root_state_hash(1), Ok(None));
}

#[test]
fn transactions_and_effects_are_looked_up() {
    let mut store = AuthorityPerpetualTables::new();
    let tx = TransactionDigest(bytes(1));
    let digest = TransactionEffectsDigest(bytes(2));
    let transaction = TrustedTransaction { data: Blob::new(vec![9]) };
    let effects = TransactionEffects {
        transaction_digest: tx,
        executed_epoch: 3,
        created: Arc::new(vec![]),
        mutated: Arc::new(vec![]),
        unwrapped: Arc::new(vec![]),
        deleted: Arc::new(vec![]),
        wrapped: Arc::new(vec![]),
        events_digest: None,
    };
    assert_eq!(store.get_transaction(&tx), Ok(None));
    store.transactions.insert(tx, transaction.clone());
    assert_eq!(store.get_transaction(&tx), Ok(Some(transaction)));
    store.effects.insert(digest, effects.clone());
    assert_eq!(store.get_effects(&tx), Ok(None));
    store.executed_effects.insert(tx, digest);
    assert_eq!(store.get_effects(&tx), Ok(Some(effects)));
    store.effects.remove(&digest);
    assert_eq!(store.get_effects(&tx), Ok(None));
    assert_eq!(store.get_checkpoint_sequence_number(&tx), Ok(None));
    store.executed_transactions_to_checkpoint.insert(tx, (4, 40));
    assert_eq!(store.get_checkpoint_sequence_number(&tx), Ok(Some((4, 40))));
}

#[test]
fn a_reset_keeps_transactions_and_effects() {
    let mut store = store_with(&[object(1, 3)]);
    let tx = TransactionDigest(bytes(1));
    let digest = TransactionEffectsDigest(bytes(2));
    assert_eq!(store.database_is_empty(), Ok(false));
    store.transactions.insert(tx, TrustedTransaction { data: Blob::new(vec![9]) });
    store.effects.insert(
        digest,
        TransactionEffects {
            transaction_digest: tx,
            executed_epoch: 3,
            created: Arc::new(vec![]),
            mutated: Arc::new(vec![]),
            unwrapped: Arc::new(vec![]),
            deleted: Arc::new(vec![]),
            wrapped: Arc::new(vec![]),
            events_digest: None,
        },
    );
    store.executed_effects.insert(tx, digest);
    store.executed_transactions_to_checkpoint.insert(tx, (3, 30));
    store.events.insert((TransactionEventsDigest(bytes(3)), 0), Event { data: Blob::new(vec![]) });
    store
        .owned_object_transaction_locks
        .insert((id(1), SequenceNumber(3), ObjectDigest(bytes(3))), None);
    store.insert_root_state_hash(3, 30, Accumulator { data: Blob::new(vec![]) }).unwrap();
    store.set_highest_pruned_checkpoint_without_wb(7).unwrap();
    store.expected_network_mgo_amount.insert((), 1);
    store.expected_storage_fund_imbalance.insert((), 1);
    store.object_per_epoch_marker_table.insert((3, key(1, 3)), MarkerValue::OwnedDeleted);

    store.reset_db_for_execution_since_genesis().unwrap();

    assert_eq!(store.database_is_empty(), Ok(true));
    assert!(store.transactions.contains_key(&tx));
    assert!(store.effects.contains_key(&digest));
    assert!(store.executed_effects.is_empty());
    assert!(store.executed_transactions_to_checkpoint.is_empty());
    assert!(store.events.is_empty());
    assert!(store.owned_object_transaction_locks.is_empty());
    assert!(store.root_state_hash_by_epoch.is_empty());
    assert!(store.pruned_checkpoint.is_empty());
    assert!(store.expected_network_mgo_amount.is_empty());
    assert!(store.expected_storage_fund_imbalance.is_empty());
    assert!(store.object_per_epoch_marker_table.is_empty());
    assert_eq!(store.get_effects(&tx), Ok(None));
}

#[test]
fn error_texts() {
    assert_eq!(inconsistent().message(), "inconsistent object representation");
    let other = MgoError::GenericAuthorityError { error: "no".to_string() };
    assert_eq!(other.message(), "no");
    assert_eq!(StorageError::custom(other).cause.message(), "no");
}

#[test]
fn a_table_is_walked_in_the_order_of_its_keys() {
    let mut store = AuthorityPerpetualTables::new();
    for epoch in [5u64, 1, 3, 3, 2] {
        store.insert_root_state_hash(epoch, epoch, Accumulator { data: Blob::new(vec![]) }).unwrap();
    }
    let table = &mut store.root_state_hash_by_epoch;
    let walked: Vec<u64> = (0..table.len()).map(|i| table.row(i).0).collect();
    assert_eq!(walked, vec![1, 2, 3, 5]);
    assert_eq!(table.lower_bound(&4), 3);
    assert_eq!(table.lower_bound(&6), 4);
    table.remove_range(&2, &5);
    let left: Vec<u64> = (0..table.len()).map(|i| table.row(i).0).collect();
    assert_eq!(left, vec![1, 5]);
    table.remove(&1);
    table.remove(&9);
    assert_eq!(table.len(), 1);
    table.clear();
    assert!(table.is_empty());
}
