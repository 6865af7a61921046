//! Locks, and taking back what a transaction put out.

use perpetual_tables::base_types::{
    Blob, Bytes32, MgoAddress, ObjectContentDigest, ObjectDigest, ObjectID, ObjectKey, ObjectRef,
    Owner, SequenceNumber, TransactionDigest, TransactionEffectsDigest,
};
use perpetual_tables::error::MgoError;
use perpetual_tables::object::{Data, MoveObject, Object};
use perpetual_tables::rows::{LockDetails, LockDetailsWrapper};
use perpetual_tables::store_types::{
    IndirectObjectMetadata, StoreData, StoreObject, StoreObjectValue, StoreObjectWrapper,
};
use perpetual_tables::tables::AuthorityPerpetualTables;

fn bytes(n: u128) -> Bytes32 {
    Bytes32 { hi: 0, lo: n }
}

fn id(n: u128) -> ObjectID {
    ObjectID(bytes(n))
}

fn key(n: u128, version: u64) -> ObjectKey {
    ObjectKey(id(n), SequenceNumber(version))
}

fn reference(n: u128, version: u64) -> ObjectRef {
    (id(n), SequenceNumber(version), ObjectDigest(bytes(100 * n + version as u128)))
}

fn object(n: u128, version: u64) -> Object {
    Object {
        data: Data::Move(MoveObject {
            id: id(n),
            version: SequenceNumber(version),
            contents: Blob::new(vec![]),
        }),
        owner: Owner::AddressOwner(MgoAddress(bytes(3))),
        previous_transaction: TransactionDigest(bytes(4)),
        storage_rebate: 5,
        digest: reference(n, version).2,
    }
}

fn lock() -> Option<LockDetailsWrapper> {
    Some(LockDetailsWrapper::V1(LockDetails {
        epoch: 1,
        tx_digest: TransactionDigest(bytes(9)),
    }))
}

fn unreadable() -> StoreObjectWrapper {
    StoreObjectWrapper::V1(StoreObject::Value(StoreObjectValue {
        data: StoreData::IndirectObject(IndirectObjectMetadata {
            version: SequenceNumber(1),
            digest: ObjectContentDigest(bytes(77)),
        }),
        owner: Owner::Immutable,
        previous_transaction: TransactionDigest(bytes(4)),
        storage_rebate: 0,
        digest: ObjectDigest(bytes(6)),
    }))
}

fn inconsistent() -> MgoError {
    MgoError::inconsistent_object()
}

#[test]
fn locks_are_found_by_version() {
    let mut store = AuthorityPerpetualTables::new();
    store.owned_object_transaction_locks.insert(reference(1, 4), None);
    store
        .owned_object_transaction_locks
        .insert((id(2), SequenceNumber(4), ObjectDigest::max_digest()), lock());
    assert_eq!(store.has_object_lock(&key(1, 4)), Ok(true));
    assert_eq!(store.has_object_lock(&key(1, 3)), Ok(false));
    assert_eq!(store.has_object_lock(&key(1, 5)), Ok(false));
    assert_eq!(store.has_object_lock(&key(2, 4)), Ok(false));
    store
        .owned_object_transaction_locks
        .insert((id(2), SequenceNumber(4), ObjectDigest::min_digest()), None);
    assert_eq!(store.has_object_lock(&key(2, 4)), Ok(true));
}

#[test]
fn the_lock_of_a_version_that_is_gone_goes_back() {
    let mut store = AuthorityPerpetualTables::new();
    store.insert_object_test_only(object(1, 2)).unwrap();
    store.insert_object_test_only(object(1, 3)).unwrap();
    store.owned_object_transaction_locks.insert(reference(1, 4), lock());
    store.owned_object_transaction_locks.insert(reference(1, 2), lock());
    assert_eq!(store.remove_object_lock_subtle(&key(1, 4)), Ok(reference(1, 3)));
    assert_eq!(store.has_object_lock(&key(1, 4)), Ok(false));
    assert_eq!(store.owned_object_transaction_locks.get(&reference(1, 3)), Some(&None));
    assert_eq!(store.owned_object_transaction_locks.get(&reference(1, 2)), Some(&lock()));
    assert_eq!(store.owned_object_transaction_locks.len(), 2);
}

#[test]
fn the_previous_version_is_the_one_locked() {
    let mut store = AuthorityPerpetualTables::new();
    store.insert_object_test_only(object(1, 1)).unwrap();
    store.insert_object_test_only(object(1, 2)).unwrap();
    store.owned_object_transaction_locks.insert(reference(1, 2), lock());
    assert_eq!(store.previous_version(&key(1, 2)), Some(key(1, 1)));
    assert_eq!(store.remove_object_lock_subtle(&key(1, 2)), Ok(reference(1, 1)));
    assert_eq!(store.owned_object_transaction_locks.get(&reference(1, 1)), Some(&None));
    assert_eq!(store.owned_object_transaction_locks.get(&reference(1, 2)), None);
    assert_eq!(store.owned_object_transaction_locks.len(), 1);
}

#[test]
fn newer_versions_do_not_matter_for_the_previous_one() {
    let mut store = AuthorityPerpetualTables::new();
    for version in [2, 5, 9] {
        store.insert_object_test_only(object(1, version)).unwrap();
    }
    store.insert_object_test_only(object(2, 4)).unwrap();
    assert_eq!(store.previous_version(&key(1, 9)), Some(key(1, 5)));
    assert_eq!(store.previous_version(&key(1, 6)), Some(key(1, 5)));
    assert_eq!(store.previous_version(&key(1, 5)), Some(key(1, 2)));
    assert_eq!(store.previous_version(&key(1, 2)), None);
    assert_eq!(store.previous_version(&key(1, 0)), None);
    assert_eq!(store.previous_version(&key(2, 4)), None);
    assert_eq!(store.remove_object_lock_subtle(&key(1, 5)), Ok(reference(1, 2)));
}

#[test]
fn a_tombstone_can_be_locked() {
    let mut store = AuthorityPerpetualTables::new();
    store.objects.insert(key(1, 3), StoreObjectWrapper::V1(StoreObject::Deleted));
    let expected = (id(1), SequenceNumber(3), ObjectDigest::deleted());
    assert_eq!(store.remove_object_lock_subtle(&key(1, 4)), Ok(expected));
    assert_eq!(store.owned_object_transaction_locks.get(&expected), Some(&None));
}

#[test]
fn an_unreadable_version_changes_nothing() {
    let mut store = AuthorityPerpetualTables::new();
    store.objects.insert(key(1, 2), unreadable());
    store.insert_object_test_only(object(1, 3)).unwrap();
    store.owned_object_transaction_locks.insert(reference(1, 3), lock());
    assert_eq!(store.remove_object_lock_subtle(&key(1, 3)), Err(inconsistent()));
    assert_eq!(store.owned_object_transaction_locks.get(&reference(1, 3)), Some(&lock()));
    let tx = TransactionDigest(bytes(1));
    store.executed_effects.insert(tx, TransactionEffectsDigest(bytes(2)));
    assert_eq!(
        store.remove_executed_effects_and_outputs_subtle(&tx, &[key(1, 3)]),
        Err(inconsistent())
    );
    assert!(store.executed_effects.contains_key(&tx));
    assert!(store.objects.contains_key(&key(1, 3)));
    assert_eq!(store.owned_object_transaction_locks.get(&reference(1, 3)), Some(&lock()));
}

#[test]
fn a_transaction_is_taken_back_with_its_outputs() {
    let mut store = AuthorityPerpetualTables::new();
    let tx = TransactionDigest(bytes(1));
    let other = TransactionDigest(bytes(2));
    for digest in [tx, other] {
        store.executed_effects.insert(digest, TransactionEffectsDigest(bytes(2)));
        store.executed_transactions_to_checkpoint.insert(digest, (1, 2));
    }
    store.insert_object_test_only(object(1, 3)).unwrap();
    store.insert_object_test_only(object(1, 4)).unwrap();
    store.insert_object_test_only(object(2, 4)).unwrap();
    store.insert_object_test_only(object(3, 4)).unwrap();
    store.owned_object_transaction_locks.insert(reference(1, 4), lock());
    store.owned_object_transaction_locks.insert(reference(3, 4), lock());
    store
        .remove_executed_effects_and_outputs_subtle(&tx, &[key(1, 4), key(2, 4)])
        .unwrap();
    assert!(!store.executed_effects.contains_key(&tx));
    assert!(!store.executed_transactions_to_checkpoint.contains_key(&tx));
    assert!(store.executed_effects.contains_key(&other));
    assert!(store.executed_transactions_to_checkpoint.contains_key(&other));
    assert!(store.objects.contains_key(&key(1, 3)));
    assert!(!store.objects.contains_key(&key(1, 4)));
    assert!(!store.objects.contains_key(&key(2, 4)));
    assert!(store.objects.contains_key(&key(3, 4)));
    assert_eq!(store.owned_object_transaction_locks.get(&reference(1, 3)), Some(&None));
    assert_eq!(store.owned_object_transaction_locks.get(&reference(1, 4)), None);
    assert_eq!(store.owned_object_transaction_locks.get(&reference(3, 4)), Some(&lock()));
    assert_eq!(store.owned_object_transaction_locks.len(), 2);
}

#[test]
fn the_lock_passes_over_versions_that_are_taken_back_too() {
    let mut store = AuthorityPerpetualTables::new();
    let tx = TransactionDigest(bytes(1));
    for version in [1, 2, 3] {
        store.insert_object_test_only(object(1, version)).unwrap();
    }
    store.owned_object_transaction_locks.insert(reference(1, 2), lock());
    store.owned_object_transaction_locks.insert(reference(1, 3), lock());
    store
        .remove_executed_effects_and_outputs_subtle(&tx, &[key(1, 3), key(1, 2)])
        .unwrap();
    assert_eq!(store.owned_object_transaction_locks.get(&reference(1, 1)), Some(&None));
    assert_eq!(store.owned_object_transaction_locks.len(), 1);
    assert_eq!(store.objects.len(), 1);
}

#[test]
fn a_created_output_just_loses_its_lock() {
    let mut store = AuthorityPerpetualTables::new();
    let tx = TransactionDigest(bytes(1));
    store.insert_object_test_only(object(1, 3)).unwrap();
    store.insert_object_test_only(object(1, 8)).unwrap();
    store.owned_object_transaction_locks.insert(reference(1, 3), lock());
    store.remove_executed_effects_and_outputs_subtle(&tx, &[key(1, 3)]).unwrap();
    assert!(store.owned_object_transaction_locks.is_empty());
    assert!(!store.objects.contains_key(&key(1, 3)));
    assert!(store.objects.contains_key(&key(1, 8)));
}

#[test]
fn taking_back_without_outputs_forgets_the_execution() {
    let mut store = AuthorityPerpetualTables::new();
    let tx = TransactionDigest(bytes(1));
    store.executed_effects.insert(tx, TransactionEffectsDigest(bytes(2)));
    store.remove_executed_effects_and_outputs_subtle(&tx, &[]).unwrap();
    assert!(store.executed_effects.is_empty());
}

#[test]
fn without_an_older_version_the_newest_is_locked() {
    let mut store = AuthorityPerpetualTables::new();
    store.insert_object_test_only(object(1, 3)).unwrap();
    store.owned_object_transaction_locks.insert(reference(1, 3), lock());
    assert_eq!(store.remove_object_lock_subtle(&key(1, 3)), Ok(reference(1, 3)));
    assert_eq!(store.owned_object_transaction_locks.get(&reference(1, 3)), Some(&None));
    assert_eq!(store.owned_object_transaction_locks.len(), 1);
    store.objects.insert(key(2, 4), unreadable());
    assert_eq!(store.remove_object_lock_subtle(&key(2, 4)), Err(inconsistent()));
}
