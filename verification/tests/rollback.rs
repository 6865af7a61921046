//! Rolling back to an earlier epoch.

use perpetual_tables::base_types::{
    Blob, Bytes32, EpochId, MgoAddress, ObjectContentDigest, ObjectDigest, ObjectID, ObjectKey,
    ObjectRef, Owner, SequenceNumber, TransactionDigest, TransactionEffectsDigest,
    TransactionEventsDigest,
};
use perpetual_tables::error::MgoError;
use perpetual_tables::object::{Data, MoveObject, Object};
use perpetual_tables::rollback::RollbackStatistics;
use perpetual_tables::rows::{
    Accumulator, Event, LockDetails, LockDetailsWrapper, MarkerValue, TransactionEffects,
    TrustedTransaction,
};
use perpetual_tables::store_types::{
    get_store_object_pair, IndirectObjectMetadata, StoreData, StoreMoveObject,
    StoreMoveObjectWrapper, StoreObject, StoreObjectValue, StoreObjectWrapper,
};
use perpetual_tables::tables::AuthorityPerpetualTables;
use std::sync::Arc;

fn bytes(tag: u128, n: u128) -> Bytes32 {
    Bytes32 { hi: tag, lo: n }
}

fn object_id(n: u128) -> ObjectID {
    ObjectID(bytes(1, n))
}

fn tx(n: u128) -> TransactionDigest {
    TransactionDigest(bytes(2, n))
}

fn effects_digest(n: u128) -> TransactionEffectsDigest {
    TransactionEffectsDigest(bytes(3, n))
}

fn events_digest(n: u128) -> TransactionEventsDigest {
    TransactionEventsDigest(bytes(4, n))
}

fn object_digest(n: u128) -> ObjectDigest {
    ObjectDigest(bytes(5, n))
}

fn owner() -> Owner {
    Owner::AddressOwner(MgoAddress(bytes(6, 1)))
}

fn version(n: u64) -> SequenceNumber {
    SequenceNumber::from_u64(n)
}

fn blob(n: u8) -> Blob {
    Blob::new(vec![n])
}

fn object(id: ObjectID, n: u64) -> Object {
    Object {
        data: Data::Move(MoveObject { id, version: version(n), contents: blob(7) }),
        owner: owner(),
        previous_transaction: tx(0),
        storage_rebate: 0,
        digest: object_digest(n as u128),
    }
}

fn effects(transaction_digest: TransactionDigest, executed_epoch: EpochId) -> TransactionEffects {
    TransactionEffects {
        transaction_digest,
        executed_epoch,
        created: Arc::new(vec![]),
        mutated: Arc::new(vec![]),
        unwrapped: Arc::new(vec![]),
        deleted: Arc::new(vec![]),
        wrapped: Arc::new(vec![]),
        events_digest: None,
    }
}

fn execute(store: &mut AuthorityPerpetualTables, digest: TransactionDigest, done: TransactionEffects) {
    let key = TransactionEffectsDigest(Bytes32 { hi: 3, lo: digest.0.lo });
    store.transactions.insert(digest, TrustedTransaction { data: blob(1) });
    store.effects.insert(key, done);
    store.executed_effects.insert(digest, key);
}

fn insert_test_data_for_epoch(
    store: &mut AuthorityPerpetualTables,
    epoch: EpochId,
    num_transactions: usize,
) -> Vec<TransactionDigest> {
    let mut transaction_digests = Vec::new();
    for i in 0..num_transactions {
        let digest = tx(1000 * epoch as u128 + i as u128);
        execute(store, digest, effects(digest, epoch));
        transaction_digests.push(digest);
    }
    let checkpoint_number = 100 * epoch;
    store
        .root_state_hash_by_epoch
        .insert(epoch, (checkpoint_number, Accumulator { data: blob(0) }));
    store.object_per_epoch_marker_table.insert(
        (epoch, ObjectKey(object_id(9000 + epoch as u128), version(1))),
        MarkerValue::Received,
    );
    transaction_digests
}

#[test]
fn test_rollback_to_epoch_basic() {
    let mut store = AuthorityPerpetualTables::new();
    let epoch1_txs = insert_test_data_for_epoch(&mut store, 1, 2);
    let epoch2_txs = insert_test_data_for_epoch(&mut store, 2, 3);
    let epoch3_txs = insert_test_data_for_epoch(&mut store, 3, 2);

    assert!(store.root_state_hash_by_epoch.get(&1).is_some());
    assert!(store.root_state_hash_by_epoch.get(&2).is_some());
    assert!(store.root_state_hash_by_epoch.get(&3).is_some());

    store.rollback_to_epoch(1).unwrap();

    assert!(store.root_state_hash_by_epoch.get(&1).is_some());
    for tx_digest in &epoch1_txs {
        assert!(store.transactions.get(tx_digest).is_some());
        assert!(store.executed_effects.get(tx_digest).is_some());
    }

    assert!(store.root_state_hash_by_epoch.get(&2).is_none());
    assert!(store.root_state_hash_by_epoch.get(&3).is_none());
    for tx_digest in epoch2_txs.iter().chain(epoch3_txs.iter()) {
        assert!(store.transactions.get(tx_digest).is_none());
        assert!(store.executed_effects.get(tx_digest).is_none());
    }
}

#[test]
fn test_rollback_to_epoch_zero() {
    let mut store = AuthorityPerpetualTables::new();
    let epoch1_txs = insert_test_data_for_epoch(&mut store, 1, 2);
    let epoch2_txs = insert_test_data_for_epoch(&mut store, 2, 1);

    store.rollback_to_epoch(0).unwrap();

    assert!(store.root_state_hash_by_epoch.get(&1).is_none());
    assert!(store.root_state_hash_by_epoch.get(&2).is_none());
    for tx_digest in epoch1_txs.iter().chain(epoch2_txs.iter()) {
        assert!(store.transactions.get(tx_digest).is_none());
        assert!(store.executed_effects.get(tx_digest).is_none());
    }
}

#[test]
fn test_rollback_validation_prevents_future_epoch() {
    let mut store = AuthorityPerpetualTables::new();
    insert_test_data_for_epoch(&mut store, 1, 1);

    let result = store.rollback_to_epoch(5);
    assert!(result.is_err());
    if let Err(e) = result {
        assert!(e.message().contains("Cannot rollback to future epoch"));
    }
}

#[test]
fn test_rollback_statistics() {
    let mut store = AuthorityPerpetualTables::new();
    insert_test_data_for_epoch(&mut store, 1, 2);
    insert_test_data_for_epoch(&mut store, 2, 3);
    insert_test_data_for_epoch(&mut store, 3, 1);

    let stats = store.get_rollback_statistics(1).unwrap();

    store.rollback_to_epoch(1).unwrap();

    assert_eq!(stats.target_epoch, 1);
    assert!(stats.epochs_to_remove > 0);
    assert!(stats.transactions_to_remove > 0);
}

#[test]
fn test_rollback_atomic_operation() {
    let mut store = AuthorityPerpetualTables::new();
    let epoch1_txs = insert_test_data_for_epoch(&mut store, 1, 1);
    let epoch2_txs = insert_test_data_for_epoch(&mut store, 2, 1);

    assert!(store.transactions.get(&epoch1_txs[0]).is_some());
    assert!(store.transactions.get(&epoch2_txs[0]).is_some());

    store.rollback_to_epoch(1).unwrap();

    assert!(store.transactions.get(&epoch1_txs[0]).is_some());
    assert!(store.transactions.get(&epoch2_txs[0]).is_none());
}

#[test]
fn test_rollback_same_epoch_is_noop() {
    let mut store = AuthorityPerpetualTables::new();
    let epoch1_txs = insert_test_data_for_epoch(&mut store, 1, 2);

    store.rollback_to_epoch(1).unwrap();

    assert!(store.root_state_hash_by_epoch.get(&1).is_some());
    for tx_digest in &epoch1_txs {
        assert!(store.transactions.get(tx_digest).is_some());
    }
}

#[test]
fn test_rollback_with_no_data() {
    let mut store = AuthorityPerpetualTables::new();
    let result = store.rollback_to_epoch(0);
    assert!(result.is_ok());
}

#[test]
fn test_rollback_removes_object_versions() {
    let mut store = AuthorityPerpetualTables::new();
    let id = object_id(1);
    let epoch1_obj = object(id, 1);
    let epoch2_obj = object(id, 2);

    store.objects.insert(
        ObjectKey(id, SequenceNumber::from_u64(1)),
        get_store_object_pair(epoch1_obj.clone()).0,
    );
    store.objects.insert(
        ObjectKey(id, SequenceNumber::from_u64(2)),
        get_store_object_pair(epoch2_obj.clone()).0,
    );

    let tx1_digest = tx(1);
    let tx2_digest = tx(2);
    let epoch1_obj_ref: ObjectRef = (id, SequenceNumber::from_u64(1), epoch1_obj.digest);
    let epoch2_obj_ref: ObjectRef = (id, SequenceNumber::from_u64(2), epoch2_obj.digest);

    let mut effects1 = effects(tx1_digest, 1);
    effects1.created = Arc::new(vec![(epoch1_obj_ref, owner())]);
    let mut effects2 = effects(tx2_digest, 2);
    effects2.created = Arc::new(vec![(epoch2_obj_ref, owner())]);

    store.effects.insert(effects_digest(1), effects1);
    store.effects.insert(effects_digest(2), effects2);
    store.executed_effects.insert(tx1_digest, effects_digest(1));
    store.executed_effects.insert(tx2_digest, effects_digest(2));

    store.rollback_to_epoch(1).unwrap();

    assert!(store
        .objects
        .get(&ObjectKey(id, SequenceNumber::from_u64(1)))
        .is_some());
    assert!(store
        .objects
        .get(&ObjectKey(id, SequenceNumber::from_u64(2)))
        .is_none());
}

#[test]
fn statistics_are_exact() {
    let mut store = AuthorityPerpetualTables::new();
    insert_test_data_for_epoch(&mut store, 1, 2);
    insert_test_data_for_epoch(&mut store, 2, 3);
    insert_test_data_for_epoch(&mut store, 3, 1);
    let late = tx(77);
    let mut done = effects(late, 3);
    done.created = Arc::new(vec![((object_id(1), version(4), object_digest(1)), owner())]);
    done.mutated = Arc::new(vec![
        ((object_id(2), version(4), object_digest(2)), owner()),
        ((object_id(3), version(4), object_digest(3)), owner()),
    ]);
    done.unwrapped = Arc::new(vec![((object_id(4), version(4), object_digest(4)), owner())]);
    done.deleted = Arc::new(vec![(object_id(5), version(4), object_digest(5))]);
    done.wrapped = Arc::new(vec![(object_id(6), version(4), object_digest(6))]);
    execute(&mut store, late, done);
    let expected = RollbackStatistics {
        target_epoch: 1,
        epochs_to_remove: 2,
        transactions_to_remove: 5,
        objects_to_remove: 4,
        markers_to_remove: 2,
    };
    assert_eq!(store.get_rollback_statistics(1), Ok(expected.clone()));
    assert_eq!(store.checked_rollback_statistics(1), Some(expected.clone()));
    assert_eq!(
        expected.summary(),
        "Rollback to epoch 1: 2 epochs, 5 transactions, 4 objects, 2 markers removed"
    );
    store.rollback_to_epoch(1).unwrap();
    let nothing = RollbackStatistics {
        target_epoch: 1,
        epochs_to_remove: 0,
        transactions_to_remove: 0,
        objects_to_remove: 0,
        markers_to_remove: 0,
    };
    assert_eq!(store.get_rollback_statistics(1), Ok(nothing));
}

#[test]
fn rows_removed_are_the_rows_counted() {
    let mut store = AuthorityPerpetualTables::new();
    insert_test_data_for_epoch(&mut store, 1, 1);
    insert_test_data_for_epoch(&mut store, 2, 1);
    insert_test_data_for_epoch(&mut store, 3, 1);
    let statistics = store.get_rollback_statistics(1).unwrap();
    let epochs = store.root_state_hash_by_epoch.len();
    let markers = store.object_per_epoch_marker_table.len();
    store.rollback_to_epoch(1).unwrap();
    assert_eq!(store.root_state_hash_by_epoch.len() + statistics.epochs_to_remove, epochs);
    assert_eq!(store.object_per_epoch_marker_table.len() + statistics.markers_to_remove, markers);
}

#[test]
fn summary_of_large_numbers() {
    let statistics = RollbackStatistics {
        target_epoch: u64::MAX,
        epochs_to_remove: 10,
        transactions_to_remove: 0,
        objects_to_remove: 1234567890,
        markers_to_remove: 9,
    };
    assert_eq!(
        statistics.summary(),
        "Rollback to epoch 18446744073709551615: 10 epochs, 0 transactions, 1234567890 objects, \
         9 markers removed"
    );
}

#[test]
fn refusal_names_both_epochs_and_changes_nothing() {
    let mut store = AuthorityPerpetualTables::new();
    let txs = insert_test_data_for_epoch(&mut store, 4, 2);
    let refusal = store.rollback_to_epoch(12);
    assert_eq!(
        refusal,
        Err(MgoError::GenericAuthorityError {
            error: "Cannot rollback to future epoch 12 in AuthorityStore. Maximum existing epoch is 4"
                .to_string(),
        })
    );
    assert!(store.root_state_hash_by_epoch.get(&4).is_some());
    assert!(store.transactions.get(&txs[0]).is_some());
    assert!(store.rollback_batch(12).is_err());
    assert!(store.rollback_to_epoch(4).is_ok());
}

#[test]
fn an_empty_store_refuses_every_epoch_but_zero() {
    let mut store = AuthorityPerpetualTables::new();
    assert!(store.rollback_to_epoch(1).is_err());
    assert!(store.rollback_to_epoch(0).is_ok());
}

#[test]
fn effects_alone_make_an_epoch_known() {
    let mut store = AuthorityPerpetualTables::new();
    store.effects.insert(effects_digest(1), effects(tx(1), 6));
    assert!(store.rollback_to_epoch(6).is_ok());
    assert!(store.rollback_to_epoch(7).is_err());
}

#[test]
fn transactions_are_identified_by_checkpoint_and_by_effects() {
    let mut store = AuthorityPerpetualTables::new();
    let by_checkpoint = tx(20);
    store.executed_transactions_to_checkpoint.insert(by_checkpoint, (3, 30));
    store.executed_transactions_to_checkpoint.insert(tx(21), (1, 10));
    let both = tx(10);
    execute(&mut store, both, effects(both, 2));
    store.executed_transactions_to_checkpoint.insert(both, (2, 25));
    let by_effects = tx(5);
    execute(&mut store, by_effects, effects(by_effects, 2));
    let early = tx(6);
    execute(&mut store, early, effects(early, 1));
    assert_eq!(
        store.identify_transactions_after_epoch(1),
        vec![both, by_checkpoint, by_effects]
    );
    assert_eq!(store.identify_transactions_after_epoch(2), vec![by_checkpoint]);
    assert_eq!(store.identify_transactions_after_epoch(3), vec![]);
}

#[test]
fn of_transactions_with_shared_effects_one_is_identified() {
    let mut store = AuthorityPerpetualTables::new();
    store.effects.insert(effects_digest(1), effects(tx(1), 2));
    store.executed_effects.insert(tx(1), effects_digest(1));
    store.executed_effects.insert(tx(2), effects_digest(1));
    assert_eq!(store.identify_transactions_after_epoch(1), vec![tx(1)]);
    store.rollback_to_epoch(1).unwrap();
    assert!(store.executed_effects.get(&tx(2)).is_some());
    assert_eq!(store.get_effects(&tx(2)), Ok(None));
}

#[test]
fn late_effects_go_though_they_were_not_executed_here() {
    let mut store = AuthorityPerpetualTables::new();
    store.effects.insert(effects_digest(1), effects(tx(1), 2));
    store.effects.insert(effects_digest(2), effects(tx(2), 1));
    store.rollback_to_epoch(1).unwrap();
    assert!(store.effects.get(&effects_digest(1)).is_none());
    assert!(store.effects.get(&effects_digest(2)).is_some());
}

#[test]
fn outputs_locks_events_and_contents_go() {
    let mut store = AuthorityPerpetualTables::new();
    let late = tx(1);
    let created = ObjectKey(object_id(1), version(5));
    let mutated = ObjectKey(object_id(2), version(5));
    let unwrapped = ObjectKey(object_id(3), version(5));
    let wrapped = ObjectKey(object_id(4), version(5));
    let before = ObjectKey(object_id(2), version(4));
    for key in [created, unwrapped, wrapped, before] {
        store.objects.insert(key, get_store_object_pair(object(key.0, key.1.0)).0);
    }
    let contents = ObjectContentDigest(bytes(8, 1));
    let other_contents = ObjectContentDigest(bytes(8, 2));
    for digest in [contents, other_contents] {
        store.indirect_move_objects.insert(
            digest,
            StoreMoveObjectWrapper::V1(StoreMoveObject { contents: blob(3) }),
        );
    }
    store.objects.insert(
        mutated,
        StoreObjectWrapper::V1(StoreObject::Value(StoreObjectValue {
            data: StoreData::IndirectObject(IndirectObjectMetadata {
                version: version(5),
                digest: contents,
            }),
            owner: owner(),
            previous_transaction: late,
            storage_rebate: 0,
            digest: object_digest(9),
        })),
    );
    let largest = ObjectDigest::max_digest();
    for key in [created, mutated, unwrapped, before] {
        store
            .owned_object_transaction_locks
            .insert((key.0, key.1, object_digest(1)), None);
    }
    store.owned_object_transaction_locks.insert(
        (created.0, created.1, largest),
        Some(LockDetailsWrapper::V1(LockDetails { epoch: 2, tx_digest: late })),
    );
    store.events.insert((events_digest(1), 0), Event { data: blob(1) });
    store.events.insert((events_digest(1), 7), Event { data: blob(2) });
    store.events.insert((events_digest(1), usize::MAX), Event { data: blob(3) });
    store.events.insert((events_digest(2), 0), Event { data: blob(4) });
    let named = |key: ObjectKey| ((key.0, key.1, object_digest(1)), owner());
    let mut done = effects(late, 2);
    done.created = Arc::new(vec![named(created)]);
    done.mutated = Arc::new(vec![named(mutated)]);
    done.unwrapped = Arc::new(vec![named(unwrapped)]);
    done.wrapped = Arc::new(vec![(wrapped.0, wrapped.1, object_digest(1))]);
    done.events_digest = Some(events_digest(1));
    execute(&mut store, late, done);

    store.rollback_to_epoch(1).unwrap();

    assert!(store.objects.get(&created).is_none());
    assert!(store.objects.get(&mutated).is_none());
    assert!(store.objects.get(&unwrapped).is_none());
    assert!(store.objects.get(&wrapped).is_some());
    assert!(store.objects.get(&before).is_some());
    assert!(store.indirect_move_objects.get(&contents).is_none());
    assert!(store.indirect_move_objects.get(&other_contents).is_some());
    let locks = &store.owned_object_transaction_locks;
    assert!(locks.get(&(created.0, created.1, object_digest(1))).is_none());
    assert!(locks.get(&(mutated.0, mutated.1, object_digest(1))).is_none());
    assert!(locks.get(&(unwrapped.0, unwrapped.1, object_digest(1))).is_none());
    assert!(locks.get(&(before.0, before.1, object_digest(1))).is_some());
    assert!(locks.get(&(created.0, created.1, largest)).is_some());
    assert!(store.events.get(&(events_digest(1), 0)).is_none());
    assert!(store.events.get(&(events_digest(1), 7)).is_none());
    assert!(store.events.get(&(events_digest(1), usize::MAX)).is_some());
    assert!(store.events.get(&(events_digest(2), 0)).is_some());
}

#[test]
fn rolling_back_twice_is_rolling_back_once() {
    let mut store = AuthorityPerpetualTables::new();
    insert_test_data_for_epoch(&mut store, 1, 2);
    insert_test_data_for_epoch(&mut store, 3, 2);
    store.rollback_to_epoch(1).unwrap();
    assert_eq!(store.rollback_batch(1).unwrap().len(), 0);
    store.rollback_to_epoch(1).unwrap();
    assert_eq!(store.transactions.len(), 2);
    assert_eq!(store.effects.len(), 2);
    // Between two epochs on record the second rollback is refused.
    let mut gap = AuthorityPerpetualTables::new();
    insert_test_data_for_epoch(&mut gap, 1, 1);
    insert_test_data_for_epoch(&mut gap, 3, 1);
    gap.rollback_to_epoch(2).unwrap();
    assert!(gap.rollback_to_epoch(2).is_err());
    assert_eq!(gap.transactions.len(), 1);
}

#[test]
fn rolling_back_in_steps_makes_no_difference() {
    let mut once = AuthorityPerpetualTables::new();
    let mut twice = AuthorityPerpetualTables::new();
    for store in [&mut once, &mut twice] {
        insert_test_data_for_epoch(store, 1, 2);
        insert_test_data_for_epoch(store, 2, 2);
        insert_test_data_for_epoch(store, 3, 2);
    }
    once.rollback_to_epoch(1).unwrap();
    twice.rollback_to_epoch(2).unwrap();
    assert_eq!(twice.transactions.len(), 4);
    twice.rollback_to_epoch(1).unwrap();
    assert_eq!(format!("{:?}", once), format!("{:?}", twice));
}

#[test]
fn singletons_survive_a_rollback() {
    let mut store = AuthorityPerpetualTables::new();
    insert_test_data_for_epoch(&mut store, 2, 1);
    store.set_highest_pruned_checkpoint_without_wb(55).unwrap();
    store.expected_network_mgo_amount.insert((), 10);
    store.expected_storage_fund_imbalance.insert((), -4);
    store.rollback_to_epoch(0).unwrap();
    assert_eq!(store.get_highest_pruned_checkpoint(), Ok(55));
    assert_eq!(store.expected_network_mgo_amount.get(&()), Some(&10));
    assert_eq!(store.expected_storage_fund_imbalance.get(&()), Some(&-4));
}

fn pointing_to(contents: ObjectContentDigest, n: u64) -> StoreObjectWrapper {
    StoreObjectWrapper::V1(StoreObject::Value(StoreObjectValue {
        data: StoreData::IndirectObject(IndirectObjectMetadata {
            version: version(n),
            digest: contents,
        }),
        owner: owner(),
        previous_transaction: tx(0),
        storage_rebate: 0,
        digest: object_digest(n as u128),
    }))
}

#[test]
fn a_surviving_object_reads_the_same_unless_its_contents_were_shared() {
    let mut store = AuthorityPerpetualTables::new();
    let shared = ObjectContentDigest(bytes(8, 1));
    let own = ObjectContentDigest(bytes(8, 2));
    for digest in [shared, own] {
        store.indirect_move_objects.insert(
            digest,
            StoreMoveObjectWrapper::V1(StoreMoveObject { contents: blob(3) }),
        );
    }
    let gone = ObjectKey(object_id(1), version(5));
    store.objects.insert(gone, pointing_to(shared, 5));
    store.objects.insert(ObjectKey(object_id(2), version(4)), pointing_to(own, 4));
    store.objects.insert(ObjectKey(object_id(3), version(4)), pointing_to(shared, 4));
    let late = tx(1);
    let mut done = effects(late, 2);
    done.mutated = Arc::new(vec![((gone.0, gone.1, object_digest(5)), owner())]);
    execute(&mut store, late, done);
    let before = store.get_object(&object_id(2));
    assert!(store.get_object(&object_id(3)).is_ok());
    store.rollback_to_epoch(1).unwrap();
    assert_eq!(store.get_object(&object_id(1)), Ok(None));
    assert_eq!(store.get_object(&object_id(2)), before);
    assert!(store.get_object(&object_id(3)).is_err());
}

#[test]
fn no_epoch_above_the_target_is_left() {
    let mut store = AuthorityPerpetualTables::new();
    insert_test_data_for_epoch(&mut store, 1, 1);
    insert_test_data_for_epoch(&mut store, 2, 1);
    insert_test_data_for_epoch(&mut store, 5, 1);
    store.rollback_to_epoch(2).unwrap();
    let refusal = store.rollback_to_epoch(3).unwrap_err();
    assert!(refusal.message().ends_with("Maximum existing epoch is 2"));
}
