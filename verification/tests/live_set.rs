//! Walking over the live objects.

use perpetual_tables::base_types::{
    Blob, Bytes32, ObjectContentDigest, ObjectDigest, ObjectID, ObjectKey, Owner, SequenceNumber,
    TransactionDigest,
};
use perpetual_tables::error::MgoError;
use perpetual_tables::live_set::LiveObject;
use perpetual_tables::object::{Data, MoveObject, Object};
use perpetual_tables::store_types::{
    IndirectObjectMetadata, StoreData, StoreObject, StoreObjectValue, StoreObjectWrapper,
};
use perpetual_tables::tables::AuthorityPerpetualTables;

fn id(n: u128) -> ObjectID {
    ObjectID(Bytes32 { hi: 0, lo: n })
}

fn key(n: u128, version: u64) -> ObjectKey {
    ObjectKey(id(n), SequenceNumber(version))
}

fn object(n: u128, version: u64) -> Object {
    Object {
        data: Data::Move(MoveObject {
            id: id(n),
            version: SequenceNumber(version),
            contents: Blob::new(vec![]),
        }),
        owner: Owner::Immutable,
        previous_transaction: TransactionDigest(Bytes32 { hi: 0, lo: 0 }),
        storage_rebate: 0,
        digest: ObjectDigest(Bytes32 { hi: 1, lo: version as u128 }),
    }
}

fn live(store: &AuthorityPerpetualTables, wrapped_too: bool) -> Vec<LiveObject> {
    let mut walk = store.iter_live_object_set(wrapped_too);
    let mut found = vec![];
    while let Some(object) = walk.next() {
        found.push(object);
    }
    assert_eq!(walk.next(), None);
    found
}

#[test]
fn nothing_is_alive_in_an_empty_store() {
    assert_eq!(live(&AuthorityPerpetualTables::new(), true), vec![]);
}

#[test]
fn only_newest_versions_are_alive() {
    let mut store = AuthorityPerpetualTables::new();
    for (n, version) in [(2, 1), (2, 7), (1, 3), (4, 2), (3, 1), (3, 2)] {
        store.insert_object_test_only(object(n, version)).unwrap();
    }
    store.objects.insert(key(3, 3), StoreObjectWrapper::V1(StoreObject::Deleted));
    assert_eq!(
        live(&store, false),
        vec![
            LiveObject::Normal(object(1, 3)),
            LiveObject::Normal(object(2, 7)),
            LiveObject::Normal(object(4, 2)),
        ]
    );
}

#[test]
fn wrapped_objects_count_on_demand() {
    let mut store = AuthorityPerpetualTables::new();
    store.insert_object_test_only(object(1, 3)).unwrap();
    store.insert_object_test_only(object(2, 3)).unwrap();
    store.objects.insert(key(2, 5), StoreObjectWrapper::V1(StoreObject::Wrapped));
    assert_eq!(live(&store, false), vec![LiveObject::Normal(object(1, 3))]);
    assert_eq!(
        live(&store, true),
        vec![LiveObject::Normal(object(1, 3)), LiveObject::Wrapped(key(2, 5))]
    );
    store.insert_object_test_only(object(2, 6)).unwrap();
    assert_eq!(
        live(&store, true),
        vec![LiveObject::Normal(object(1, 3)), LiveObject::Normal(object(2, 6))]
    );
}

#[test]
fn an_object_that_cannot_be_put_together_is_reported() {
    let mut store = AuthorityPerpetualTables::new();
    store.insert_object_test_only(object(1, 3)).unwrap();
    store.insert_object_test_only(object(3, 3)).unwrap();
    store.objects.insert(
        key(2, 5),
        StoreObjectWrapper::V1(StoreObject::Value(StoreObjectValue {
            data: StoreData::IndirectObject(IndirectObjectMetadata {
                version: SequenceNumber(5),
                digest: ObjectContentDigest(Bytes32 { hi: 0, lo: 1 }),
            }),
            owner: Owner::Immutable,
            previous_transaction: TransactionDigest(Bytes32 { hi: 0, lo: 0 }),
            storage_rebate: 0,
            digest: ObjectDigest(Bytes32 { hi: 0, lo: 0 }),
        })),
    );
    let mut walk = store.iter_live_object_set(false);
    assert_eq!(walk.try_next(), Ok(Some(LiveObject::Normal(object(1, 3)))));
    assert_eq!(walk.try_next(), Err(MgoError::inconsistent_object()));
    assert_eq!(walk.try_next(), Ok(Some(LiveObject::Normal(object(3, 3)))));
    assert_eq!(walk.try_next(), Ok(None));
}

#[test]
fn a_live_object_names_itself() {
    let normal = LiveObject::Normal(object(1, 3));
    assert_eq!(normal.object_id(), id(1));
    assert_eq!(normal.version(), SequenceNumber(3));
    assert_eq!(normal.object_reference(), object(1, 3).compute_object_reference());
    let wrapped = LiveObject::Wrapped(key(2, 5));
    assert_eq!(wrapped.object_id(), id(2));
    assert_eq!(wrapped.version(), SequenceNumber(5));
    assert_eq!(
        wrapped.object_reference(),
        (id(2), SequenceNumber(5), ObjectDigest::wrapped())
    );
    assert_eq!(wrapped.clone(), wrapped);
}
