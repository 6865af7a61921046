//! What reading means, row by row.

use crate::base_types::{
    Blob, CheckpointSequenceNumber, EpochId, ObjectContentDigest, ObjectDigest, ObjectID, ObjectKey,
    ObjectRef, Owner, SequenceNumber, TransactionDigest, MAX_VERSION,
};
use crate::object::{Data, MoveObject, MovePackage, Object};
use crate::rows::{Accumulator, TransactionEffects};
use crate::state::TablesState;
use crate::store_types::{
    IndirectObjectMetadata, StoreData, StoreMoveObject, StoreMoveObjectWrapper, StoreObject,
    StoreObjectValue, StoreObjectWrapper,
};
use vstd::prelude::*;

verus! {

/// The largest version is the largest positive number of sixty-four bits, and the first one is one.
pub proof fn versions_have_their_bounds()
    ensures
        MAX_VERSION == i64::MAX,
        crate::base_types::START_VERSION == 1,
{
}

/// A value is named by its own identity and version, a package by its own, and the reference of
/// either ends in the digest of the object.
pub proof fn objects_are_named_by_what_they_hold(
    value: MoveObject,
    package: MovePackage,
    owner: Owner,
    previous_transaction: TransactionDigest,
    storage_rebate: u64,
    digest: ObjectDigest,
)
    ensures
        ({
            let object = Object {
                data: Data::Move(value),
                owner,
                previous_transaction,
                storage_rebate,
                digest,
            };
            &&& object.spec_id() == value.id
            &&& object.spec_version() == value.version
            &&& object.reference() == (value.id, value.version, digest)
        }),
        ({
            let object = Object {
                data: Data::Package(package),
                owner,
                previous_transaction,
                storage_rebate,
                digest,
            };
            &&& object.spec_id() == package.id
            &&& object.spec_version() == package.version
            &&& object.reference() == (package.id, package.version, digest)
        }),
{
}

/// A reference names the version with its identity and number.
pub proof fn references_name_versions(id: ObjectID, version: SequenceNumber, digest: ObjectDigest)
    ensures
        crate::base_types::key_of_ref((id, version, digest)) == ObjectKey(id, version),
{
}

/// The digest of a deleted object repeats the byte 99, that of a wrapped one the byte 88; the
/// smallest digest is all zeros, the largest all ones.
pub proof fn special_digests()
    ensures
        crate::base_types::digest_deleted().0.hi == 0x6363_6363_6363_6363_6363_6363_6363_6363,
        crate::base_types::digest_deleted().0.lo == 0x6363_6363_6363_6363_6363_6363_6363_6363,
        crate::base_types::digest_wrapped().0.hi == 0x5858_5858_5858_5858_5858_5858_5858_5858,
        crate::base_types::digest_wrapped().0.lo == 0x5858_5858_5858_5858_5858_5858_5858_5858,
        crate::base_types::digest_min().0.hi == 0,
        crate::base_types::digest_min().0.lo == 0,
        crate::base_types::digest_max().0.hi == u128::MAX,
        crate::base_types::digest_max().0.lo == u128::MAX,
        crate::base_types::genesis_digest().0.hi == 0,
        crate::base_types::genesis_digest().0.lo == 0,
{
}

/// A version that is not stored reads as nothing, and so does one that was deleted or wrapped.
pub proof fn what_is_not_there_reads_as_nothing(state: TablesState, key: ObjectKey)
    requires
        !state.objects.contains_key(key) || state.objects[key] == StoreObjectWrapper::V1(
            StoreObject::Deleted,
        ) || state.objects[key] == StoreObjectWrapper::V1(StoreObject::Wrapped),
    ensures
        state.read_version(key) == Ok::<Option<Object>, ()>(None),
{
}

/// A stored value reads as an object with the same value, owner, previous transaction, rebate and
/// digest.
pub proof fn stored_value_is_read(
    state: TablesState,
    key: ObjectKey,
    value: MoveObject,
    owner: Owner,
    previous_transaction: TransactionDigest,
    storage_rebate: u64,
    digest: ObjectDigest,
)
    requires
        state.objects.contains_key(key),
        state.objects[key] == StoreObjectWrapper::V1(
            StoreObject::Value(
                StoreObjectValue {
                    data: StoreData::Move(value),
                    owner,
                    previous_transaction,
                    storage_rebate,
                    digest,
                },
            ),
        ),
    ensures
        state.read_version(key) == Ok::<Option<Object>, ()>(
            Some(
                Object {
                    data: Data::Move(value),
                    owner,
                    previous_transaction,
                    storage_rebate,
                    digest,
                },
            ),
        ),
        state.row_reference(key, state.objects[key]) == Some((value.id, value.version, digest)),
{
}

/// A stored package reads as an object with the same package, owner, previous transaction, rebate
/// and digest.
pub proof fn stored_package_is_read(
    state: TablesState,
    key: ObjectKey,
    package: MovePackage,
    owner: Owner,
    previous_transaction: TransactionDigest,
    storage_rebate: u64,
    digest: ObjectDigest,
)
    requires
        state.objects.contains_key(key),
        state.objects[key] == StoreObjectWrapper::V1(
            StoreObject::Value(
                StoreObjectValue {
                    data: StoreData::Package(package),
                    owner,
                    previous_transaction,
                    storage_rebate,
                    digest,
                },
            ),
        ),
    ensures
        state.read_version(key) == Ok::<Option<Object>, ()>(
            Some(
                Object {
                    data: Data::Package(package),
                    owner,
                    previous_transaction,
                    storage_rebate,
                    digest,
                },
            ),
        ),
        state.row_reference(key, state.objects[key]) == Some((package.id, package.version, digest)),
{
}

/// A row that points to contents kept apart reads as a value with the identity of its key, the
/// version of the pointer and the contents that are kept, if they are; else it cannot be read.
pub proof fn contents_kept_apart_are_read(
    state: TablesState,
    key: ObjectKey,
    version: SequenceNumber,
    place: ObjectContentDigest,
    owner: Owner,
    previous_transaction: TransactionDigest,
    storage_rebate: u64,
    digest: ObjectDigest,
    contents: Blob,
)
    requires
        state.objects.contains_key(key),
        state.objects[key] == StoreObjectWrapper::V1(
            StoreObject::Value(
                StoreObjectValue {
                    data: StoreData::IndirectObject(
                        IndirectObjectMetadata { version, digest: place },
                    ),
                    owner,
                    previous_transaction,
                    storage_rebate,
                    digest,
                },
            ),
        ),
    ensures
        state.indirect_move_objects.contains_key(place) && state.indirect_move_objects[place]
            == StoreMoveObjectWrapper::V1(StoreMoveObject { contents }) ==> {
            &&& state.read_version(key) == Ok::<Option<Object>, ()>(
                Some(
                    Object {
                        data: Data::Move(MoveObject { id: key.0, version, contents }),
                        owner,
                        previous_transaction,
                        storage_rebate,
                        digest,
                    },
                ),
            )
            &&& state.row_reference(key, state.objects[key]) == Some((key.0, version, digest))
        },
        !state.indirect_move_objects.contains_key(place) ==> {
            &&& state.read_version(key) is Err
            &&& state.row_reference(key, state.objects[key]) is None
        },
{
}

/// A deleted or wrapped version has a reference: that of its key, with the digest that repeats the byte
/// 99 or 88.
pub proof fn tombstones_have_references(state: TablesState, key: ObjectKey)
    ensures
        ({
            let row = StoreObjectWrapper::V1(StoreObject::Deleted);
            state.row_reference(key, row) matches Some(reference) && reference.0 == key.0
                && reference.1 == key.1 && reference.2.0.hi
                == 0x6363_6363_6363_6363_6363_6363_6363_6363 && reference.2.0.lo
                == 0x6363_6363_6363_6363_6363_6363_6363_6363
        }),
        ({
            let row = StoreObjectWrapper::V1(StoreObject::Wrapped);
            state.row_reference(key, row) matches Some(reference) && reference.0 == key.0
                && reference.1 == key.1 && reference.2.0.hi
                == 0x5858_5858_5858_5858_5858_5858_5858_5858 && reference.2.0.lo
                == 0x5858_5858_5858_5858_5858_5858_5858_5858
        }),
{
}

/// A row that is not stored reads as it would if it were: reading looks at the row, its key, and the
/// contents that are kept apart, and at nothing else.
pub proof fn rows_read_as_if_they_were_stored(
    state: TablesState,
    other: TablesState,
    key: ObjectKey,
    row: StoreObjectWrapper,
)
    requires
        other.indirect_move_objects == state.indirect_move_objects,
        other.objects.contains_key(key),
        other.objects[key] == row,
    ensures
        state.read_row(key, row) == other.read_version(key),
        state.row_reference(key, row) == other.row_reference(key, other.objects[key]),
{
}

/// A row cannot be read just if it has no reference, and the reference of one that reads as an object
/// is that of the object.
pub proof fn what_can_be_read_has_a_reference(
    state: TablesState,
    key: ObjectKey,
    row: StoreObjectWrapper,
)
    ensures
        state.read_row(key, row) is Err <==> state.row_reference(key, row) is None,
        state.read_row(key, row) matches Ok(Some(object)) ==> state.row_reference(key, row) == Some(
            (object.spec_id(), object.spec_version(), object.digest),
        ),
{
}

/// The parts of an object fit together if a value or a package comes alone, or a pointer with its
/// contents; else they do not.
pub proof fn parts_fit_together(
    key: ObjectKey,
    value: MoveObject,
    package: MovePackage,
    metadata: IndirectObjectMetadata,
    contents: StoreMoveObject,
    owner: Owner,
    previous_transaction: TransactionDigest,
    storage_rebate: u64,
    digest: ObjectDigest,
)
    ensures
        ({
            let stored = |data: StoreData|
                StoreObjectValue { data, owner, previous_transaction, storage_rebate, digest };
            let whole = |data: Data|
                Some(Object { data, owner, previous_transaction, storage_rebate, digest });
            &&& crate::store_types::assembled(key, stored(StoreData::Move(value)), None) == whole(
                Data::Move(value),
            )
            &&& crate::store_types::assembled(key, stored(StoreData::Package(package)), None)
                == whole(Data::Package(package))
            &&& crate::store_types::assembled(
                key,
                stored(StoreData::IndirectObject(metadata)),
                Some(contents),
            ) == whole(
                Data::Move(
                    MoveObject {
                        id: key.0,
                        version: metadata.version,
                        contents: contents.contents,
                    },
                ),
            )
            &&& crate::store_types::assembled(key, stored(StoreData::IndirectObject(metadata)), None)
                is None
            &&& crate::store_types::assembled(key, stored(StoreData::Move(value)), Some(contents))
                is None
            &&& crate::store_types::assembled(
                key,
                stored(StoreData::Package(package)),
                Some(contents),
            ) is None
        }),
{
}

/// The row in the layout of a row, whichever it is, is what it was tagged with.
pub proof fn layouts_only_tag(object: StoreObject, contents: StoreMoveObject)
    ensures
        StoreObjectWrapper::V1(object).spec_inner() == object,
        StoreMoveObjectWrapper::V1(contents).spec_inner() == contents,
{
}

/// What is stored of an object with its contents in its row: a value stays a value, a package stays a
/// package, and nothing of either is left out.
pub proof fn objects_are_stored_whole(
    value: MoveObject,
    package: MovePackage,
    owner: Owner,
    previous_transaction: TransactionDigest,
    storage_rebate: u64,
    digest: ObjectDigest,
)
    ensures
        ({
            let whole = |data: Data|
                Object { data, owner, previous_transaction, storage_rebate, digest };
            let stored = |data: StoreData|
                StoreObjectWrapper::V1(
                    StoreObject::Value(
                        StoreObjectValue {
                            data,
                            owner,
                            previous_transaction,
                            storage_rebate,
                            digest,
                        },
                    ),
                );
            &&& crate::store_types::stored_whole(whole(Data::Move(value))) == stored(
                StoreData::Move(value),
            )
            &&& crate::store_types::stored_whole(whole(Data::Package(package))) == stored(
                StoreData::Package(package),
            )
        }),
{
}

/// The root state of an epoch is the row of that epoch, if there is one.
pub proof fn root_states_are_rows(
    state: TablesState,
    epoch: EpochId,
    row: (CheckpointSequenceNumber, Accumulator),
)
    ensures
        state.root_state(epoch) == Some(row) <==> state.root_state_hash_by_epoch.contains_key(epoch)
            && state.root_state_hash_by_epoch[epoch] == row,
        state.root_state(epoch) is None <==> !state.root_state_hash_by_epoch.contains_key(epoch),
{
}

/// A row reads the same under a key whether it is stored there or handed in.
pub proof fn rows_read_as_their_versions(state: TablesState, key: ObjectKey)
    requires
        state.objects.contains_key(key),
    ensures
        state.read_row(key, state.objects[key]) == state.read_version(key),
{
}

/// What is kept of an object reads back whole: nothing of it is dropped or changed, whoever owns it
/// and whatever it is.
pub proof fn nothing_of_an_object_is_lost(state: TablesState, object: Object)
    ensures
        ({
            let after = state.with_object(object);
            let key = match object.data {
                Data::Move(value) => ObjectKey(value.id, value.version),
                Data::Package(package) => ObjectKey(package.id, package.version),
            };
            &&& after.objects.contains_key(key)
            &&& after.read_version(key) == Ok::<Option<Object>, ()>(Some(object))
            &&& forall|other: ObjectKey| other != key ==> {
                &&& #[trigger] after.objects.contains_key(other) == state.objects.contains_key(other)
                &&& after.objects[other] == state.objects[other]
            }
            &&& after == (TablesState { objects: after.objects, ..state })
        }),
{
}

/// Finding an object up to a version gives what the newest stored version up to there reads as,
/// however far below the bound that version lies.
pub proof fn newest_stored_version_is_found(
    state: TablesState,
    id: ObjectID,
    bound: u64,
    key: ObjectKey,
)
    requires
        state.objects.contains_key(key),
        key.0 == id,
        key.1.0 <= bound,
        forall|other: ObjectKey| #[trigger]
            state.objects.contains_key(other) && other.0 == id && other.1.0 <= bound ==> other.1.0
                <= key.1.0,
    ensures
        state.read_newest(id, bound) == state.read_version(key),
        crate::state::newest_up_to(state.objects, id, bound) == Some(key),
        bound == i64::MAX ==> state.latest(id) == Some(key),
{
    crate::state::newest_is_unique(state.objects, id, bound, key);
}

/// Where no version up to the bound is stored, nothing is found.
pub proof fn nothing_is_found_where_nothing_is_stored(state: TablesState, id: ObjectID, bound: u64)
    requires
        forall|other: ObjectKey| #[trigger]
            state.objects.contains_key(other) && other.0 == id ==> other.1.0 > bound,
    ensures
        state.read_newest(id, bound) == Ok::<Option<Object>, ()>(None),
        crate::state::newest_up_to(state.objects, id, bound) is None,
        bound == i64::MAX ==> state.latest(id) is None,
{
    assert forall|k: ObjectKey| !crate::state::is_newest_up_to(state.objects, id, bound, k) by {
        if crate::state::is_newest_up_to(state.objects, id, bound, k) {
            assert(state.objects.contains_key(k));
        }
    }
}

/// A newer version within the bound takes the place of what was found before, and a version outside
/// the bound makes no difference.
pub proof fn a_newer_version_is_found_instead(
    state: TablesState,
    object: Object,
    id: ObjectID,
    bound: u64,
)
    ensures
        object.spec_id() != id || object.spec_version().0 > bound ==> state.with_object(
            object,
        ).read_newest(id, bound) == state.read_newest(id, bound),
        object.spec_id() == id && object.spec_version().0 <= bound && (forall|other: ObjectKey|
            #[trigger] state.objects.contains_key(other) && other.0 == id && other.1.0 <= bound
                ==> other.1.0 <= object.spec_version().0) ==> state.with_object(object).read_newest(
            id,
            bound,
        ) == Ok::<Option<Object>, ()>(Some(object)),
{
    let after = state.with_object(object);
    let own = ObjectKey(object.spec_id(), object.spec_version());
    if object.spec_id() != id || object.spec_version().0 > bound {
        assert forall|k: ObjectKey| #[trigger]
            crate::state::is_newest_up_to(after.objects, id, bound, k)
                == crate::state::is_newest_up_to(state.objects, id, bound, k) by {
            assert forall|o: ObjectKey| o.0 == id && o.1.0 <= bound implies #[trigger]
                after.objects.contains_key(o) == state.objects.contains_key(o) by {
                assert(o != own);
            }
            if crate::state::is_newest_up_to(after.objects, id, bound, k) {
                assert forall|o: ObjectKey| #[trigger]
                    state.objects.contains_key(o) && o.0 == id && o.1.0 <= bound implies o.1.0
                    <= k.1.0 by {
                    assert(after.objects.contains_key(o));
                }
            }
        }
        if exists|k: ObjectKey| crate::state::is_newest_up_to(state.objects, id, bound, k) {
            let k = choose|k: ObjectKey|
                crate::state::is_newest_up_to(state.objects, id, bound, k);
            crate::state::newest_is_unique(state.objects, id, bound, k);
            assert(crate::state::is_newest_up_to(after.objects, id, bound, k));
            crate::state::newest_is_unique(after.objects, id, bound, k);
            assert(k != own);
        } else {
            assert forall|k: ObjectKey| !crate::state::is_newest_up_to(
                after.objects,
                id,
                bound,
                k,
            ) by {
                assert(!crate::state::is_newest_up_to(state.objects, id, bound, k));
            }
        }
    }
    if object.spec_id() == id && object.spec_version().0 <= bound && (forall|other: ObjectKey|
        #[trigger] state.objects.contains_key(other) && other.0 == id && other.1.0 <= bound
            ==> other.1.0 <= object.spec_version().0) {
        assert forall|other: ObjectKey| #[trigger]
            after.objects.contains_key(other) && other.0 == id && other.1.0 <= bound implies other.1.0
            <= own.1.0 by {
            if other != own {
                assert(state.objects.contains_key(other));
            }
        }
        newest_stored_version_is_found(after, id, bound, own);
    }
}

/// The effects of a transaction are those under the digest that it was executed with, if both are on
/// record.
pub proof fn effects_are_found_by_their_digest(
    state: TablesState,
    tx: TransactionDigest,
    effects: TransactionEffects,
)
    ensures
        state.effects_of(tx) == Some(effects) <==> state.executed_effects.contains_key(tx)
            && state.effects.contains_key(state.executed_effects[tx])
            && state.effects[state.executed_effects[tx]] == effects,
{
}

/// New tables hold nothing at all.
pub proof fn new_tables_are_vacant()
    ensures
        forall|k: ObjectKey| !(#[trigger] TablesState::vacant().objects.contains_key(k)),
        TablesState::vacant().indirect_move_objects.dom() == Set::<ObjectContentDigest>::empty(),
        TablesState::vacant().owned_object_transaction_locks.dom() == Set::<ObjectRef>::empty(),
        TablesState::vacant().transactions.dom() == Set::<TransactionDigest>::empty(),
        TablesState::vacant().effects.dom().is_empty(),
        TablesState::vacant().executed_effects.dom().is_empty(),
        TablesState::vacant().events.dom().is_empty(),
        TablesState::vacant().executed_transactions_to_checkpoint.dom().is_empty(),
        TablesState::vacant().root_state_hash_by_epoch.dom().is_empty(),
        TablesState::vacant().epoch_start_configuration.dom().is_empty(),
        TablesState::vacant().pruned_checkpoint.dom().is_empty(),
        TablesState::vacant().expected_network_mgo_amount.dom().is_empty(),
        TablesState::vacant().expected_storage_fund_imbalance.dom().is_empty(),
        TablesState::vacant().object_per_epoch_marker_table.dom().is_empty(),
{
}

/// A reset empties every table but those of the transactions and of the effects, which it leaves
/// alone.
pub proof fn a_reset_empties_all_but_two_tables(state: TablesState)
    ensures
        state.reset().transactions == state.transactions,
        state.reset().effects == state.effects,
        state.reset().objects.dom().is_empty(),
        state.reset().indirect_move_objects.dom().is_empty(),
        state.reset().owned_object_transaction_locks.dom().is_empty(),
        state.reset().executed_effects.dom().is_empty(),
        state.reset().events.dom().is_empty(),
        state.reset().executed_transactions_to_checkpoint.dom().is_empty(),
        state.reset().root_state_hash_by_epoch.dom().is_empty(),
        state.reset().epoch_start_configuration.dom().is_empty(),
        state.reset().pruned_checkpoint.dom().is_empty(),
        state.reset().expected_network_mgo_amount.dom().is_empty(),
        state.reset().expected_storage_fund_imbalance.dom().is_empty(),
        state.reset().object_per_epoch_marker_table.dom().is_empty(),
{
}

/// An object that cannot be put together is reported with the same error and the same text always.
pub proof fn inconsistent_objects_are_reported_alike(error: crate::error::MgoError)
    requires
        error.is_inconsistent_object(),
    ensures
        error matches crate::error::MgoError::StorageCorruptedFieldError(text) && text@
            == "inconsistent object representation"@,
{
}

/// The text of an error is the text that it carries.
pub proof fn errors_say_what_they_carry(text: String)
    ensures
        (crate::error::MgoError::GenericAuthorityError { error: text }).text() == text@,
        crate::error::MgoError::StorageCorruptedFieldError(text).text() == text@,
{
}

} // verus!
