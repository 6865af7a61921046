//! What reading gives back of what was written.

use crate::base_types::{
    CheckpointSequenceNumber, EpochId, ObjectID, ObjectKey, ObjectRef, SequenceNumber,
    TransactionDigest, MAX_VERSION,
};
use crate::batch::BatchOp;
use crate::object::Object;
use crate::rows::{Accumulator, EpochStartConfiguration};
use crate::state::TablesState;
use crate::store_types::StoreObjectWrapper;
use crate::tables::AuthorityPerpetualTables;
use vstd::prelude::*;

verus! {

impl TablesState {
    /// Every object that the tables hold stands under its own identity and version.
    pub open spec fn rows_fit_keys(self) -> bool {
        forall|key: ObjectKey| #[trigger]
            self.objects.contains_key(key) ==> self.row_fits_key(key, self.objects[key])
    }

    /// The object in a row, if it can be put together, has the identity and the version of its key.
    pub open spec fn row_fits_key(self, key: ObjectKey, row: StoreObjectWrapper) -> bool {
        self.read_row(key, row) matches Ok(Some(object)) ==> {
            &&& object.spec_id() == key.0
            &&& object.spec_version() == key.1
        }
    }
}

/// An object that is kept whole is read back as it was, under any key.
pub proof fn whole_object_is_read_back(state: TablesState, key: ObjectKey, object: Object)
    ensures
        state.read_row(key, crate::store_types::stored_whole(object)) == Ok::<Option<Object>, ()>(
            Some(object),
        ),
        state.row_reference(key, crate::store_types::stored_whole(object)) == Some(
            object.reference(),
        ),
{
}

/// A recorded object is read back by its version, and no other version reads differently.
pub proof fn recorded_object_is_read_back(state: TablesState, object: Object, other: ObjectKey)
    ensures
        state.with_object(object).read_version(ObjectKey(object.spec_id(), object.spec_version()))
            == Ok::<Option<Object>, ()>(Some(object)),
        other != ObjectKey(object.spec_id(), object.spec_version()) ==> state.with_object(
            object,
        ).read_version(other) == state.read_version(other),
{
    whole_object_is_read_back(
        state.with_object(object),
        ObjectKey(object.spec_id(), object.spec_version()),
        object,
    );
}

/// A recorded object that is at least as new as every version that a lookup considers is the one
/// that a lookup by identity finds.
pub proof fn newest_object_is_found(state: TablesState, object: Object)
    requires
        object.spec_version().0 <= MAX_VERSION,
        forall|key: ObjectKey| #[trigger]
            state.objects.contains_key(key) && key.0 == object.spec_id() && key.1.0 <= MAX_VERSION
                ==> key.1.0 <= object.spec_version().0,
    ensures
        state.with_object(object).latest(object.spec_id()) == Some(
            ObjectKey(object.spec_id(), object.spec_version()),
        ),
        state.with_object(object).read_newest(object.spec_id(), MAX_VERSION) == Ok::<
            Option<Object>,
            (),
        >(Some(object)),
{
    let after = state.with_object(object);
    let key = ObjectKey(object.spec_id(), object.spec_version());
    assert(crate::state::is_newest_up_to(after.objects, object.spec_id(), MAX_VERSION, key)) by {
        assert forall|o: ObjectKey| #[trigger]
            after.objects.contains_key(o) && o.0 == object.spec_id() && o.1.0
                <= MAX_VERSION implies o.1.0 <= key.1.0 by {
            if o != key {
                assert(state.objects.contains_key(o));
            }
        }
    }
    crate::state::newest_is_unique(after.objects, object.spec_id(), MAX_VERSION, key);
    whole_object_is_read_back(after, key, object);
}

/// Recording an object keeps every object under its own identity and version.
pub proof fn recording_keeps_rows_fitting(state: TablesState, object: Object)
    requires
        state.rows_fit_keys(),
    ensures
        state.with_object(object).rows_fit_keys(),
{
    let after = state.with_object(object);
    let own = ObjectKey(object.spec_id(), object.spec_version());
    assert forall|key: ObjectKey| #[trigger] after.objects.contains_key(key) implies after.row_fits_key(
        key,
        after.objects[key],
    ) by {
        if key == own {
            whole_object_is_read_back(after, key, object);
        } else {
            assert(state.objects.contains_key(key));
            assert(after.read_row(key, after.objects[key]) == state.read_row(
                key,
                state.objects[key],
            ));
        }
    }
}

/// An object found up to a version is the one asked for, and is never newer than that version.
pub proof fn found_object_is_not_newer(state: TablesState, id: ObjectID, bound: u64)
    requires
        state.rows_fit_keys(),
    ensures
        state.read_newest(id, bound) matches Ok(Some(object)) ==> {
            &&& object.spec_id() == id
            &&& object.spec_version().0 <= bound
            &&& state.read_version(ObjectKey(id, object.spec_version())) == Ok::<
                Option<Object>,
                (),
            >(Some(object))
        },
{
    if let Some(key) = crate::state::newest_up_to(state.objects, id, bound) {
        assert(crate::state::is_newest_up_to(state.objects, id, bound, key));
        assert(state.row_fits_key(key, state.objects[key]));
    }
}

/// What is found up to the version of a row is that row.
pub proof fn stored_version_is_found(state: TablesState, key: ObjectKey)
    requires
        state.objects.contains_key(key),
    ensures
        state.read_newest(key.0, key.1.0) == state.read_version(key),
{
    crate::state::newest_is_unique(state.objects, key.0, key.1.0, key);
}

/// A reference that a row gives names the version that the row stands under.
pub proof fn reference_names_its_row(state: TablesState, key: ObjectKey, reference: ObjectRef)
    requires
        state.rows_fit_keys(),
        state.objects.contains_key(key),
        state.row_reference(key, state.objects[key]) == Some(reference),
    ensures
        crate::base_types::key_of_ref(reference) == key,
{
    assert(state.row_fits_key(key, state.objects[key]));
}

/// A row reads as an object, is a tombstone, or cannot be read; a tombstone has a reference whose
/// digest tells a deleted object from a wrapped one.
pub proof fn tombstones_are_told_apart(state: TablesState, key: ObjectKey, row: StoreObjectWrapper)
    ensures
        state.read_row(key, row) is Err <==> state.row_reference(key, row) is None,
        row.spec_inner() is Deleted ==> state.row_reference(key, row) == Some(
            (key.0, key.1, crate::base_types::digest_deleted()),
        ),
        row.spec_inner() is Wrapped ==> state.row_reference(key, row) == Some(
            (key.0, key.1, crate::base_types::digest_wrapped()),
        ),
        crate::base_types::digest_deleted() != crate::base_types::digest_wrapped(),
        state.read_row(key, row) == Ok::<Option<Object>, ()>(None) <==> !(row.spec_inner() is Value),
{
}

/// The newer versions of an object are just those that the tables hold above the given one and
/// below the largest, oldest first.
pub proof fn newer_versions_are_listed(
    tables: AuthorityPerpetualTables,
    object: (ObjectID, SequenceNumber),
    key: ObjectKey,
)
    requires
        tables.wf(),
    ensures
        crate::ordered_table::ordered_keys(tables@.objects).filter(
            |k: ObjectKey| crate::locks::is_newer_version(k, object),
        ).contains(key) <==> tables@.objects.contains_key(key) && key.0 == object.0 && object.1.0
            < key.1.0 < MAX_VERSION,
        crate::ordered_table::increasing(
            crate::ordered_table::ordered_keys(tables@.objects).filter(
                |k: ObjectKey| crate::locks::is_newer_version(k, object),
            ),
        ),
{
    let p = |k: ObjectKey| crate::locks::is_newer_version(k, object);
    let keys = crate::ordered_table::ordered_keys(tables@.objects);
    tables.objects.rows_are_contents();
    crate::seq_facts::filter_contains(keys, p, key);
    crate::ordered_table::filter_keeps_increasing(keys, p);
}

/// The write that records the highest pruned checkpoint is read back, and touches nothing else.
pub proof fn pruned_checkpoint_is_read_back(state: TablesState, number: CheckpointSequenceNumber)
    ensures
        state.apply(BatchOp::InsertPrunedCheckpoint(number)).pruned_checkpoint.contains_key(()),
        state.apply(BatchOp::InsertPrunedCheckpoint(number)).pruned_checkpoint[()] == number,
        state.apply(BatchOp::InsertPrunedCheckpoint(number)) == (TablesState {
            pruned_checkpoint: state.apply(
                BatchOp::InsertPrunedCheckpoint(number),
            ).pruned_checkpoint,
            ..state
        }),
{
}

/// The epoch to resume from is that of the parameters that were fixed last.
pub proof fn recovery_epoch_is_the_last_one_set(
    state: TablesState,
    first: EpochStartConfiguration,
    second: EpochStartConfiguration,
)
    ensures
        ({
            let after = state.apply(BatchOp::InsertEpochStartConfiguration(first)).apply(
                BatchOp::InsertEpochStartConfiguration(second),
            );
            &&& after.epoch_start_configuration.contains_key(())
            &&& after.epoch_start_configuration[()].epoch_start_state.epoch
                == second.epoch_start_state.epoch
            &&& after == state.apply(BatchOp::InsertEpochStartConfiguration(second))
        }),
{
    let once = state.epoch_start_configuration.insert((), second);
    let twice = state.epoch_start_configuration.insert((), first).insert((), second);
    assert(once =~= twice);
}

/// The root state of an epoch is read back, and no other epoch reads differently.
pub proof fn root_state_is_read_back(
    state: TablesState,
    epoch: EpochId,
    row: (CheckpointSequenceNumber, Accumulator),
    other: EpochId,
)
    ensures
        state.with_root_state(epoch, row).root_state(epoch) == Some(row),
        other != epoch ==> state.with_root_state(epoch, row).root_state(other) == state.root_state(
            other,
        ),
{
}

/// After a reset there are no objects and no transaction counts as executed, while the transactions
/// and the effects to execute them against are all still there.
pub proof fn reset_leaves_what_is_executed_again(
    state: TablesState,
    id: ObjectID,
    tx: TransactionDigest,
)
    ensures
        state.reset().objects == Map::<ObjectKey, StoreObjectWrapper>::empty(),
        state.reset().latest(id) is None,
        state.reset().effects_of(tx) is None,
        state.reset().transactions == state.transactions,
        state.reset().effects == state.effects,
        state.reset().reset() == state.reset(),
{
}

} // verus!
