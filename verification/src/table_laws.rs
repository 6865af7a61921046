//! What a single write does, and the order in which tables are walked.

use crate::base_types::{
    CheckpointSequenceNumber, EpochId, ObjectContentDigest, ObjectDigest, ObjectID, ObjectKey,
    ObjectRef, SequenceNumber, TransactionDigest, TransactionEffectsDigest,
    TransactionEventsDigest,
};
use crate::batch::BatchOp;
use crate::ordered_table::{OrderedTable, TableKey};
use crate::rows::{Accumulator, EpochStartConfiguration, LockDetailsWrapper};
use crate::state::TablesState;
use crate::store_types::StoreObjectWrapper;
use crate::tables::AuthorityPerpetualTables;
use vstd::prelude::*;

verus! {

/// One map has what another has, but for one key, under which it has this value.
pub open spec fn gained<K, V>(before: Map<K, V>, after: Map<K, V>, key: K, value: V) -> bool {
    &&& after.dom().contains(key)
    &&& after[key] == value
    &&& forall|k: K|
        #![trigger after.dom().contains(k)]
        k != key ==> (after.dom().contains(k) <==> before.dom().contains(k))
    &&& forall|k: K|
        #![trigger after[k]]
        k != key && after.dom().contains(k) ==> after[k] == before[k]
}

/// One map has what another has, but for one key, which it does not have.
pub open spec fn lost<K, V>(before: Map<K, V>, after: Map<K, V>, key: K) -> bool {
    &&& !after.dom().contains(key)
    &&& forall|k: K|
        #![trigger after.dom().contains(k)]
        k != key ==> (after.dom().contains(k) <==> before.dom().contains(k))
    &&& forall|k: K| #![trigger after[k]] after.dom().contains(k) ==> after[k] == before[k]
}

/// A write to the objects table sets or removes one version, and nothing else.
pub proof fn writes_to_objects(state: TablesState, key: ObjectKey, row: StoreObjectWrapper)
    ensures
        ({
            let after = state.apply(BatchOp::InsertObject(key, row));
            &&& gained(state.objects, after.objects, key, row)
            &&& after == (TablesState { objects: after.objects, ..state })
        }),
        ({
            let after = state.apply(BatchOp::DeleteObject(key));
            &&& lost(state.objects, after.objects, key)
            &&& after == (TablesState { objects: after.objects, ..state })
        }),
{
}

/// A write to the table of indirect objects removes one entry, and nothing else.
pub proof fn writes_to_contents(state: TablesState, digest: ObjectContentDigest)
    ensures
        ({
            let after = state.apply(BatchOp::DeleteIndirectObject(digest));
            &&& lost(state.indirect_move_objects, after.indirect_move_objects, digest)
            &&& after == (TablesState {
                indirect_move_objects: after.indirect_move_objects,
                ..state
            })
        }),
{
}

/// A write to the locks table sets one lock, whatever the lock says.
pub proof fn writes_to_locks(
    state: TablesState,
    reference: ObjectRef,
    lock: Option<LockDetailsWrapper>,
)
    ensures
        ({
            let after = state.apply(BatchOp::InsertLock(reference, lock));
            &&& gained(
                state.owned_object_transaction_locks,
                after.owned_object_transaction_locks,
                reference,
                lock,
            )
            &&& after == (TablesState {
                owned_object_transaction_locks: after.owned_object_transaction_locks,
                ..state
            })
        }),
{
}

/// Removing a range of locks removes just those from the first on that come before the last, by
/// object, then version, then digest.
pub proof fn ranges_of_locks_are_removed(
    state: TablesState,
    from: ObjectRef,
    to: ObjectRef,
    lock: ObjectRef,
)
    ensures
        ({
            let before = state.owned_object_transaction_locks;
            let after = state.apply(BatchOp::DeleteLockRange(from, to));
            let left = after.owned_object_transaction_locks;
            &&& left.contains_key(lock) <==> before.contains_key(lock) && (references_come_before(
                lock,
                from,
            ) || !references_come_before(lock, to))
            &&& left.contains_key(lock) ==> left[lock] == before[lock]
            &&& after == (TablesState { owned_object_transaction_locks: left, ..state })
        }),
{
    locks_are_walked_in_order(lock, from);
    locks_are_walked_in_order(lock, to);
}

/// Removing a range of events removes just those from the first on that come before the last, by
/// group, then index.
pub proof fn ranges_of_events_are_removed(
    state: TablesState,
    from: (TransactionEventsDigest, usize),
    to: (TransactionEventsDigest, usize),
    event: (TransactionEventsDigest, usize),
)
    ensures
        ({
            let after = state.apply(BatchOp::DeleteEventRange(from, to));
            &&& after.events.contains_key(event) <==> state.events.contains_key(event) && (
            events_come_before(event, from) || !events_come_before(event, to))
            &&& after.events.contains_key(event) ==> after.events[event] == state.events[event]
            &&& after == (TablesState { events: after.events, ..state })
        }),
{
    events_are_walked_in_order(event, from);
    events_are_walked_in_order(event, to);
}

/// A map without a range of keys has just the keys that come before the first or not before the last,
/// with what it had under them.
pub proof fn ranges_are_cut_out<K: TableKey, V>(m: Map<K, V>, from: K, to: K, key: K)
    ensures
        ({
            let left = crate::ordered_table::without_range(m, from, to);
            &&& left.dom().contains(key) <==> m.dom().contains(key) && (key.rank() < from.rank()
                || key.rank() >= to.rank())
            &&& left.dom().contains(key) ==> left[key] == m[key]
        }),
{
}

/// A write to a table that is keyed by transactions or by effects removes one row, and nothing else.
pub proof fn writes_to_transactions(
    state: TablesState,
    tx: TransactionDigest,
    digest: TransactionEffectsDigest,
)
    ensures
        ({
            let after = state.apply(BatchOp::DeleteTransaction(tx));
            &&& lost(state.transactions, after.transactions, tx)
            &&& after == (TablesState { transactions: after.transactions, ..state })
        }),
        ({
            let after = state.apply(BatchOp::DeleteEffects(digest));
            &&& lost(state.effects, after.effects, digest)
            &&& after == (TablesState { effects: after.effects, ..state })
        }),
        ({
            let after = state.apply(BatchOp::DeleteExecutedEffects(tx));
            &&& lost(state.executed_effects, after.executed_effects, tx)
            &&& after == (TablesState { executed_effects: after.executed_effects, ..state })
        }),
        ({
            let after = state.apply(BatchOp::DeleteExecutedCheckpoint(tx));
            &&& lost(
                state.executed_transactions_to_checkpoint,
                after.executed_transactions_to_checkpoint,
                tx,
            )
            &&& after == (TablesState {
                executed_transactions_to_checkpoint: after.executed_transactions_to_checkpoint,
                ..state
            })
        }),
{
}

/// A write to a table that is keyed by epochs sets or removes one row, and nothing else.
pub proof fn writes_to_epochs(
    state: TablesState,
    epoch: EpochId,
    row: (CheckpointSequenceNumber, Accumulator),
    key: ObjectKey,
)
    ensures
        ({
            let after = state.apply(BatchOp::InsertRootStateHash(epoch, row));
            &&& gained(state.root_state_hash_by_epoch, after.root_state_hash_by_epoch, epoch, row)
            &&& after == (TablesState {
                root_state_hash_by_epoch: after.root_state_hash_by_epoch,
                ..state
            })
            &&& after == state.with_root_state(epoch, row)
        }),
        ({
            let after = state.apply(BatchOp::DeleteRootStateHash(epoch));
            &&& lost(state.root_state_hash_by_epoch, after.root_state_hash_by_epoch, epoch)
            &&& after == (TablesState {
                root_state_hash_by_epoch: after.root_state_hash_by_epoch,
                ..state
            })
        }),
        ({
            let after = state.apply(BatchOp::DeleteMarker(epoch, key));
            &&& lost(
                state.object_per_epoch_marker_table,
                after.object_per_epoch_marker_table,
                (epoch, key),
            )
            &&& after == (TablesState {
                object_per_epoch_marker_table: after.object_per_epoch_marker_table,
                ..state
            })
        }),
{
}

/// A write to a table with one row replaces that row, and nothing else.
pub proof fn writes_to_single_rows(
    state: TablesState,
    configuration: EpochStartConfiguration,
    number: CheckpointSequenceNumber,
)
    ensures
        ({
            let after = state.apply(BatchOp::InsertEpochStartConfiguration(configuration));
            &&& after.epoch_start_configuration.contains_key(())
            &&& after.epoch_start_configuration[()] == configuration
            &&& after == (TablesState {
                epoch_start_configuration: after.epoch_start_configuration,
                ..state
            })
        }),
        ({
            let after = state.apply(BatchOp::InsertPrunedCheckpoint(number));
            &&& after.pruned_checkpoint.contains_key(())
            &&& after.pruned_checkpoint[()] == number
            &&& after == (TablesState { pruned_checkpoint: after.pruned_checkpoint, ..state })
        }),
{
}

/// A batch without writes changes nothing, and one more write is done after all others.
pub proof fn writes_are_done_in_order(state: TablesState, ops: Seq<BatchOp>, op: BatchOp)
    ensures
        state.apply_all(Seq::empty()) == state,
        state.apply_all(ops.push(op)) == state.apply_all(ops).apply(op),
{
    assert(ops.push(op).drop_last() =~= ops);
}

/// Byte by byte, the first object comes before the second, or it is the same and the version is lower.
pub open spec fn versions_come_before(a: ObjectKey, b: ObjectKey) -> bool {
    crate::live_laws::bytes_come_before(a.0.0, b.0.0) || (a.0 == b.0 && a.1.0 < b.1.0)
}

/// The first version comes before the second, or it is the same and the digest comes before.
pub open spec fn references_come_before(a: ObjectRef, b: ObjectRef) -> bool {
    versions_come_before(ObjectKey(a.0, a.1), ObjectKey(b.0, b.1)) || (a.0 == b.0 && a.1 == b.1
        && crate::live_laws::bytes_come_before(a.2.0, b.2.0))
}

/// The first group comes before the second, or it is the same and the index is lower.
pub open spec fn events_come_before(
    a: (TransactionEventsDigest, usize),
    b: (TransactionEventsDigest, usize),
) -> bool {
    crate::live_laws::bytes_come_before(a.0.0, b.0.0) || (a.0 == b.0 && a.1 < b.1)
}

/// Objects are walked in the order of their bytes, and the versions of one object in the order of
/// their numbers.
pub proof fn objects_are_walked_in_order(a: ObjectKey, b: ObjectKey)
    ensures
        a.rank() < b.rank() <==> versions_come_before(a, b),
{
    crate::keys::object_keys_are_grouped(a, b);
    crate::keys::object_keys_are_grouped(b, a);
    ObjectKey::rank_is_injective(a, b);
}

/// Locks are walked in the order of their versions, and the locks of one version in the order of
/// their digests.
pub proof fn locks_are_walked_in_order(a: ObjectRef, b: ObjectRef)
    ensures
        a.rank() < b.rank() <==> references_come_before(a, b),
{
    objects_are_walked_in_order(ObjectKey(a.0, a.1), ObjectKey(b.0, b.1));
    objects_are_walked_in_order(ObjectKey(b.0, b.1), ObjectKey(a.0, a.1));
    crate::keys::lock_keys_are_grouped(a, b);
    crate::keys::lock_keys_are_grouped(b, a);
    <(ObjectID, SequenceNumber, ObjectDigest)>::rank_is_injective(a, b);
    ObjectKey::rank_is_injective(ObjectKey(a.0, a.1), ObjectKey(b.0, b.1));
}

/// Events are walked in the order of their groups, and the events of one group in the order of their
/// indices.
pub proof fn events_are_walked_in_order(
    a: (TransactionEventsDigest, usize),
    b: (TransactionEventsDigest, usize),
)
    ensures
        a.rank() < b.rank() <==> events_come_before(a, b),
{
    crate::keys::event_keys_are_grouped(a, b);
    crate::keys::event_keys_are_grouped(b, a);
    <(TransactionEventsDigest, usize)>::rank_is_injective(a, b);
}

/// Markers are walked in the order of their epochs, and those of one epoch in the order of their
/// versions.
pub proof fn markers_are_walked_in_order(a: (EpochId, ObjectKey), b: (EpochId, ObjectKey))
    ensures
        a.rank() < b.rank() <==> a.0 < b.0 || (a.0 == b.0 && versions_come_before(a.1, b.1)),
{
    objects_are_walked_in_order(a.1, b.1);
    let span = crate::keys::object_key_span();
    let x = a.1.rank();
    let y = b.1.rank();
    assert(0 <= x < span && 0 <= y < span);
    if a.0 < b.0 {
        assert(a.0 * span + span <= b.0 * span) by (nonlinear_arith)
            requires
                a.0 < b.0,
                span > 0,
        ;
    } else if b.0 < a.0 {
        assert(b.0 * span + span <= a.0 * span) by (nonlinear_arith)
            requires
                b.0 < a.0,
                span > 0,
        ;
    }
}

/// What is keyed by a digest is walked in the order of the bytes, and what is keyed by an epoch in the
/// order of the epochs.
pub proof fn digests_and_epochs_are_walked_in_order(
    a: TransactionDigest,
    b: TransactionDigest,
    c: TransactionEffectsDigest,
    d: TransactionEffectsDigest,
    e: ObjectContentDigest,
    f: ObjectContentDigest,
    first: EpochId,
    second: EpochId,
)
    ensures
        a.rank() < b.rank() <==> crate::live_laws::bytes_come_before(a.0, b.0),
        c.rank() < d.rank() <==> crate::live_laws::bytes_come_before(c.0, d.0),
        e.rank() < f.rank() <==> crate::live_laws::bytes_come_before(e.0, f.0),
        first.rank() < second.rank() <==> first < second,
{
}

/// A table is walked row by row in the order of its keys: every row is found under its key, every key
/// has its row, and a later row has a later key.
pub proof fn tables_are_walked_in_order<K: TableKey, V>(table: OrderedTable<K, V>, key: K)
    requires
        table.wf(),
    ensures
        forall|i: int|
            0 <= i < table.rows().len() ==> {
                &&& table@.dom().contains((#[trigger] table.rows()[i]).0)
                &&& table@[table.rows()[i].0] == table.rows()[i].1
            },
        table@.dom().contains(key) ==> exists|i: int|
            0 <= i < table.rows().len() && (#[trigger] table.rows()[i]).0 == key,
        forall|i: int, j: int|
            0 <= i < j < table.rows().len() ==> (#[trigger] table.rows()[i]).0.rank() < (
            #[trigger] table.rows()[j]).0.rank(),
        crate::ordered_table::ordered_keys(table@).len() == table.rows().len(),
        forall|i: int|
            0 <= i < table.rows().len() ==> crate::ordered_table::ordered_keys(table@)[i] == (
            #[trigger] table.rows()[i]).0,
{
    let rows = table.rows();
    let keys = crate::ordered_table::rows_keys(rows);
    table.rows_are_contents();
    assert forall|i: int| 0 <= i < rows.len() implies crate::ordered_table::ordered_keys(table@)[i]
        == (#[trigger] rows[i]).0 by {
        assert(keys[i] == rows[i].0);
    }
    if table@.dom().contains(key) {
        assert(table@.contains_key(key));
        assert(keys.contains(key));
        let i = choose|i: int| 0 <= i < keys.len() && keys[i] == key;
        assert(rows[i].0 == key);
    }
    assert forall|i: int, j: int| 0 <= i < j < rows.len() implies (#[trigger] rows[i]).0.rank() < (
    #[trigger] rows[j]).0.rank() by {
        assert(keys[i].rank() < keys[j].rank());
    }
}

/// The tables hold what each of them holds, and are in order just if each of them is.
pub proof fn the_tables_are_their_parts(tables: AuthorityPerpetualTables)
    ensures
        tables@.objects == tables.objects@,
        tables@.indirect_move_objects == tables.indirect_move_objects@,
        tables@.owned_object_transaction_locks == tables.owned_object_transaction_locks@,
        tables@.transactions == tables.transactions@,
        tables@.effects == tables.effects@,
        tables@.executed_effects == tables.executed_effects@,
        tables@.events == tables.events@,
        tables@.executed_transactions_to_checkpoint == tables.executed_transactions_to_checkpoint@,
        tables@.root_state_hash_by_epoch == tables.root_state_hash_by_epoch@,
        tables@.epoch_start_configuration == tables.epoch_start_configuration@,
        tables@.pruned_checkpoint == tables.pruned_checkpoint@,
        tables@.expected_network_mgo_amount == tables.expected_network_mgo_amount@,
        tables@.expected_storage_fund_imbalance == tables.expected_storage_fund_imbalance@,
        tables@.object_per_epoch_marker_table == tables.object_per_epoch_marker_table@,
        tables.wf() <==> tables.objects.wf() && tables.indirect_move_objects.wf()
            && tables.owned_object_transaction_locks.wf() && tables.transactions.wf()
            && tables.effects.wf() && tables.executed_effects.wf() && tables.events.wf()
            && tables.executed_transactions_to_checkpoint.wf()
            && tables.root_state_hash_by_epoch.wf() && tables.epoch_start_configuration.wf()
            && tables.pruned_checkpoint.wf() && tables.expected_network_mgo_amount.wf()
            && tables.expected_storage_fund_imbalance.wf()
            && tables.object_per_epoch_marker_table.wf(),
{
}

} // verus!
