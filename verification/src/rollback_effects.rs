//! What the writes of a rollback do to the tables.

use crate::base_types::{
    EpochId, ObjectContentDigest, ObjectKey, ObjectRef, TransactionDigest,
    TransactionEffectsDigest, TransactionEventsDigest,
};
use crate::batch::BatchOp;
use crate::ordered_table::TableKey;
use crate::state::TablesState;
use crate::tables::AuthorityPerpetualTables;
use vstd::prelude::*;

verus! {

/// Removing the keys of a list is removing all but the last, then the last.
proof fn lemma_remove_listed<K, V>(m: Map<K, V>, keys: Seq<K>)
    ensures
        keys.len() == 0 ==> m.remove_keys(keys.to_set()) == m,
        keys.len() > 0 ==> m.remove_keys(keys.drop_last().to_set()).remove(keys.last())
            == m.remove_keys(keys.to_set()),
{
    if keys.len() == 0 {
        assert(m.remove_keys(keys.to_set()) =~= m);
    } else {
        assert(keys =~= keys.drop_last().push(keys.last()));
        assert forall|k: K| #[trigger] keys.to_set().contains(k) <==> keys.drop_last().to_set().contains(k)
            || k == keys.last() by {
            crate::seq_facts::push_contains(keys.drop_last(), keys.last(), k);
        }
        assert(m.remove_keys(keys.drop_last().to_set()).remove(keys.last()) =~= m.remove_keys(
            keys.to_set(),
        ));
    }
}

/// Removing root states one by one removes them all.
proof fn lemma_root_states(state: TablesState, keys: Seq<EpochId>)
    ensures
        state.apply_all(keys.map_values(|epoch: EpochId| BatchOp::DeleteRootStateHash(epoch)))
            == (TablesState {
            root_state_hash_by_epoch: state.root_state_hash_by_epoch.remove_keys(keys.to_set()),
            ..state
        }),
    decreases keys.len(),
{
    let ops = keys.map_values(|epoch: EpochId| BatchOp::DeleteRootStateHash(epoch));
    lemma_remove_listed(state.root_state_hash_by_epoch, keys);
    if keys.len() > 0 {
        let rest = keys.drop_last();
        lemma_root_states(state, rest);
        assert(ops.drop_last() =~= rest.map_values(|epoch: EpochId| BatchOp::DeleteRootStateHash(epoch)));
    }
}

/// Removing markers one by one removes them all.
proof fn lemma_markers(state: TablesState, keys: Seq<(EpochId, ObjectKey)>)
    ensures
        state.apply_all(keys.map_values(|marker: (EpochId, ObjectKey)| BatchOp::DeleteMarker(marker.0, marker.1)))
            == (TablesState {
            object_per_epoch_marker_table: state.object_per_epoch_marker_table.remove_keys(keys.to_set()),
            ..state
        }),
    decreases keys.len(),
{
    let ops = keys.map_values(|marker: (EpochId, ObjectKey)| BatchOp::DeleteMarker(marker.0, marker.1));
    lemma_remove_listed(state.object_per_epoch_marker_table, keys);
    if keys.len() > 0 {
        let rest = keys.drop_last();
        lemma_markers(state, rest);
        assert(ops.drop_last() =~= rest.map_values(|marker: (EpochId, ObjectKey)| BatchOp::DeleteMarker(marker.0, marker.1)));
    }
}

/// Removing the checkpoints of transactions one by one removes them all.
proof fn lemma_checkpoints(state: TablesState, keys: Seq<TransactionDigest>)
    ensures
        state.apply_all(keys.map_values(|tx: TransactionDigest| BatchOp::DeleteExecutedCheckpoint(tx)))
            == (TablesState {
            executed_transactions_to_checkpoint: state.executed_transactions_to_checkpoint.remove_keys(keys.to_set()),
            ..state
        }),
    decreases keys.len(),
{
    let ops = keys.map_values(|tx: TransactionDigest| BatchOp::DeleteExecutedCheckpoint(tx));
    lemma_remove_listed(state.executed_transactions_to_checkpoint, keys);
    if keys.len() > 0 {
        let rest = keys.drop_last();
        lemma_checkpoints(state, rest);
        assert(ops.drop_last() =~= rest.map_values(|tx: TransactionDigest| BatchOp::DeleteExecutedCheckpoint(tx)));
    }
}

/// Removing transactions one by one removes them all.
proof fn lemma_transactions(state: TablesState, keys: Seq<TransactionDigest>)
    ensures
        state.apply_all(keys.map_values(|tx: TransactionDigest| BatchOp::DeleteTransaction(tx)))
            == (TablesState {
            transactions: state.transactions.remove_keys(keys.to_set()),
            ..state
        }),
    decreases keys.len(),
{
    let ops = keys.map_values(|tx: TransactionDigest| BatchOp::DeleteTransaction(tx));
    lemma_remove_listed(state.transactions, keys);
    if keys.len() > 0 {
        let rest = keys.drop_last();
        lemma_transactions(state, rest);
        assert(ops.drop_last() =~= rest.map_values(|tx: TransactionDigest| BatchOp::DeleteTransaction(tx)));
    }
}

/// Removing effects one by one removes them all.
proof fn lemma_effects(state: TablesState, keys: Seq<TransactionEffectsDigest>)
    ensures
        state.apply_all(keys.map_values(|digest: TransactionEffectsDigest| BatchOp::DeleteEffects(digest)))
            == (TablesState {
            effects: state.effects.remove_keys(keys.to_set()),
            ..state
        }),
    decreases keys.len(),
{
    let ops = keys.map_values(|digest: TransactionEffectsDigest| BatchOp::DeleteEffects(digest));
    lemma_remove_listed(state.effects, keys);
    if keys.len() > 0 {
        let rest = keys.drop_last();
        lemma_effects(state, rest);
        assert(ops.drop_last() =~= rest.map_values(|digest: TransactionEffectsDigest| BatchOp::DeleteEffects(digest)));
    }
}

/// Removing the records of execution one by one removes them all.
proof fn lemma_executed(state: TablesState, keys: Seq<TransactionDigest>)
    ensures
        state.apply_all(keys.map_values(|tx: TransactionDigest| BatchOp::DeleteExecutedEffects(tx)))
            == (TablesState {
            executed_effects: state.executed_effects.remove_keys(keys.to_set()),
            ..state
        }),
    decreases keys.len(),
{
    let ops = keys.map_values(|tx: TransactionDigest| BatchOp::DeleteExecutedEffects(tx));
    lemma_remove_listed(state.executed_effects, keys);
    if keys.len() > 0 {
        let rest = keys.drop_last();
        lemma_executed(state, rest);
        assert(ops.drop_last() =~= rest.map_values(|tx: TransactionDigest| BatchOp::DeleteExecutedEffects(tx)));
    }
}

/// Removing object versions one by one removes them all.
proof fn lemma_objects(state: TablesState, keys: Seq<ObjectKey>)
    ensures
        state.apply_all(keys.map_values(|key: ObjectKey| BatchOp::DeleteObject(key)))
            == (TablesState {
            objects: state.objects.remove_keys(keys.to_set()),
            ..state
        }),
    decreases keys.len(),
{
    let ops = keys.map_values(|key: ObjectKey| BatchOp::DeleteObject(key));
    lemma_remove_listed(state.objects, keys);
    if keys.len() > 0 {
        let rest = keys.drop_last();
        lemma_objects(state, rest);
        assert(ops.drop_last() =~= rest.map_values(|key: ObjectKey| BatchOp::DeleteObject(key)));
    }
}

/// Removing contents kept apart one by one removes them all.
proof fn lemma_indirect(state: TablesState, keys: Seq<ObjectContentDigest>)
    ensures
        state.apply_all(keys.map_values(|digest: ObjectContentDigest| BatchOp::DeleteIndirectObject(digest)))
            == (TablesState {
            indirect_move_objects: state.indirect_move_objects.remove_keys(keys.to_set()),
            ..state
        }),
    decreases keys.len(),
{
    let ops = keys.map_values(|digest: ObjectContentDigest| BatchOp::DeleteIndirectObject(digest));
    lemma_remove_listed(state.indirect_move_objects, keys);
    if keys.len() > 0 {
        let rest = keys.drop_last();
        lemma_indirect(state, rest);
        assert(ops.drop_last() =~= rest.map_values(|digest: ObjectContentDigest| BatchOp::DeleteIndirectObject(digest)));
    }
}

/// The events that the removal of these groups drops.
pub open spec fn events_of(digests: Seq<TransactionEventsDigest>) -> Set<
    (TransactionEventsDigest, usize),
> {
    Set::new(
        |event: (TransactionEventsDigest, usize)|
            digests.contains(event.0) && event.1 < usize::MAX,
    )
}

/// Removing groups of events one by one removes them all.
proof fn lemma_events(state: TablesState, digests: Seq<TransactionEventsDigest>)
    ensures
        state.apply_all(
            digests.map_values(
                |digest: TransactionEventsDigest| crate::rollback::event_op(digest),
            ),
        ) == (TablesState {
            events: state.events.remove_keys(events_of(digests)),
            ..state
        }),
    decreases digests.len(),
{
    let ops = digests.map_values(
        |digest: TransactionEventsDigest| crate::rollback::event_op(digest),
    );
    if digests.len() == 0 {
        assert(state.events.remove_keys(events_of(digests)) =~= state.events);
    } else {
        let rest = digests.drop_last();
        let last = digests.last();
        lemma_events(state, rest);
        assert(ops.drop_last() =~= rest.map_values(
            |digest: TransactionEventsDigest| crate::rollback::event_op(digest),
        ));
        let from = (last, 0usize);
        let to = (last, usize::MAX);
        assert(digests =~= rest.push(last));
        assert forall|event: (TransactionEventsDigest, usize)| #[trigger]
            events_of(digests).contains(event) <==> events_of(rest).contains(event)
            || from.rank() <= event.rank() < to.rank() by {
            crate::keys::event_keys_are_grouped(event, from);
            crate::keys::event_keys_are_grouped(from, event);
            crate::keys::event_keys_are_grouped(event, to);
            crate::keys::event_keys_are_grouped(to, event);
            <(TransactionEventsDigest, usize)>::rank_is_injective(event, from);
            <(TransactionEventsDigest, usize)>::rank_is_injective(event, to);
            crate::seq_facts::push_contains(rest, last, event.0);
        }
        assert(crate::ordered_table::without_range(state.events.remove_keys(events_of(rest)), from, to)
            =~= state.events.remove_keys(events_of(digests)));
    }
}

/// The locks that the removal of the locks of these object versions drops.
pub open spec fn locks_of(keys: Seq<ObjectKey>) -> Set<ObjectRef> {
    Set::new(
        |lock: ObjectRef|
            lock.2 != crate::base_types::digest_max() && keys.contains(ObjectKey(lock.0, lock.1)),
    )
}

/// Removing the locks of object versions one by one removes them all.
proof fn lemma_locks(state: TablesState, keys: Seq<ObjectKey>)
    ensures
        state.apply_all(keys.map_values(|key: ObjectKey| crate::rollback::lock_op(key)))
            == (TablesState {
            owned_object_transaction_locks: state.owned_object_transaction_locks.remove_keys(
                locks_of(keys),
            ),
            ..state
        }),
    decreases keys.len(),
{
    let ops = keys.map_values(|key: ObjectKey| crate::rollback::lock_op(key));
    let locks = state.owned_object_transaction_locks;
    if keys.len() == 0 {
        assert(locks.remove_keys(locks_of(keys)) =~= locks);
    } else {
        let rest = keys.drop_last();
        let last = keys.last();
        lemma_locks(state, rest);
        assert(ops.drop_last() =~= rest.map_values(
            |key: ObjectKey| crate::rollback::lock_op(key),
        ));
        let from = crate::state::first_lock(last);
        let to = crate::state::last_lock(last);
        assert(keys =~= rest.push(last));
        assert forall|lock: ObjectRef| #[trigger]
            locks_of(keys).contains(lock) <==> locks_of(rest).contains(lock) || from.rank()
            <= lock.rank() < to.rank() by {
            crate::locks::lemma_lock_range(lock, last);
            crate::seq_facts::push_contains(rest, last, ObjectKey(lock.0, lock.1));
        }
        assert(crate::ordered_table::without_range(locks.remove_keys(locks_of(rest)), from, to)
            =~= locks.remove_keys(locks_of(keys)));
    }
}

/// The writes of a rollback leave the tables rolled back.
pub proof fn rollback_ops_roll_back(tables: AuthorityPerpetualTables, target: EpochId)
    requires
        tables.wf(),
    ensures
        tables@.apply_all(tables@.rollback_ops(target)) == tables@.rolled_back(target),
{
    let s = tables@;
    let txs = s.transactions_after(target);
    let a1 = s.late_epochs(target).map_values(
        |epoch: EpochId| BatchOp::DeleteRootStateHash(epoch),
    );
    let a2 = s.late_markers(target).map_values(
        |marker: (EpochId, ObjectKey)| BatchOp::DeleteMarker(marker.0, marker.1),
    );
    let b1 = txs.map_values(|tx: TransactionDigest| BatchOp::DeleteExecutedCheckpoint(tx));
    let b2 = txs.map_values(|tx: TransactionDigest| BatchOp::DeleteTransaction(tx));
    let b3 = s.executed_digests(txs).map_values(
        |digest: TransactionEffectsDigest| BatchOp::DeleteEffects(digest),
    );
    let b4 = txs.map_values(|tx: TransactionDigest| BatchOp::DeleteExecutedEffects(tx));
    let b5 = s.event_ops(txs);
    let e = s.late_effects_ops(target);
    let c1 = s.outputs_of(txs).map_values(|key: ObjectKey| BatchOp::DeleteObject(key));
    let c2 = s.indirect_ops(s.outputs_of(txs));
    let d = s.lock_ops(txs);
    assert(s.rollback_ops(target) =~= a1 + (a2 + (b1 + (b2 + (b3 + (b4 + (b5 + (e + (c1 + (c2
        + d))))))))));
    crate::batch::apply_all_concat(s, a1, a2 + (b1 + (b2 + (b3 + (b4 + (b5 + (e + (c1 + (c2 + d)))))))));
    let s1 = s.apply_all(a1);
    lemma_root_states(s, s.late_epochs(target));
    crate::batch::apply_all_concat(s1, a2, b1 + (b2 + (b3 + (b4 + (b5 + (e + (c1 + (c2 + d))))))));
    let s2 = s1.apply_all(a2);
    lemma_markers(s1, s.late_markers(target));
    crate::batch::apply_all_concat(s2, b1, b2 + (b3 + (b4 + (b5 + (e + (c1 + (c2 + d)))))));
    let s3 = s2.apply_all(b1);
    lemma_checkpoints(s2, txs);
    crate::batch::apply_all_concat(s3, b2, b3 + (b4 + (b5 + (e + (c1 + (c2 + d))))));
    let s4 = s3.apply_all(b2);
    lemma_transactions(s3, txs);
    crate::batch::apply_all_concat(s4, b3, b4 + (b5 + (e + (c1 + (c2 + d)))));
    let s5 = s4.apply_all(b3);
    lemma_effects(s4, s.executed_digests(txs));
    crate::batch::apply_all_concat(s5, b4, b5 + (e + (c1 + (c2 + d))));
    let s6 = s5.apply_all(b4);
    lemma_executed(s5, txs);
    crate::batch::apply_all_concat(s6, b5, e + (c1 + (c2 + d)));
    let s6e = s6.apply_all(b5);
    lemma_events(s6, s.emitted_digests(txs));
    crate::batch::apply_all_concat(s6e, e, c1 + (c2 + d));
    let s7 = s6e.apply_all(e);
    lemma_effects(s6e, s.late_effects(target));
    crate::batch::apply_all_concat(s7, c1, c2 + d);
    let s8 = s7.apply_all(c1);
    lemma_objects(s7, s.outputs_of(txs));
    crate::batch::apply_all_concat(s8, c2, d);
    let s9 = s8.apply_all(c2);
    lemma_indirect(s8, s.indirect_digests(s.outputs_of(txs)));
    let s10 = s9.apply_all(d);
    lemma_locks(s9, s.outputs_of(txs));
    let goal = s.rolled_back(target);
    assert(s10.root_state_hash_by_epoch =~= goal.root_state_hash_by_epoch) by {
        tables.root_state_hash_by_epoch.rows_are_contents();
        let keys = crate::ordered_table::ordered_keys(s.root_state_hash_by_epoch);
        let p = |epoch: EpochId| epoch > target;
        assert forall|epoch: EpochId| #[trigger]
            s.root_state_hash_by_epoch.contains_key(epoch) implies s.late_epochs(
            target,
        ).to_set().contains(epoch) == (epoch > target) by {
            crate::seq_facts::filter_contains(keys, p, epoch);
        }
    }
    assert(s10.object_per_epoch_marker_table =~= goal.object_per_epoch_marker_table) by {
        tables.object_per_epoch_marker_table.rows_are_contents();
        let keys = crate::ordered_table::ordered_keys(s.object_per_epoch_marker_table);
        let p = |marker: (EpochId, ObjectKey)| marker.0 > target;
        assert forall|marker: (EpochId, ObjectKey)| #[trigger]
            s.object_per_epoch_marker_table.contains_key(marker) implies s.late_markers(
            target,
        ).to_set().contains(marker) == (marker.0 > target) by {
            crate::seq_facts::filter_contains(keys, p, marker);
        }
    }
    assert(s10.effects =~= goal.effects) by {
        tables.effects.rows_are_contents();
        let keys = crate::ordered_table::ordered_keys(s.effects);
        let p = |digest: TransactionEffectsDigest| s.effects[digest].executed_epoch > target;
        assert forall|digest: TransactionEffectsDigest| #[trigger]
            s.effects.contains_key(digest) implies s.late_effects(target).to_set().contains(digest)
            == (s.effects[digest].executed_epoch > target) by {
            crate::seq_facts::filter_contains(keys, p, digest);
        }
    }
    assert(s10.events =~= goal.events);
    assert(s10.owned_object_transaction_locks =~= goal.owned_object_transaction_locks);
    assert(s10 =~= goal);
}

} // verus!
