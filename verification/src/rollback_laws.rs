//! What holds of a rollback as a whole.

use crate::base_types::{
    Bytes32, EpochId, ObjectContentDigest, ObjectKey, ObjectRef, TransactionDigest,
    TransactionEffectsDigest, TransactionEventsDigest,
};
use crate::ordered_table::TableKey;
use crate::state::TablesState;
use crate::tables::AuthorityPerpetualTables;
use vstd::prelude::*;

verus! {

impl TablesState {
    /// The tables say that a transaction was executed in an epoch after `target`: by its checkpoint
    /// or by its effects.
    pub open spec fn executed_after(self, tx: TransactionDigest, target: EpochId) -> bool {
        ||| self.executed_transactions_to_checkpoint.contains_key(tx)
            && self.executed_transactions_to_checkpoint[tx].0 > target
        ||| self.effects_of(tx) matches Some(effects) && effects.executed_epoch > target
    }

    /// No two transactions were executed with the same effects of an epoch after `target`.
    pub open spec fn late_effects_are_unshared(self, target: EpochId) -> bool {
        forall|a: TransactionDigest, b: TransactionDigest|
            #![trigger self.executed_effects[a], self.executed_effects[b]]
            self.executed_effects.contains_key(a) && self.executed_effects.contains_key(b)
                && self.executed_effects[a] == self.executed_effects[b] && self.executed_after(
                a,
                target,
            ) ==> a == b
    }

    /// Some transaction was executed here with these effects.
    pub open spec fn was_executed(self, digest: TransactionEffectsDigest) -> bool {
        exists|tx: TransactionDigest| #[trigger]
            self.executed_effects.contains_key(tx) && self.executed_effects[tx] == digest
    }
}

/// Adding the first unlisted executor of some effects.
proof fn lemma_with_executor(
    tables: AuthorityPerpetualTables,
    listed: Seq<TransactionDigest>,
    digest: TransactionEffectsDigest,
)
    requires
        tables.wf(),
        listed.no_duplicates(),
    ensures
        ({
            let s = tables@;
            let r = s.with_executor(listed, digest);
            &&& r.no_duplicates()
            &&& forall|tx: TransactionDigest|
                listed.contains(tx) ==> #[trigger] r.contains(tx)
            &&& forall|tx: TransactionDigest| #[trigger]
                r.contains(tx) ==> listed.contains(tx) || (s.executed_effects.contains_key(tx)
                    && s.executed_effects[tx] == digest)
            &&& s.was_executed(digest) ==> exists|tx: TransactionDigest| #[trigger]
                r.contains(tx) && s.executed_effects.contains_key(tx) && s.executed_effects[tx]
                    == digest
        }),
{
    let s = tables@;
    let r = s.with_executor(listed, digest);
    let keys = crate::ordered_table::ordered_keys(s.executed_effects);
    let p = s.unlisted_with(listed, digest);
    let executors = s.unlisted_executors(listed, digest);
    tables.executed_effects.rows_are_contents();
    if executors.len() > 0 {
        let first = executors[0];
        assert(executors.contains(first));
        crate::seq_facts::filter_contains(keys, p, first);
        assert forall|tx: TransactionDigest| #[trigger] r.contains(tx) <==> listed.contains(tx) || tx
            == first by {
            crate::seq_facts::push_contains(listed, first, tx);
        }
        assert(r.no_duplicates()) by {
            assert forall|i: int, j: int| 0 <= i < r.len() && 0 <= j < r.len() && i != j implies r[i]
                != r[j] by {
                if i == listed.len() {
                    assert(listed.contains(listed[j]));
                } else if j == listed.len() {
                    assert(listed.contains(listed[i]));
                }
            }
        }
        assert(r.contains(first));
    } else if s.was_executed(digest) {
        let tx = choose|tx: TransactionDigest| #[trigger]
            s.executed_effects.contains_key(tx) && s.executed_effects[tx] == digest;
        crate::seq_facts::filter_contains(keys, p, tx);
        if !listed.contains(tx) {
            assert(p(tx));
            assert(executors.contains(tx));
        }
        assert(r.contains(tx));
    }
}

/// Adding an executor for each of several effects.
proof fn lemma_with_executors(
    tables: AuthorityPerpetualTables,
    listed: Seq<TransactionDigest>,
    digests: Seq<TransactionEffectsDigest>,
)
    requires
        tables.wf(),
        listed.no_duplicates(),
    ensures
        ({
            let s = tables@;
            let r = s.with_executors(listed, digests);
            &&& r.no_duplicates()
            &&& forall|tx: TransactionDigest|
                listed.contains(tx) ==> #[trigger] r.contains(tx)
            &&& forall|tx: TransactionDigest| #[trigger]
                r.contains(tx) ==> listed.contains(tx) || (s.executed_effects.contains_key(tx)
                    && digests.contains(s.executed_effects[tx]))
            &&& forall|digest: TransactionEffectsDigest| #[trigger]
                digests.contains(digest) && s.was_executed(digest) ==> exists|
                    tx: TransactionDigest,
                | #[trigger]
                    r.contains(tx) && s.executed_effects.contains_key(tx) && s.executed_effects[tx]
                        == digest
        }),
    decreases digests.len(),
{
    let s = tables@;
    let r = s.with_executors(listed, digests);
    if digests.len() > 0 {
        let rest = digests.drop_last();
        let last = digests.last();
        let before = s.with_executors(listed, rest);
        lemma_with_executors(tables, listed, rest);
        lemma_with_executor(tables, before, last);
        assert(digests =~= rest.push(last));
        assert forall|tx: TransactionDigest| listed.contains(tx) implies #[trigger] r.contains(
            tx,
        ) by {
            assert(before.contains(tx));
        }
        assert forall|tx: TransactionDigest| #[trigger] r.contains(tx) implies listed.contains(tx)
            || (s.executed_effects.contains_key(tx) && digests.contains(s.executed_effects[tx])) by {
            crate::seq_facts::push_contains(rest, last, s.executed_effects[tx]);
            if before.contains(tx) {
            }
        }
        assert forall|digest: TransactionEffectsDigest| #[trigger]
            digests.contains(digest) && s.was_executed(digest) implies exists|
            tx: TransactionDigest,
        | #[trigger]
            r.contains(tx) && s.executed_effects.contains_key(tx) && s.executed_effects[tx]
                == digest by {
            crate::seq_facts::push_contains(rest, last, digest);
            if rest.contains(digest) {
                let tx = choose|tx: TransactionDigest| #[trigger]
                    before.contains(tx) && s.executed_effects.contains_key(tx)
                        && s.executed_effects[tx] == digest;
                assert(r.contains(tx));
            }
        }
    }
}

/// What the lists of a rollback contain.
proof fn lemma_late_lists(tables: AuthorityPerpetualTables, target: EpochId)
    requires
        tables.wf(),
    ensures
        ({
            let s = tables@;
            &&& s.late_checkpointed(target).no_duplicates()
            &&& forall|tx: TransactionDigest| #[trigger]
                s.late_checkpointed(target).contains(tx)
                    <==> s.executed_transactions_to_checkpoint.contains_key(tx)
                    && s.executed_transactions_to_checkpoint[tx].0 > target
            &&& forall|digest: TransactionEffectsDigest| #[trigger]
                s.late_effects(target).contains(digest) <==> s.effects.contains_key(digest)
                    && s.effects[digest].executed_epoch > target
            &&& forall|epoch: EpochId| #[trigger]
                s.late_epochs(target).contains(epoch) <==> s.root_state_hash_by_epoch.contains_key(
                    epoch,
                ) && epoch > target
            &&& forall|marker: (EpochId, ObjectKey)| #[trigger]
                s.late_markers(target).contains(marker)
                    <==> s.object_per_epoch_marker_table.contains_key(marker) && marker.0 > target
        }),
{
    let s = tables@;
    tables.executed_transactions_to_checkpoint.rows_are_contents();
    tables.effects.rows_are_contents();
    tables.root_state_hash_by_epoch.rows_are_contents();
    tables.object_per_epoch_marker_table.rows_are_contents();
    let checkpointed = crate::ordered_table::ordered_keys(s.executed_transactions_to_checkpoint);
    let effects = crate::ordered_table::ordered_keys(s.effects);
    let epochs = crate::ordered_table::ordered_keys(s.root_state_hash_by_epoch);
    let markers = crate::ordered_table::ordered_keys(s.object_per_epoch_marker_table);
    let late_tx = |tx: TransactionDigest| s.executed_transactions_to_checkpoint[tx].0 > target;
    let late_digest = |digest: TransactionEffectsDigest| s.effects[digest].executed_epoch > target;
    let late_epoch = |epoch: EpochId| epoch > target;
    let late_marker = |marker: (EpochId, ObjectKey)| marker.0 > target;
    crate::ordered_table::increasing_has_no_duplicates(checkpointed);
    crate::seq_facts::filter_no_duplicates(checkpointed, late_tx);
    assert forall|tx: TransactionDigest| #[trigger] s.late_checkpointed(target).contains(tx)
        <==> s.executed_transactions_to_checkpoint.contains_key(tx)
        && s.executed_transactions_to_checkpoint[tx].0 > target by {
        crate::seq_facts::filter_contains(checkpointed, late_tx, tx);
    }
    assert forall|digest: TransactionEffectsDigest| #[trigger]
        s.late_effects(target).contains(digest) <==> s.effects.contains_key(digest)
            && s.effects[digest].executed_epoch > target by {
        crate::seq_facts::filter_contains(effects, late_digest, digest);
    }
    assert forall|epoch: EpochId| #[trigger] s.late_epochs(target).contains(epoch)
        <==> s.root_state_hash_by_epoch.contains_key(epoch) && epoch > target by {
        crate::seq_facts::filter_contains(epochs, late_epoch, epoch);
    }
    assert forall|marker: (EpochId, ObjectKey)| #[trigger] s.late_markers(target).contains(marker)
        <==> s.object_per_epoch_marker_table.contains_key(marker) && marker.0 > target by {
        crate::seq_facts::filter_contains(markers, late_marker, marker);
    }
}

/// A rollback takes out transactions that were executed after the target epoch, each once, and no
/// others. Every one with a late checkpoint is among them, and so is, for all late effects that were
/// executed here, a transaction that was executed with them.
pub proof fn late_transactions_are_identified(tables: AuthorityPerpetualTables, target: EpochId)
    requires
        tables.wf(),
    ensures
        ({
            let s = tables@;
            let txs = s.transactions_after(target);
            &&& txs.no_duplicates()
            &&& forall|tx: TransactionDigest| #[trigger]
                txs.contains(tx) ==> s.executed_after(tx, target)
            &&& forall|tx: TransactionDigest|
                s.executed_transactions_to_checkpoint.contains_key(tx)
                    && s.executed_transactions_to_checkpoint[tx].0 > target
                    ==> #[trigger] txs.contains(tx)
            &&& forall|digest: TransactionEffectsDigest| #[trigger]
                s.effects.contains_key(digest) && s.effects[digest].executed_epoch > target
                    && s.was_executed(digest) ==> exists|tx: TransactionDigest| #[trigger]
                    txs.contains(tx) && s.executed_effects.contains_key(tx)
                        && s.executed_effects[tx] == digest
        }),
{
    let s = tables@;
    let txs = s.transactions_after(target);
    lemma_late_lists(tables, target);
    lemma_with_executors(tables, s.late_checkpointed(target), s.late_effects(target));
    assert forall|tx: TransactionDigest| #[trigger] txs.contains(tx) implies s.executed_after(
        tx,
        target,
    ) by {
        if !s.late_checkpointed(target).contains(tx) {
            assert(s.late_effects(target).contains(s.executed_effects[tx]));
        }
    }
    assert forall|tx: TransactionDigest|
        s.executed_transactions_to_checkpoint.contains_key(tx)
            && s.executed_transactions_to_checkpoint[tx].0 > target implies #[trigger] txs.contains(
        tx,
    ) by {
        assert(s.late_checkpointed(target).contains(tx));
    }
    assert forall|digest: TransactionEffectsDigest| #[trigger]
        s.effects.contains_key(digest) && s.effects[digest].executed_epoch > target
            && s.was_executed(digest) implies exists|tx: TransactionDigest| #[trigger]
        txs.contains(tx) && s.executed_effects.contains_key(tx) && s.executed_effects[tx]
            == digest by {
        assert(s.late_effects(target).contains(digest));
    }
}

/// Where no two transactions share late effects, a rollback takes out just the transactions that
/// were executed after the target epoch.
pub proof fn just_the_late_transactions_are_identified(
    tables: AuthorityPerpetualTables,
    target: EpochId,
    tx: TransactionDigest,
)
    requires
        tables.wf(),
        tables@.late_effects_are_unshared(target),
    ensures
        tables@.transactions_after(target).contains(tx) <==> tables@.executed_after(tx, target),
{
    let s = tables@;
    let txs = s.transactions_after(target);
    late_transactions_are_identified(tables, target);
    if s.executed_after(tx, target) && !(s.executed_transactions_to_checkpoint.contains_key(tx)
        && s.executed_transactions_to_checkpoint[tx].0 > target) {
        let digest = s.executed_effects[tx];
        assert(s.effects.contains_key(digest));
        assert(s.executed_effects.contains_key(tx));
        assert(s.was_executed(digest));
        let found = choose|t: TransactionDigest| #[trigger]
            txs.contains(t) && s.executed_effects.contains_key(t) && s.executed_effects[t]
                == digest;
        assert(s.executed_effects[tx] == s.executed_effects[found]);
        assert(tx == found);
    }
}

/// The effects of a listed transaction are among those that go.
proof fn lemma_executed_digests(
    s: TablesState,
    txs: Seq<TransactionDigest>,
    digest: TransactionEffectsDigest,
)
    ensures
        s.executed_digests(txs).contains(digest) <==> exists|tx: TransactionDigest| #[trigger]
            txs.contains(tx) && s.executed_effects.contains_key(tx) && s.executed_effects[tx]
                == digest,
{
    let f = |tx: TransactionDigest| s.executed_digest(tx);
    crate::seq_facts::flat_contains(txs, f, digest);
    if s.executed_digests(txs).contains(digest) {
        let tx = choose|tx: TransactionDigest| #[trigger] txs.contains(tx) && f(tx).contains(digest);
        assert(txs.contains(tx) && s.executed_effects.contains_key(tx) && s.executed_effects[tx]
            == digest);
    }
    if exists|tx: TransactionDigest| #[trigger]
        txs.contains(tx) && s.executed_effects.contains_key(tx) && s.executed_effects[tx]
            == digest {
        let tx = choose|tx: TransactionDigest| #[trigger]
            txs.contains(tx) && s.executed_effects.contains_key(tx) && s.executed_effects[tx]
                == digest;
        assert(f(tx)[0] == digest);
        assert(txs.contains(tx) && f(tx).contains(digest));
    }
}

/// After a rollback nothing of an epoch after the target is on record: no root state, no marker, no
/// checkpoint of a transaction, no effects, and so no transaction that was executed.
pub proof fn rollback_leaves_nothing_executed_later(
    tables: AuthorityPerpetualTables,
    target: EpochId,
)
    requires
        tables.wf(),
    ensures
        ({
            let after = tables@.rolled_back(target);
            &&& forall|epoch: EpochId| #[trigger]
                after.root_state_hash_by_epoch.contains_key(epoch) ==> epoch <= target
            &&& forall|marker: (EpochId, ObjectKey)| #[trigger]
                after.object_per_epoch_marker_table.contains_key(marker) ==> marker.0 <= target
            &&& forall|tx: TransactionDigest| #[trigger]
                after.executed_transactions_to_checkpoint.contains_key(tx)
                    ==> after.executed_transactions_to_checkpoint[tx].0 <= target
            &&& forall|tx: TransactionDigest| !(#[trigger] after.executed_after(tx, target))
            &&& forall|digest: TransactionEffectsDigest| #[trigger]
                after.effects.contains_key(digest) ==> after.effects[digest].executed_epoch
                    <= target
        }),
{
    let s = tables@;
    let txs = s.transactions_after(target);
    let after = s.rolled_back(target);
    late_transactions_are_identified(tables, target);
    assert forall|tx: TransactionDigest| #[trigger]
        after.executed_transactions_to_checkpoint.contains_key(
            tx,
        ) implies after.executed_transactions_to_checkpoint[tx].0 <= target by {
        assert(!txs.to_set().contains(tx));
        assert(!txs.contains(tx));
    }
    assert forall|tx: TransactionDigest| !(#[trigger] after.executed_after(tx, target)) by {
        if after.effects_of(tx) is Some {
            assert(after.effects.contains_key(after.executed_effects[tx]));
        }
        if after.executed_transactions_to_checkpoint.contains_key(tx) {
            assert(after.executed_transactions_to_checkpoint[tx].0 <= target);
        }
    }
}

/// A rollback removes all records of epochs after the target: root states, markers, effects, and,
/// where no two transactions share late effects, the transactions with what was known of their
/// execution.
pub proof fn rollback_removes_all_later_records(
    tables: AuthorityPerpetualTables,
    target: EpochId,
    tx: TransactionDigest,
)
    requires
        tables.wf(),
        tables@.late_effects_are_unshared(target),
    ensures
        ({
            let after = tables@.rolled_back(target);
            &&& forall|epoch: EpochId| #[trigger]
                after.root_state_hash_by_epoch.contains_key(epoch) ==> epoch <= target
            &&& forall|marker: (EpochId, ObjectKey)| #[trigger]
                after.object_per_epoch_marker_table.contains_key(marker) ==> marker.0 <= target
            &&& forall|digest: TransactionEffectsDigest| #[trigger]
                after.effects.contains_key(digest) ==> after.effects[digest].executed_epoch
                    <= target
            &&& tables@.executed_after(tx, target) ==> {
                &&& !after.transactions.contains_key(tx)
                &&& !after.executed_effects.contains_key(tx)
                &&& !after.executed_transactions_to_checkpoint.contains_key(tx)
                &&& after.effects_of(tx) is None
            }
        }),
{
    let after = tables@.rolled_back(target);
    rollback_leaves_nothing_executed_later(tables, target);
    just_the_late_transactions_are_identified(tables, target, tx);
    if tables@.executed_after(tx, target) {
        assert(tables@.transactions_after(target).to_set().contains(tx));
    }
}

/// The highest epoch on record after a rollback is not above the target.
pub proof fn target_is_the_highest_epoch_left(
    tables: AuthorityPerpetualTables,
    target: EpochId,
    highest: EpochId,
)
    requires
        tables.wf(),
        tables@.rolled_back(target).is_highest_epoch(highest),
    ensures
        highest <= target,
{
    let after = tables@.rolled_back(target);
    rollback_leaves_nothing_executed_later(tables, target);
    if highest > target {
        assert(!after.root_state_hash_by_epoch.contains_key(highest));
        let digest = choose|d: TransactionEffectsDigest| #[trigger]
            after.effects.contains_key(d) && after.effects[d].executed_epoch == highest;
    }
}

/// After a rollback no object version is left that a removed transaction created, mutated or
/// unwrapped; nor its contents where they were kept apart; nor a lock of such a version; nor one of
/// its events. Locks with the largest digest and events with the largest index
/// lie outside the ranges that are cleared.
pub proof fn rollback_removes_outputs(
    tables: AuthorityPerpetualTables,
    target: EpochId,
    tx: TransactionDigest,
)
    requires
        tables.wf(),
        tables@.transactions_after(target).contains(tx),
    ensures
        ({
            let s = tables@;
            let after = s.rolled_back(target);
            &&& forall|key: ObjectKey| #[trigger]
                s.outputs(tx).contains(key) ==> !after.objects.contains_key(key)
            &&& forall|key: ObjectKey, i: int|
                #![trigger s.outputs(tx).contains(key), s.indirect_digest(key)[i]]
                s.outputs(tx).contains(key) && 0 <= i < s.indirect_digest(key).len()
                    ==> !after.indirect_move_objects.contains_key(s.indirect_digest(key)[i])
            &&& forall|lock: ObjectRef| #[trigger]
                after.owned_object_transaction_locks.contains_key(lock) && s.outputs(
                    tx,
                ).contains(crate::base_types::key_of_ref(lock)) ==> lock.2
                    == crate::base_types::digest_max()
            &&& forall|event: (TransactionEventsDigest, usize)| #[trigger]
                after.events.contains_key(event) && s.emitted_digest(tx).contains(event.0)
                    ==> event.1 == usize::MAX
        }),
{
    let s = tables@;
    let txs = s.transactions_after(target);
    let after = s.rolled_back(target);
    let outputs = |t: TransactionDigest| s.outputs(t);
    let emitted = |t: TransactionDigest| s.emitted_digest(t);
    let kept_apart = |key: ObjectKey| s.indirect_digest(key);
    assert forall|key: ObjectKey| #[trigger] s.outputs(tx).contains(key) implies s.outputs_of(
        txs,
    ).contains(key) && !after.objects.contains_key(key) by {
        crate::seq_facts::flat_contains(txs, outputs, key);
        assert(txs.contains(tx) && outputs(tx).contains(key));
        assert(s.outputs_of(txs).to_set().contains(key));
    }
    assert forall|key: ObjectKey, i: int|
        #![trigger s.outputs(tx).contains(key), s.indirect_digest(key)[i]]
        s.outputs(tx).contains(key) && 0 <= i < s.indirect_digest(key).len() implies
        !after.indirect_move_objects.contains_key(s.indirect_digest(key)[i]) by {
        let digest = s.indirect_digest(key)[i];
        crate::seq_facts::flat_contains(s.outputs_of(txs), kept_apart, digest);
        assert(s.outputs_of(txs).contains(key) && kept_apart(key).contains(digest));
        assert(s.indirect_digests(s.outputs_of(txs)).to_set().contains(digest));
    }
    assert forall|lock: ObjectRef| #[trigger]
        after.owned_object_transaction_locks.contains_key(lock) && s.outputs(tx).contains(
            crate::base_types::key_of_ref(lock),
        ) implies lock.2 == crate::base_types::digest_max() by {
        let key = crate::base_types::key_of_ref(lock);
        crate::seq_facts::flat_contains(txs, outputs, key);
        assert(txs.contains(tx) && outputs(tx).contains(key));
        assert(s.outputs_of(txs).contains(ObjectKey(lock.0, lock.1)));
    }
    assert forall|event: (TransactionEventsDigest, usize)| #[trigger]
        after.events.contains_key(event) && s.emitted_digest(tx).contains(event.0) implies event.1
        == usize::MAX by {
        crate::seq_facts::flat_contains(txs, emitted, event.0);
        assert(txs.contains(tx) && emitted(tx).contains(event.0));
        assert(s.emitted_digests(txs).contains(event.0));
    }
}

/// A rollback leaves alone what belongs to the target epoch or an earlier one: the root state and
/// the markers of such an epoch; a transaction that was executed no later; its effects, unless a
/// removed transaction has the same; and every object version that no removed transaction put out.
pub proof fn earlier_records_survive(
    tables: AuthorityPerpetualTables,
    target: EpochId,
    tx: TransactionDigest,
    key: ObjectKey,
)
    requires
        tables.wf(),
    ensures
        ({
            let s = tables@;
            let after = s.rolled_back(target);
            &&& forall|epoch: EpochId|
                epoch <= target ==> #[trigger] after.root_state(epoch) == s.root_state(epoch)
            &&& forall|marker: (EpochId, ObjectKey)|
                marker.0 <= target ==> {
                    &&& #[trigger] after.object_per_epoch_marker_table.contains_key(marker)
                        == s.object_per_epoch_marker_table.contains_key(marker)
                    &&& after.object_per_epoch_marker_table.contains_key(marker)
                        ==> after.object_per_epoch_marker_table[marker]
                        == s.object_per_epoch_marker_table[marker]
                }
            &&& !s.executed_after(tx, target) ==> {
                &&& after.transactions.contains_key(tx) == s.transactions.contains_key(tx)
                &&& after.transactions.contains_key(tx) ==> after.transactions[tx]
                    == s.transactions[tx]
                &&& after.executed_effects.contains_key(tx) == s.executed_effects.contains_key(tx)
                &&& after.executed_effects.contains_key(tx) ==> after.executed_effects[tx]
                    == s.executed_effects[tx]
                &&& (forall|other: TransactionDigest| #[trigger]
                    s.transactions_after(target).contains(other)
                        && s.executed_effects.contains_key(other) ==> s.executed_effects[other]
                        != s.executed_effects[tx]) ==> after.effects_of(tx) == s.effects_of(tx)
            }
            &&& (forall|other: TransactionDigest| #[trigger]
                s.transactions_after(target).contains(other) ==> !s.outputs(other).contains(key))
                ==> {
                &&& after.objects.contains_key(key) == s.objects.contains_key(key)
                &&& after.objects.contains_key(key) ==> after.objects[key] == s.objects[key]
            }
        }),
{
    let s = tables@;
    let txs = s.transactions_after(target);
    let after = s.rolled_back(target);
    let outputs = |t: TransactionDigest| s.outputs(t);
    late_transactions_are_identified(tables, target);
    if !s.executed_after(tx, target) {
        assert(!txs.contains(tx));
        assert(!txs.to_set().contains(tx));
        if s.executed_effects.contains_key(tx) {
            lemma_executed_digests(s, txs, s.executed_effects[tx]);
        }
    }
    crate::seq_facts::flat_contains(txs, outputs, key);
    assert(s.outputs_of(txs).to_set().contains(key) <==> s.outputs_of(txs).contains(key));
}

/// An object version that no removed transaction put out reads the same after a rollback, unless
/// its contents are kept apart and a removed version shared them.
pub proof fn surviving_object_reads_the_same(
    tables: AuthorityPerpetualTables,
    target: EpochId,
    key: ObjectKey,
)
    requires
        tables.wf(),
        forall|tx: TransactionDigest| #[trigger]
            tables@.transactions_after(target).contains(tx) ==> !tables@.outputs(tx).contains(key),
        forall|tx: TransactionDigest, other: ObjectKey|
            #![trigger tables@.transactions_after(target).contains(tx), tables@.outputs(tx).contains(other)]
            tables@.transactions_after(target).contains(tx) && tables@.outputs(tx).contains(other)
                && tables@.indirect_digest(key).len() > 0 ==> tables@.indirect_digest(other)
                != tables@.indirect_digest(key),
    ensures
        tables@.rolled_back(target).read_version(key) == tables@.read_version(key),
{
    let s = tables@;
    let txs = s.transactions_after(target);
    let after = s.rolled_back(target);
    let outputs = |t: TransactionDigest| s.outputs(t);
    let kept_apart = |k: ObjectKey| s.indirect_digest(k);
    earlier_records_survive(tables, target, TransactionDigest(Bytes32 { hi: 0, lo: 0 }), key);
    if s.indirect_digest(key).len() > 0 {
        let digest = s.indirect_digest(key)[0];
        crate::seq_facts::flat_contains(s.outputs_of(txs), kept_apart, digest);
        if s.indirect_digests(s.outputs_of(txs)).contains(digest) {
            let other = choose|k: ObjectKey| #[trigger]
                s.outputs_of(txs).contains(k) && kept_apart(k).contains(digest);
            crate::seq_facts::flat_contains(txs, outputs, other);
            let tx = choose|t: TransactionDigest| #[trigger]
                txs.contains(t) && outputs(t).contains(other);
            assert(s.outputs(tx).contains(other));
            assert(s.indirect_digest(other) =~= s.indirect_digest(key));
        }
        assert(!s.indirect_digests(s.outputs_of(txs)).to_set().contains(digest));
    }
}

/// A rollback keeps every object under its own identity and version.
pub proof fn rollback_keeps_rows_fitting(state: TablesState, target: EpochId)
    requires
        state.rows_fit_keys(),
    ensures
        state.rolled_back(target).rows_fit_keys(),
{
    let after = state.rolled_back(target);
    assert forall|key: ObjectKey| #[trigger] after.objects.contains_key(key) implies after.row_fits_key(
        key,
        after.objects[key],
    ) by {
        assert(state.objects.contains_key(key));
        assert(state.row_fits_key(key, state.objects[key]));
    }
}

/// What is left after a rollback has nothing more to roll back: doing it again changes nothing, and
/// there is nothing to count.
pub proof fn rolling_back_again_changes_nothing(
    before: AuthorityPerpetualTables,
    after: AuthorityPerpetualTables,
    target: EpochId,
)
    requires
        before.wf(),
        after.wf(),
        after@ == before@.rolled_back(target),
    ensures
        after@.late_epochs(target).len() == 0,
        after@.late_markers(target).len() == 0,
        after@.late_effects(target).len() == 0,
        after@.transactions_after(target).len() == 0,
        after@.output_count(after@.transactions_after(target)) == 0,
        after@.rolled_back(target) == after@,
{
    rollback_leaves_nothing_executed_later(before, target);
    let late = after@.transactions_after(target);
    late_transactions_are_identified(after, target);
    lemma_late_lists(after, target);
    if late.len() > 0 {
        assert(late.contains(late[0]));
        assert(after@.executed_after(late[0], target));
    }
    let epochs = after@.late_epochs(target);
    if epochs.len() > 0 {
        assert(epochs.contains(epochs[0]));
    }
    let markers = after@.late_markers(target);
    if markers.len() > 0 {
        assert(markers.contains(markers[0]));
    }
    let effects = after@.late_effects(target);
    if effects.len() > 0 {
        assert(effects.contains(effects[0]));
    }
    lemma_nothing_goes(after, target);
}

/// Without anything to remove a rollback removes nothing.
proof fn lemma_nothing_goes(tables: AuthorityPerpetualTables, target: EpochId)
    requires
        tables.wf(),
        tables@.late_epochs(target).len() == 0,
        tables@.late_markers(target).len() == 0,
        tables@.transactions_after(target).len() == 0,
        tables@.late_effects(target).len() == 0,
    ensures
        tables@.rolled_back(target) == tables@,
        tables@.output_count(tables@.transactions_after(target)) == 0,
{
    let s = tables@;
    let after = s.rolled_back(target);
    let txs = s.transactions_after(target);
    lemma_late_lists(tables, target);
    assert(s.executed_digests(txs).len() == 0);
    assert(s.emitted_digests(txs).len() == 0);
    assert(s.outputs_of(txs).len() == 0);
    assert(s.indirect_digests(s.outputs_of(txs)).len() == 0);
    assert forall|epoch: EpochId| #[trigger]
        s.root_state_hash_by_epoch.contains_key(epoch) implies epoch <= target by {
        if epoch > target {
            assert(s.late_epochs(target).contains(epoch));
        }
    }
    assert forall|marker: (EpochId, ObjectKey)| #[trigger]
        s.object_per_epoch_marker_table.contains_key(marker) implies marker.0 <= target by {
        if marker.0 > target {
            assert(s.late_markers(target).contains(marker));
        }
    }
    assert forall|digest: TransactionEffectsDigest| #[trigger]
        s.effects.contains_key(digest) implies s.effects[digest].executed_epoch <= target by {
        if s.effects[digest].executed_epoch > target {
            assert(s.late_effects(target).contains(digest));
        }
    }
    assert(after.root_state_hash_by_epoch =~= s.root_state_hash_by_epoch);
    assert(after.object_per_epoch_marker_table =~= s.object_per_epoch_marker_table);
    assert(after.executed_transactions_to_checkpoint =~= s.executed_transactions_to_checkpoint);
    assert(after.transactions =~= s.transactions);
    assert(after.effects =~= s.effects);
    assert(after.executed_effects =~= s.executed_effects);
    assert(after.events =~= s.events);
    assert(after.objects =~= s.objects);
    assert(after.indirect_move_objects =~= s.indirect_move_objects);
    assert(after.owned_object_transaction_locks =~= s.owned_object_transaction_locks);
}

/// A rollback to an epoch that no record is later than is no change.
pub proof fn rollback_with_nothing_later_is_no_change(
    tables: AuthorityPerpetualTables,
    target: EpochId,
)
    requires
        tables.wf(),
        forall|epoch: EpochId| #[trigger]
            tables@.root_state_hash_by_epoch.contains_key(epoch) ==> epoch <= target,
        forall|marker: (EpochId, ObjectKey)| #[trigger]
            tables@.object_per_epoch_marker_table.contains_key(marker) ==> marker.0 <= target,
        forall|digest: TransactionEffectsDigest| #[trigger]
            tables@.effects.contains_key(digest) ==> tables@.effects[digest].executed_epoch
                <= target,
        forall|tx: TransactionDigest| #[trigger]
            tables@.executed_transactions_to_checkpoint.contains_key(tx)
                ==> tables@.executed_transactions_to_checkpoint[tx].0 <= target,
    ensures
        tables@.rolled_back(target) == tables@,
{
    let s = tables@;
    late_transactions_are_identified(tables, target);
    lemma_late_lists(tables, target);
    let late = s.transactions_after(target);
    if late.len() > 0 {
        assert(late.contains(late[0]));
        assert(s.executed_after(late[0], target));
    }
    let epochs = s.late_epochs(target);
    if epochs.len() > 0 {
        assert(epochs.contains(epochs[0]));
    }
    let markers = s.late_markers(target);
    if markers.len() > 0 {
        assert(markers.contains(markers[0]));
    }
    let effects = s.late_effects(target);
    if effects.len() > 0 {
        assert(effects.contains(effects[0]));
    }
    lemma_nothing_goes(tables, target);
}

/// A rollback adds nothing and changes nothing: every row that is there afterwards was there before.
pub proof fn rollback_only_removes(state: TablesState, target: EpochId)
    ensures
        state.rolled_back(target).objects.submap_of(state.objects),
        state.rolled_back(target).indirect_move_objects.submap_of(state.indirect_move_objects),
        state.rolled_back(target).owned_object_transaction_locks.submap_of(
            state.owned_object_transaction_locks,
        ),
        state.rolled_back(target).transactions.submap_of(state.transactions),
        state.rolled_back(target).effects.submap_of(state.effects),
        state.rolled_back(target).executed_effects.submap_of(state.executed_effects),
        state.rolled_back(target).events.submap_of(state.events),
        state.rolled_back(target).executed_transactions_to_checkpoint.submap_of(
            state.executed_transactions_to_checkpoint,
        ),
        state.rolled_back(target).root_state_hash_by_epoch.submap_of(
            state.root_state_hash_by_epoch,
        ),
        state.rolled_back(target).object_per_epoch_marker_table.submap_of(
            state.object_per_epoch_marker_table,
        ),
        state.rolled_back(target).epoch_start_configuration == state.epoch_start_configuration,
        state.rolled_back(target).pruned_checkpoint == state.pruned_checkpoint,
        state.rolled_back(target).expected_network_mgo_amount == state.expected_network_mgo_amount,
        state.rolled_back(target).expected_storage_fund_imbalance
            == state.expected_storage_fund_imbalance,
{
}

/// Emptying a map of the keys that pass a test removes as many rows as the test lets through.
proof fn lemma_count_removed<K: TableKey, V>(m: Map<K, V>, p: spec_fn(K) -> bool)
    requires
        m.dom().finite(),
        crate::ordered_table::lists_keys(m, crate::ordered_table::ordered_keys(m)),
    ensures
        m.dom().len() == m.remove_keys(Set::new(p)).dom().len() + crate::ordered_table::ordered_keys(
            m,
        ).filter(p).len(),
{
    let keys = crate::ordered_table::ordered_keys(m);
    let gone = keys.filter(p);
    crate::ordered_table::increasing_has_no_duplicates(keys);
    crate::seq_facts::filter_no_duplicates(keys, p);
    gone.unique_seq_to_set();
    assert forall|k: K| #[trigger] gone.to_set().contains(k) <==> m.contains_key(k) && p(k) by {
        crate::seq_facts::filter_contains(keys, p, k);
    }
    let rest = m.remove_keys(Set::new(p)).dom();
    assert(rest =~= m.dom().difference(gone.to_set()));
    assert(m.dom().intersect(gone.to_set()) =~= gone.to_set());
    vstd::set_lib::lemma_set_intersect_union_lens(rest, gone.to_set());
    assert(rest + gone.to_set() =~= m.dom());
    assert(rest.intersect(gone.to_set()) =~= Set::<K>::empty());
}

/// The statistics count the root states and the markers that a rollback removes.
pub proof fn statistics_count_what_goes(tables: AuthorityPerpetualTables, target: EpochId)
    requires
        tables.wf(),
    ensures
        ({
            let s = tables@;
            let after = s.rolled_back(target);
            &&& s.root_state_hash_by_epoch.dom().len() == after.root_state_hash_by_epoch.dom().len()
                + s.late_epochs(target).len()
            &&& s.object_per_epoch_marker_table.dom().len()
                == after.object_per_epoch_marker_table.dom().len() + s.late_markers(target).len()
        }),
{
    tables.root_state_hash_by_epoch.rows_are_contents();
    tables.object_per_epoch_marker_table.rows_are_contents();
    lemma_count_removed(tables@.root_state_hash_by_epoch, |epoch: EpochId| epoch > target);
    lemma_count_removed(
        tables@.object_per_epoch_marker_table,
        |marker: (EpochId, ObjectKey)| marker.0 > target,
    );
}

/// What two rollbacks in a row take out between them, and what the second still sees.
proof fn lemma_two_steps(
    tables: AuthorityPerpetualTables,
    between: AuthorityPerpetualTables,
    later: EpochId,
    target: EpochId,
)
    requires
        tables.wf(),
        between.wf(),
        target <= later,
        between@ == tables@.rolled_back(later),
        tables@.late_effects_are_unshared(target),
    ensures
        forall|tx: TransactionDigest| #[trigger]
            tables@.transactions_after(target).contains(tx) <==> tables@.transactions_after(
                later,
            ).contains(tx) || between@.transactions_after(target).contains(tx),
        forall|tx: TransactionDigest| #[trigger]
            between@.transactions_after(target).contains(tx) ==> {
                &&& between@.effects_of(tx) == tables@.effects_of(tx)
                &&& between@.executed_digest(tx) == tables@.executed_digest(tx)
            },
{
    let s = tables@;
    let m = between@;
    let first = s.transactions_after(later);
    assert(s.late_effects_are_unshared(later));
    late_transactions_are_identified(tables, later);
    assert forall|tx: TransactionDigest| #[trigger] m.executed_after(tx, target) implies
        s.executed_after(tx, target) by {}
    assert forall|a: TransactionDigest, b: TransactionDigest|
        #![trigger m.executed_effects[a], m.executed_effects[b]]
        m.executed_effects.contains_key(a) && m.executed_effects.contains_key(b)
            && m.executed_effects[a] == m.executed_effects[b] && m.executed_after(
            a,
            target,
        ) implies a == b by {
        assert(s.executed_effects[a] == s.executed_effects[b]);
    }
    assert(m.late_effects_are_unshared(target));
    // A transaction that the first step leaves is seen by the second as it was.
    assert forall|tx: TransactionDigest|
        #![trigger m.effects_of(tx)]
        s.executed_after(tx, target) && !first.contains(tx) implies {
        &&& m.effects_of(tx) == s.effects_of(tx)
        &&& m.executed_digest(tx) == s.executed_digest(tx)
        &&& m.executed_after(tx, target)
    } by {
        assert(!first.to_set().contains(tx));
        if s.executed_effects.contains_key(tx) {
            let digest = s.executed_effects[tx];
            lemma_executed_digests(s, first, digest);
            if s.executed_digests(first).contains(digest) {
                let other = choose|other: TransactionDigest| #[trigger]
                    first.contains(other) && s.executed_effects.contains_key(other)
                        && s.executed_effects[other] == digest;
                assert(s.executed_effects[tx] == s.executed_effects[other]);
                assert(tx == other);
            }
            assert(!s.executed_digests(first).to_set().contains(digest));
        }
    }
    assert forall|tx: TransactionDigest| #[trigger] s.transactions_after(target).contains(tx)
        <==> first.contains(tx) || m.transactions_after(target).contains(tx) by {
        just_the_late_transactions_are_identified(tables, target, tx);
        just_the_late_transactions_are_identified(tables, later, tx);
        just_the_late_transactions_are_identified(between, target, tx);
        assert(m.effects_of(tx) == m.effects_of(tx));
    }
    assert forall|tx: TransactionDigest| #[trigger]
        m.transactions_after(target).contains(tx) implies {
        &&& m.effects_of(tx) == s.effects_of(tx)
        &&& m.executed_digest(tx) == s.executed_digest(tx)
    } by {
        just_the_late_transactions_are_identified(between, target, tx);
        assert(m.executed_after(tx, target));
        if first.contains(tx) {
            assert(first.to_set().contains(tx));
        }
    }
}

/// What lists of transactions give between them, where they agree on what each gives.
proof fn lemma_flat_splits<B>(
    all: Seq<TransactionDigest>,
    first: Seq<TransactionDigest>,
    second: Seq<TransactionDigest>,
    f: spec_fn(TransactionDigest) -> Seq<B>,
    g: spec_fn(TransactionDigest) -> Seq<B>,
    y: B,
)
    requires
        forall|tx: TransactionDigest| #[trigger]
            all.contains(tx) <==> first.contains(tx) || second.contains(tx),
        forall|tx: TransactionDigest| #[trigger] second.contains(tx) ==> g(tx) == f(tx),
    ensures
        crate::seq_facts::flat(all, f).contains(y) <==> crate::seq_facts::flat(first, f).contains(y)
            || crate::seq_facts::flat(second, g).contains(y),
{
    crate::seq_facts::flat_contains(all, f, y);
    crate::seq_facts::flat_contains(first, f, y);
    crate::seq_facts::flat_contains(second, g, y);
    if crate::seq_facts::flat(all, f).contains(y) {
        let tx = choose|tx: TransactionDigest| #[trigger] all.contains(tx) && f(tx).contains(y);
        if first.contains(tx) {
            assert(first.contains(tx) && f(tx).contains(y));
        } else {
            assert(second.contains(tx) && g(tx).contains(y));
        }
    }
    if crate::seq_facts::flat(first, f).contains(y) {
        let tx = choose|tx: TransactionDigest| #[trigger] first.contains(tx) && f(tx).contains(y);
        assert(all.contains(tx) && f(tx).contains(y));
    }
    if crate::seq_facts::flat(second, g).contains(y) {
        let tx = choose|tx: TransactionDigest| #[trigger] second.contains(tx) && g(tx).contains(y);
        assert(all.contains(tx) && f(tx).contains(y));
    }
}

/// Where no two transactions share late effects, a rollback can be done in steps: rolling back to a
/// later epoch first makes no difference.
pub proof fn rollback_can_be_done_in_steps(
    tables: AuthorityPerpetualTables,
    between: AuthorityPerpetualTables,
    later: EpochId,
    target: EpochId,
)
    requires
        tables.wf(),
        between.wf(),
        target <= later,
        between@ == tables@.rolled_back(later),
        tables@.late_effects_are_unshared(target),
    ensures
        between@.rolled_back(target) == tables@.rolled_back(target),
{
    let s = tables@;
    let m = between@;
    let all = s.transactions_after(target);
    let first = s.transactions_after(later);
    let second = m.transactions_after(target);
    let once = s.rolled_back(target);
    let twice = m.rolled_back(target);
    lemma_two_steps(tables, between, later, target);
    assert forall|tx: TransactionDigest| #[trigger]
        all.to_set().contains(tx) <==> first.to_set().contains(tx) || second.to_set().contains(
            tx,
        ) by {
        assert(all.contains(tx) <==> first.contains(tx) || second.contains(tx));
    }
    assert(twice.root_state_hash_by_epoch =~= once.root_state_hash_by_epoch);
    assert(twice.object_per_epoch_marker_table =~= once.object_per_epoch_marker_table);
    assert(twice.executed_transactions_to_checkpoint
        =~= once.executed_transactions_to_checkpoint);
    assert(twice.transactions =~= once.transactions);
    assert(twice.executed_effects =~= once.executed_effects);
    assert forall|digest: TransactionEffectsDigest| #[trigger]
        s.executed_digests(all).contains(digest) <==> s.executed_digests(first).contains(digest)
            || m.executed_digests(second).contains(digest) by {
        lemma_flat_splits(
            all,
            first,
            second,
            |tx: TransactionDigest| s.executed_digest(tx),
            |tx: TransactionDigest| m.executed_digest(tx),
            digest,
        );
    }
    assert(twice.effects =~= once.effects);
    assert forall|digest: TransactionEventsDigest| #[trigger]
        s.emitted_digests(all).contains(digest) <==> s.emitted_digests(first).contains(digest)
            || m.emitted_digests(second).contains(digest) by {
        lemma_flat_splits(
            all,
            first,
            second,
            |tx: TransactionDigest| s.emitted_digest(tx),
            |tx: TransactionDigest| m.emitted_digest(tx),
            digest,
        );
    }
    assert(twice.events =~= once.events);
    assert forall|key: ObjectKey| #[trigger]
        s.outputs_of(all).contains(key) <==> s.outputs_of(first).contains(key) || m.outputs_of(
            second,
        ).contains(key) by {
        lemma_flat_splits(
            all,
            first,
            second,
            |tx: TransactionDigest| s.outputs(tx),
            |tx: TransactionDigest| m.outputs(tx),
            key,
        );
    }
    assert forall|key: ObjectKey| #[trigger]
        s.outputs_of(all).to_set().contains(key) <==> s.outputs_of(first).to_set().contains(key)
            || m.outputs_of(second).to_set().contains(key) by {
        assert(s.outputs_of(all).contains(key) <==> s.outputs_of(first).contains(key)
            || m.outputs_of(second).contains(key));
    }
    assert(twice.objects =~= once.objects);
    assert(twice.owned_object_transaction_locks =~= once.owned_object_transaction_locks);
    lemma_contents_in_steps(
        s,
        m,
        s.outputs_of(all),
        s.outputs_of(first),
        m.outputs_of(second),
    );
    assert(twice.indirect_move_objects =~= once.indirect_move_objects);
    assert(twice =~= once);
}

/// Contents that are kept apart go with the object versions that point to them, in one step or two.
proof fn lemma_contents_in_steps(
    s: TablesState,
    m: TablesState,
    all: Seq<ObjectKey>,
    first: Seq<ObjectKey>,
    second: Seq<ObjectKey>,
)
    requires
        m.objects == s.objects.remove_keys(first.to_set()),
        forall|key: ObjectKey| #[trigger]
            all.contains(key) <==> first.contains(key) || second.contains(key),
    ensures
        forall|digest: ObjectContentDigest| #[trigger]
            s.indirect_digests(all).to_set().contains(digest) <==> s.indirect_digests(
                first,
            ).to_set().contains(digest) || m.indirect_digests(second).to_set().contains(digest),
{
    let f = |key: ObjectKey| s.indirect_digest(key);
    let g = |key: ObjectKey| m.indirect_digest(key);
    assert forall|digest: ObjectContentDigest| #[trigger]
        s.indirect_digests(all).to_set().contains(digest) <==> s.indirect_digests(
            first,
        ).to_set().contains(digest) || m.indirect_digests(second).to_set().contains(digest) by {
        crate::seq_facts::flat_contains(all, f, digest);
        crate::seq_facts::flat_contains(first, f, digest);
        crate::seq_facts::flat_contains(second, g, digest);
        if s.indirect_digests(all).contains(digest) {
            let key = choose|key: ObjectKey| #[trigger] all.contains(key) && f(key).contains(digest);
            if first.contains(key) {
                assert(first.contains(key) && f(key).contains(digest));
            } else {
                assert(!first.to_set().contains(key));
                assert(second.contains(key) && g(key).contains(digest));
            }
        }
        if s.indirect_digests(first).contains(digest) {
            let key = choose|key: ObjectKey| #[trigger]
                first.contains(key) && f(key).contains(digest);
            assert(all.contains(key) && f(key).contains(digest));
        }
        if m.indirect_digests(second).contains(digest) {
            let key = choose|key: ObjectKey| #[trigger]
                second.contains(key) && g(key).contains(digest);
            assert(all.contains(key) && f(key).contains(digest));
        }
    }
}

} // verus!
