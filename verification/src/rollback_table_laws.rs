//! What a rollback does to each table, told from the rows of the tables and from the lists of the
//! effects.

use crate::base_types::{
    EpochId, ObjectContentDigest, ObjectKey, ObjectRef, Owner, TransactionDigest,
    TransactionEffectsDigest, TransactionEventsDigest,
};
use crate::batch::BatchOp;
use crate::ordered_table::TableKey;
use crate::rollback::RollbackStatistics;
use crate::rows::TransactionEffects;
use crate::state::TablesState;
use crate::store_types::{StoreData, StoreObject, StoreObjectWrapper};
use crate::tables::AuthorityPerpetualTables;
use vstd::prelude::*;

verus! {

/// A transaction has a checkpoint in an epoch after `target`.
pub open spec fn has_late_checkpoint(
    state: TablesState,
    tx: TransactionDigest,
    target: EpochId,
) -> bool {
    &&& state.executed_transactions_to_checkpoint.dom().contains(tx)
    &&& state.executed_transactions_to_checkpoint[tx].0 > target
}

/// These are the effects with which a transaction was executed.
pub open spec fn executed_with(
    state: TablesState,
    tx: TransactionDigest,
    effects: TransactionEffects,
) -> bool {
    &&& state.executed_effects.dom().contains(tx)
    &&& state.effects.dom().contains(state.executed_effects[tx])
    &&& state.effects[state.executed_effects[tx]] == effects
}

/// A transaction was executed with effects of an epoch after `target`, and of those that were executed
/// with the same effects and have no late checkpoint it is the one with the smallest digest.
pub open spec fn is_first_with_late_effects(
    state: TablesState,
    tx: TransactionDigest,
    target: EpochId,
) -> bool {
    &&& state.executed_effects.dom().contains(tx)
    &&& state.effects.dom().contains(state.executed_effects[tx])
    &&& state.effects[state.executed_effects[tx]].executed_epoch > target
    &&& forall|other: TransactionDigest|
        #![trigger state.executed_effects.dom().contains(other)]
        state.executed_effects.dom().contains(other) && state.executed_effects[other]
            == state.executed_effects[tx] && !has_late_checkpoint(state, other, target) ==> other
            == tx || crate::live_laws::bytes_come_before(tx.0, other.0)
}

/// A rollback to `target` removes a transaction.
pub open spec fn goes(state: TablesState, tx: TransactionDigest, target: EpochId) -> bool {
    ||| has_late_checkpoint(state, tx, target)
    ||| is_first_with_late_effects(state, tx, target)
}

/// Some entry of a list of references names an object version, whoever owns it.
pub open spec fn names_version(entries: Seq<(ObjectRef, Owner)>, key: ObjectKey) -> bool {
    exists|i: int|
        0 <= i < entries.len() && (#[trigger] entries[i]).0.0 == key.0 && entries[i].0.1 == key.1
}

/// The effects of a transaction list an object version as created, mutated or unwrapped.
pub open spec fn puts_out(state: TablesState, tx: TransactionDigest, key: ObjectKey) -> bool {
    &&& state.executed_effects.dom().contains(tx)
    &&& state.effects.dom().contains(state.executed_effects[tx])
    &&& {
        let effects = state.effects[state.executed_effects[tx]];
        ||| names_version(effects.created@, key)
        ||| names_version(effects.mutated@, key)
        ||| names_version(effects.unwrapped@, key)
    }
}

/// The effects of a transaction name a group of events.
pub open spec fn emits(
    state: TablesState,
    tx: TransactionDigest,
    digest: TransactionEventsDigest,
) -> bool {
    &&& state.executed_effects.dom().contains(tx)
    &&& state.effects.dom().contains(state.executed_effects[tx])
    &&& state.effects[state.executed_effects[tx]].events_digest == Some(digest)
}

/// The row of an object version points to contents that are kept apart.
pub open spec fn points_to(state: TablesState, key: ObjectKey, digest: ObjectContentDigest) -> bool {
    &&& state.objects.dom().contains(key)
    &&& state.objects[key] matches StoreObjectWrapper::V1(StoreObject::Value(value))
        && value.data matches StoreData::IndirectObject(metadata) && metadata.digest == digest
}

/// How many entries the effects of these transactions list as created, mutated or unwrapped.
pub open spec fn entries_listed(state: TablesState, txs: Seq<TransactionDigest>) -> int
    decreases txs.len(),
{
    if txs.len() == 0 {
        0
    } else {
        let tx = txs.last();
        let effects = state.effects[state.executed_effects[tx]];
        entries_listed(state, txs.drop_last()) + if state.executed_effects.dom().contains(tx)
            && state.effects.dom().contains(state.executed_effects[tx]) {
            effects.created@.len() + effects.mutated@.len() + effects.unwrapped@.len()
        } else {
            0
        }
    }
}

/// Digests of transactions are ordered byte by byte.
proof fn lemma_transaction_order(a: TransactionDigest, b: TransactionDigest)
    ensures
        a.rank() < b.rank() <==> crate::live_laws::bytes_come_before(a.0, b.0),
        a.rank() == b.rank() ==> a == b,
{
    TransactionDigest::rank_is_injective(a, b);
}

/// Adding an executor for each of several effects adds, for each of them in turn, the unlisted
/// executor with the smallest digest.
proof fn lemma_executors_added(
    tables: AuthorityPerpetualTables,
    listed: Seq<TransactionDigest>,
    digests: Seq<TransactionEffectsDigest>,
)
    requires
        tables.wf(),
        crate::ordered_table::increasing(digests),
    ensures
        ({
            let s = tables@;
            let r = s.with_executors(listed, digests);
            &&& forall|tx: TransactionDigest| #[trigger]
                r.contains(tx) <==> listed.contains(tx) || {
                    &&& s.executed_effects.contains_key(tx)
                    &&& digests.contains(s.executed_effects[tx])
                    &&& forall|other: TransactionDigest|
                        #![trigger s.executed_effects.contains_key(other)]
                        s.executed_effects.contains_key(other) && s.executed_effects[other]
                            == s.executed_effects[tx] && !listed.contains(other) ==> tx.rank()
                            <= other.rank()
                    &&& !listed.contains(tx)
                }
            &&& r.len() >= listed.len()
            &&& r.take(listed.len() as int) == listed
            &&& forall|i: int|
                listed.len() <= i < r.len() ==> {
                    &&& s.executed_effects.contains_key(#[trigger] r[i])
                    &&& digests.contains(s.executed_effects[r[i]])
                }
            &&& forall|i: int, j: int|
                listed.len() <= i < j < r.len() ==> s.executed_effects[#[trigger] r[i]].rank()
                    < s.executed_effects[#[trigger] r[j]].rank()
        }),
    decreases digests.len(),
{
    let s = tables@;
    let r = s.with_executors(listed, digests);
    if digests.len() == 0 {
        assert(r.take(listed.len() as int) =~= listed);
    } else {
        let rest = digests.drop_last();
        let last = digests.last();
        let n = digests.len() - 1;
        let before = s.with_executors(listed, rest);
        let keys = crate::ordered_table::ordered_keys(s.executed_effects);
        let p = s.unlisted_with(before, last);
        let executors = s.unlisted_executors(before, last);
        assert(crate::ordered_table::increasing(rest)) by {
            assert forall|i: int, j: int| 0 <= i < j < rest.len() implies (
            #[trigger] rest[i]).rank() < (#[trigger] rest[j]).rank() by {
                assert(digests[i].rank() < digests[j].rank());
            }
        }
        lemma_executors_added(tables, listed, rest);
        tables.executed_effects.rows_are_contents();
        crate::ordered_table::filter_keeps_increasing(keys, p);
        assert(digests =~= rest.push(last));
        assert(!rest.contains(last)) by {
            if rest.contains(last) {
                let i = choose|i: int| 0 <= i < rest.len() && rest[i] == last;
                assert(digests[i].rank() < digests[n].rank());
            }
        }
        assert forall|tx: TransactionDigest| #[trigger] executors.contains(tx)
            <==> s.executed_effects.contains_key(tx) && s.executed_effects[tx] == last
            && !listed.contains(tx) by {
            crate::seq_facts::filter_contains(keys, p, tx);
            assert(before.contains(tx) <==> listed.contains(tx) || before.contains(tx));
        }
        if executors.len() > 0 {
            let first = executors[0];
            assert(executors.contains(first));
            assert(r == before.push(first));
            assert forall|tx: TransactionDigest| #[trigger] executors.contains(tx) implies first.rank()
                <= tx.rank() by {
                let i = choose|i: int| 0 <= i < executors.len() && executors[i] == tx;
                if i > 0 {
                    assert(executors[0].rank() < executors[i].rank());
                }
            }
            assert forall|tx: TransactionDigest| #[trigger] r.contains(tx) <==> listed.contains(tx)
                || {
                &&& s.executed_effects.contains_key(tx)
                &&& digests.contains(s.executed_effects[tx])
                &&& forall|other: TransactionDigest|
                    #![trigger s.executed_effects.contains_key(other)]
                    s.executed_effects.contains_key(other) && s.executed_effects[other]
                        == s.executed_effects[tx] && !listed.contains(other) ==> tx.rank()
                        <= other.rank()
                &&& !listed.contains(tx)
            } by {
                crate::seq_facts::push_contains(before, first, tx);
                crate::seq_facts::push_contains(rest, last, s.executed_effects[tx]);
                if tx == first {
                    assert forall|other: TransactionDigest|
                        #![trigger s.executed_effects.contains_key(other)]
                        s.executed_effects.contains_key(other) && s.executed_effects[other]
                            == s.executed_effects[tx] && !listed.contains(other) implies tx.rank()
                        <= other.rank() by {
                        assert(executors.contains(other));
                    }
                }
                if s.executed_effects.contains_key(tx) && s.executed_effects[tx] == last
                    && !listed.contains(tx) {
                    assert(executors.contains(tx));
                    assert(s.executed_effects.contains_key(first));
                    lemma_transaction_order(tx, first);
                }
            }
            assert(r.take(listed.len() as int) =~= before.take(listed.len() as int));
            assert forall|i: int| listed.len() <= i < r.len() implies {
                &&& s.executed_effects.contains_key(#[trigger] r[i])
                &&& digests.contains(s.executed_effects[r[i]])
            } by {
                if i < before.len() {
                    assert(r[i] == before[i]);
                    crate::seq_facts::push_contains(rest, last, s.executed_effects[r[i]]);
                } else {
                    crate::seq_facts::push_contains(rest, last, last);
                }
            }
            assert forall|i: int, j: int| listed.len() <= i < j < r.len() implies
                s.executed_effects[#[trigger] r[i]].rank() < s.executed_effects[
            #[trigger] r[j]].rank() by {
                assert(r[i] == before[i]);
                if j < before.len() {
                    assert(r[j] == before[j]);
                } else {
                    assert(rest.contains(s.executed_effects[before[i]]));
                    let k = choose|k: int|
                        0 <= k < rest.len() && rest[k] == s.executed_effects[before[i]];
                    assert(digests[k].rank() < digests[n].rank());
                }
            }
        } else {
            assert(r == before);
            assert forall|tx: TransactionDigest| #[trigger] r.contains(tx) <==> listed.contains(tx)
                || {
                &&& s.executed_effects.contains_key(tx)
                &&& digests.contains(s.executed_effects[tx])
                &&& forall|other: TransactionDigest|
                    #![trigger s.executed_effects.contains_key(other)]
                    s.executed_effects.contains_key(other) && s.executed_effects[other]
                        == s.executed_effects[tx] && !listed.contains(other) ==> tx.rank()
                        <= other.rank()
                &&& !listed.contains(tx)
            } by {
                crate::seq_facts::push_contains(rest, last, s.executed_effects[tx]);
                if s.executed_effects.contains_key(tx) && s.executed_effects[tx] == last
                    && !listed.contains(tx) {
                    assert(executors.contains(tx));
                }
            }
            assert forall|i: int| listed.len() <= i < r.len() implies {
                &&& s.executed_effects.contains_key(#[trigger] r[i])
                &&& digests.contains(s.executed_effects[r[i]])
            } by {
                crate::seq_facts::push_contains(rest, last, s.executed_effects[r[i]]);
            }
        }
    }
}

/// A rollback removes just the transactions with a checkpoint in a later epoch and, for all effects of
/// a later epoch, the one with the smallest digest of the others that were executed with them; each
/// once.
pub proof fn rollback_removes_just_what_goes(tables: AuthorityPerpetualTables, target: EpochId)
    requires
        tables.wf(),
    ensures
        forall|tx: TransactionDigest| #[trigger]
            tables@.transactions_after(target).contains(tx) <==> goes(tables@, tx, target),
        forall|i: int, j: int|
            0 <= i < j < tables@.transactions_after(target).len() ==> (
            #[trigger] tables@.transactions_after(target)[i]) != (
            #[trigger] tables@.transactions_after(target)[j]),
{
    let s = tables@;
    let listed = s.late_checkpointed(target);
    let late = s.late_effects(target);
    let txs = s.transactions_after(target);
    lemma_late_lists_by_row(tables, target);
    lemma_executors_added(tables, listed, late);
    crate::rollback_laws::late_transactions_are_identified(tables, target);
    assert forall|tx: TransactionDigest| #[trigger] txs.contains(tx) <==> goes(s, tx, target) by {
        if txs.contains(tx) && !listed.contains(tx) {
            assert forall|other: TransactionDigest|
                #![trigger s.executed_effects.dom().contains(other)]
                s.executed_effects.dom().contains(other) && s.executed_effects[other]
                    == s.executed_effects[tx] && !has_late_checkpoint(s, other, target) implies other
                == tx || crate::live_laws::bytes_come_before(tx.0, other.0) by {
                assert(s.executed_effects.contains_key(other));
                assert(!listed.contains(other));
                lemma_transaction_order(tx, other);
            }
        }
        if is_first_with_late_effects(s, tx, target) && !listed.contains(tx) {
            assert forall|other: TransactionDigest|
                #![trigger s.executed_effects.contains_key(other)]
                s.executed_effects.contains_key(other) && s.executed_effects[other]
                    == s.executed_effects[tx] && !listed.contains(other) implies tx.rank()
                <= other.rank() by {
                assert(s.executed_effects.dom().contains(other));
                lemma_transaction_order(tx, other);
            }
        }
    }
    assert forall|i: int, j: int| 0 <= i < j < txs.len() implies (#[trigger] txs[i]) != (
    #[trigger] txs[j]) by {}
}

/// What the lists of a rollback contain, and in which order.
proof fn lemma_late_lists_by_row(tables: AuthorityPerpetualTables, target: EpochId)
    requires
        tables.wf(),
    ensures
        forall|tx: TransactionDigest| #[trigger]
            tables@.late_checkpointed(target).contains(tx) <==> has_late_checkpoint(
                tables@,
                tx,
                target,
            ),
        forall|digest: TransactionEffectsDigest| #[trigger]
            tables@.late_effects(target).contains(digest) <==> tables@.effects.dom().contains(
                digest,
            ) && tables@.effects[digest].executed_epoch > target,
        crate::ordered_table::increasing(tables@.late_checkpointed(target)),
        crate::ordered_table::increasing(tables@.late_effects(target)),
{
    let s = tables@;
    tables.executed_transactions_to_checkpoint.rows_are_contents();
    tables.effects.rows_are_contents();
    let checkpointed = crate::ordered_table::ordered_keys(s.executed_transactions_to_checkpoint);
    let effects = crate::ordered_table::ordered_keys(s.effects);
    let late_tx = |tx: TransactionDigest| s.executed_transactions_to_checkpoint[tx].0 > target;
    let late_digest = |digest: TransactionEffectsDigest| s.effects[digest].executed_epoch > target;
    crate::ordered_table::filter_keeps_increasing(checkpointed, late_tx);
    crate::ordered_table::filter_keeps_increasing(effects, late_digest);
    assert forall|tx: TransactionDigest| #[trigger] s.late_checkpointed(target).contains(tx)
        <==> has_late_checkpoint(s, tx, target) by {
        crate::seq_facts::filter_contains(checkpointed, late_tx, tx);
    }
    assert forall|digest: TransactionEffectsDigest| #[trigger]
        s.late_effects(target).contains(digest) <==> s.effects.dom().contains(digest)
            && s.effects[digest].executed_epoch > target by {
        crate::seq_facts::filter_contains(effects, late_digest, digest);
    }
}

/// The transactions that go come in two groups: first those with a late checkpoint, in the order of
/// their digests, then the others, in the order of the digests of their effects.
pub proof fn transactions_go_in_order(tables: AuthorityPerpetualTables, target: EpochId) -> (n: int)
    requires
        tables.wf(),
    ensures
        0 <= n <= tables@.transactions_after(target).len(),
        forall|i: int|
            0 <= i < tables@.transactions_after(target).len() ==> (has_late_checkpoint(
                tables@,
                #[trigger] tables@.transactions_after(target)[i],
                target,
            ) <==> i < n),
        forall|i: int, j: int|
            0 <= i < j < n ==> crate::live_laws::bytes_come_before(
                (#[trigger] tables@.transactions_after(target)[i]).0,
                (#[trigger] tables@.transactions_after(target)[j]).0,
            ),
        forall|i: int, j: int|
            n <= i < j < tables@.transactions_after(target).len()
                ==> crate::live_laws::bytes_come_before(
                tables@.executed_effects[#[trigger] tables@.transactions_after(target)[i]].0,
                tables@.executed_effects[#[trigger] tables@.transactions_after(target)[j]].0,
            ),
{
    let s = tables@;
    let listed = s.late_checkpointed(target);
    let txs = s.transactions_after(target);
    let n = listed.len() as int;
    lemma_late_lists_by_row(tables, target);
    lemma_executors_added(tables, listed, s.late_effects(target));
    crate::rollback_laws::late_transactions_are_identified(tables, target);
    assert(txs.take(n) == listed);
    assert forall|i: int| 0 <= i < txs.len() implies (has_late_checkpoint(
        s,
        #[trigger] txs[i],
        target,
    ) <==> i < n) by {
        if i < n {
            assert(txs.take(n)[i] == txs[i]);
            assert(listed.contains(listed[i]));
        } else if listed.contains(txs[i]) {
            let j = choose|j: int| 0 <= j < listed.len() && listed[j] == txs[i];
            assert(txs.take(n)[j] == txs[j]);
        }
    }
    assert forall|i: int, j: int| 0 <= i < j < n implies crate::live_laws::bytes_come_before(
        (#[trigger] txs[i]).0,
        (#[trigger] txs[j]).0,
    ) by {
        assert(txs.take(n)[i] == txs[i] && txs.take(n)[j] == txs[j]);
        assert(listed[i].rank() < listed[j].rank());
        lemma_transaction_order(txs[i], txs[j]);
    }
    n
}

/// What a list of references names.
proof fn lemma_versions_named(entries: Seq<(ObjectRef, Owner)>, key: ObjectKey)
    ensures
        crate::rollback::versions_named(entries).contains(key) <==> names_version(entries, key),
{
    let named = crate::rollback::versions_named(entries);
    if named.contains(key) {
        let i = choose|i: int| 0 <= i < named.len() && named[i] == key;
        assert(entries[i].0.0 == key.0 && entries[i].0.1 == key.1);
    }
    if names_version(entries, key) {
        let i = choose|i: int|
            0 <= i < entries.len() && (#[trigger] entries[i]).0.0 == key.0 && entries[i].0.1
                == key.1;
        assert(named[i] == key);
    }
}

/// What transactions put out between them.
proof fn lemma_outputs_of(state: TablesState, txs: Seq<TransactionDigest>, key: ObjectKey)
    ensures
        state.outputs_of(txs).contains(key) <==> exists|tx: TransactionDigest| #[trigger]
            txs.contains(tx) && puts_out(state, tx, key),
{
    let f = |tx: TransactionDigest| state.outputs(tx);
    crate::seq_facts::flat_contains(txs, f, key);
    assert forall|tx: TransactionDigest| #[trigger] f(tx).contains(key) <==> puts_out(
        state,
        tx,
        key,
    ) by {
        if let Some(effects) = state.effects_of(tx) {
            let a = crate::rollback::versions_named(effects.created@);
            let b = crate::rollback::versions_named(effects.mutated@);
            let c = crate::rollback::versions_named(effects.unwrapped@);
            lemma_versions_named(effects.created@, key);
            lemma_versions_named(effects.mutated@, key);
            lemma_versions_named(effects.unwrapped@, key);
            crate::seq_facts::concat_contains(a, b, key);
            crate::seq_facts::concat_contains(a + b, c, key);
        }
    }
    if exists|tx: TransactionDigest| #[trigger] txs.contains(tx) && f(tx).contains(key) {
        let tx = choose|tx: TransactionDigest| #[trigger] txs.contains(tx) && f(tx).contains(key);
        assert(txs.contains(tx) && puts_out(state, tx, key));
    }
    if exists|tx: TransactionDigest| #[trigger] txs.contains(tx) && puts_out(state, tx, key) {
        let tx = choose|tx: TransactionDigest| #[trigger]
            txs.contains(tx) && puts_out(state, tx, key);
        assert(txs.contains(tx) && f(tx).contains(key));
    }
}

/// After a rollback the objects table has none of the versions that the effects of a removed
/// transaction list as created, mutated or unwrapped, whoever owns them.
pub proof fn listed_versions_are_gone(
    tables: AuthorityPerpetualTables,
    target: EpochId,
    tx: TransactionDigest,
    effects: TransactionEffects,
)
    requires
        tables.wf(),
        goes(tables@, tx, target) || tables@.transactions_after(target).contains(tx),
        executed_with(tables@, tx, effects),
    ensures
        ({
            let after = tables@.rolled_back(target);
            &&& forall|i: int|
                0 <= i < effects.created@.len() ==> !after.objects.contains_key(
                    ObjectKey((#[trigger] effects.created@[i]).0.0, effects.created@[i].0.1),
                )
            &&& forall|i: int|
                0 <= i < effects.mutated@.len() ==> !after.objects.contains_key(
                    ObjectKey((#[trigger] effects.mutated@[i]).0.0, effects.mutated@[i].0.1),
                )
            &&& forall|i: int|
                0 <= i < effects.unwrapped@.len() ==> !after.objects.contains_key(
                    ObjectKey((#[trigger] effects.unwrapped@[i]).0.0, effects.unwrapped@[i].0.1),
                )
        }),
{
    rollback_removes_just_what_goes(tables, target);
    assert(tables@.transactions_after(target).contains(tx));
    assert forall|i: int| 0 <= i < effects.created@.len() implies
        !tables@.rolled_back(target).objects.contains_key(
        ObjectKey((#[trigger] effects.created@[i]).0.0, effects.created@[i].0.1),
    ) by {
        let key = ObjectKey(effects.created@[i].0.0, effects.created@[i].0.1);
        assert(names_version(effects.created@, key));
        assert(goes(tables@, tx, target) && puts_out(tables@, tx, key));
        objects_after_rollback(tables, target, key);
    }
    assert forall|i: int| 0 <= i < effects.mutated@.len() implies
        !tables@.rolled_back(target).objects.contains_key(
        ObjectKey((#[trigger] effects.mutated@[i]).0.0, effects.mutated@[i].0.1),
    ) by {
        let key = ObjectKey(effects.mutated@[i].0.0, effects.mutated@[i].0.1);
        assert(names_version(effects.mutated@, key));
        assert(goes(tables@, tx, target) && puts_out(tables@, tx, key));
        objects_after_rollback(tables, target, key);
    }
    assert forall|i: int| 0 <= i < effects.unwrapped@.len() implies
        !tables@.rolled_back(target).objects.contains_key(
        ObjectKey((#[trigger] effects.unwrapped@[i]).0.0, effects.unwrapped@[i].0.1),
    ) by {
        let key = ObjectKey(effects.unwrapped@[i].0.0, effects.unwrapped@[i].0.1);
        assert(names_version(effects.unwrapped@, key));
        assert(goes(tables@, tx, target) && puts_out(tables@, tx, key));
        objects_after_rollback(tables, target, key);
    }
}

/// An object version is there after a rollback just if it was there before and no transaction that
/// goes put it out; its row is what it was.
pub proof fn objects_after_rollback(
    tables: AuthorityPerpetualTables,
    target: EpochId,
    key: ObjectKey,
)
    requires
        tables.wf(),
    ensures
        ({
            let before = tables@.objects;
            let after = tables@.rolled_back(target).objects;
            &&& after.contains_key(key) <==> before.contains_key(key) && !(exists|
                tx: TransactionDigest,
            |
                #![trigger goes(tables@, tx, target)]
                goes(tables@, tx, target) && puts_out(tables@, tx, key))
            &&& after.contains_key(key) ==> after[key] == before[key]
        }),
{
    let s = tables@;
    let txs = s.transactions_after(target);
    rollback_removes_just_what_goes(tables, target);
    lemma_outputs_of(s, txs, key);
    lemma_put_out_by_some(tables, target, key);
    assert(s.outputs_of(txs).to_set().contains(key) <==> s.outputs_of(txs).contains(key));
}

/// Some listed transaction put a version out just if some transaction that goes did.
proof fn lemma_put_out_by_some(tables: AuthorityPerpetualTables, target: EpochId, key: ObjectKey)
    requires
        tables.wf(),
    ensures
        tables@.outputs_of(tables@.transactions_after(target)).contains(key) <==> exists|
            tx: TransactionDigest,
        |
            #![trigger goes(tables@, tx, target)]
            goes(tables@, tx, target) && puts_out(tables@, tx, key),
{
    let s = tables@;
    let txs = s.transactions_after(target);
    rollback_removes_just_what_goes(tables, target);
    lemma_outputs_of(s, txs, key);
    if s.outputs_of(txs).contains(key) {
        let tx = choose|tx: TransactionDigest| #[trigger] txs.contains(tx) && puts_out(s, tx, key);
        assert(goes(s, tx, target) && puts_out(s, tx, key));
    }
    if exists|tx: TransactionDigest|
        #![trigger goes(s, tx, target)]
        goes(s, tx, target) && puts_out(s, tx, key) {
        let tx = choose|tx: TransactionDigest|
            #![trigger goes(s, tx, target)]
            goes(s, tx, target) && puts_out(s, tx, key);
        assert(txs.contains(tx) && puts_out(s, tx, key));
    }
}

/// Contents that are kept apart are there after a rollback just if they were there before and no
/// version that goes points to them.
pub proof fn contents_after_rollback(
    tables: AuthorityPerpetualTables,
    target: EpochId,
    digest: ObjectContentDigest,
)
    requires
        tables.wf(),
    ensures
        ({
            let before = tables@.indirect_move_objects;
            let after = tables@.rolled_back(target).indirect_move_objects;
            &&& after.contains_key(digest) <==> before.contains_key(digest) && !(exists|
                tx: TransactionDigest,
                key: ObjectKey,
            |
                #![trigger goes(tables@, tx, target), points_to(tables@, key, digest)]
                goes(tables@, tx, target) && puts_out(tables@, tx, key) && points_to(
                    tables@,
                    key,
                    digest,
                ))
            &&& after.contains_key(digest) ==> after[digest] == before[digest]
        }),
{
    let s = tables@;
    let txs = s.transactions_after(target);
    let keys = s.outputs_of(txs);
    let f = |key: ObjectKey| s.indirect_digest(key);
    crate::seq_facts::flat_contains(keys, f, digest);
    assert forall|key: ObjectKey| #[trigger] f(key).contains(digest) <==> points_to(s, key, digest) by {
        if s.objects.contains_key(key) {
            let row = s.objects[key];
            assert(row == StoreObjectWrapper::V1(row.spec_inner()));
        }
        if points_to(s, key, digest) {
            assert(f(key)[0] == digest);
        }
    }
    if s.indirect_digests(keys).contains(digest) {
        let key = choose|key: ObjectKey| #[trigger] keys.contains(key) && f(key).contains(digest);
        lemma_put_out_by_some(tables, target, key);
        let tx = choose|tx: TransactionDigest|
            #![trigger goes(s, tx, target)]
            goes(s, tx, target) && puts_out(s, tx, key);
        assert(goes(s, tx, target) && puts_out(s, tx, key) && points_to(s, key, digest));
    }
    if exists|tx: TransactionDigest, key: ObjectKey|
        #![trigger goes(s, tx, target), points_to(s, key, digest)]
        goes(s, tx, target) && puts_out(s, tx, key) && points_to(s, key, digest) {
        let (tx, key) = choose|tx: TransactionDigest, key: ObjectKey|
            #![trigger goes(s, tx, target), points_to(s, key, digest)]
            goes(s, tx, target) && puts_out(s, tx, key) && points_to(s, key, digest);
        lemma_put_out_by_some(tables, target, key);
        assert(keys.contains(key) && f(key).contains(digest));
    }
    assert(s.indirect_digests(keys).to_set().contains(digest) <==> s.indirect_digests(
        keys,
    ).contains(digest));
}

/// A lock is there after a rollback just if it was there before and is not one of a version that a
/// transaction that goes put out; one under the digest of all ones stays.
pub proof fn locks_after_rollback(
    tables: AuthorityPerpetualTables,
    target: EpochId,
    lock: ObjectRef,
)
    requires
        tables.wf(),
    ensures
        ({
            let before = tables@.owned_object_transaction_locks;
            let after = tables@.rolled_back(target).owned_object_transaction_locks;
            &&& after.contains_key(lock) <==> before.contains_key(lock) && !(
            crate::lock_table_laws::below_all_ones(lock.2) && exists|tx: TransactionDigest|
                #![trigger goes(tables@, tx, target)]
                goes(tables@, tx, target) && puts_out(tables@, tx, ObjectKey(lock.0, lock.1)))
            &&& after.contains_key(lock) ==> after[lock] == before[lock]
        }),
{
    lemma_put_out_by_some(tables, target, ObjectKey(lock.0, lock.1));
    if !crate::lock_table_laws::below_all_ones(lock.2) {
        assert(lock.2.0 == crate::base_types::digest_max().0);
        assert(lock.2 == crate::base_types::digest_max());
    }
}

/// An event is there after a rollback just if it was there before and no transaction that goes
/// emitted its group; one at the largest index stays.
pub proof fn events_after_rollback(
    tables: AuthorityPerpetualTables,
    target: EpochId,
    event: (TransactionEventsDigest, usize),
)
    requires
        tables.wf(),
    ensures
        ({
            let before = tables@.events;
            let after = tables@.rolled_back(target).events;
            &&& after.contains_key(event) <==> before.contains_key(event) && !(event.1 < usize::MAX
                && exists|tx: TransactionDigest|
                #![trigger goes(tables@, tx, target)]
                goes(tables@, tx, target) && emits(tables@, tx, event.0))
            &&& after.contains_key(event) ==> after[event] == before[event]
        }),
{
    let s = tables@;
    let txs = s.transactions_after(target);
    let f = |tx: TransactionDigest| s.emitted_digest(tx);
    rollback_removes_just_what_goes(tables, target);
    crate::seq_facts::flat_contains(txs, f, event.0);
    assert forall|tx: TransactionDigest| #[trigger] f(tx).contains(event.0) <==> emits(
        s,
        tx,
        event.0,
    ) by {
        if emits(s, tx, event.0) {
            assert(f(tx)[0] == event.0);
        }
    }
    if s.emitted_digests(txs).contains(event.0) {
        let tx = choose|tx: TransactionDigest| #[trigger]
            txs.contains(tx) && f(tx).contains(event.0);
        assert(goes(s, tx, target) && emits(s, tx, event.0));
    }
    if exists|tx: TransactionDigest|
        #![trigger goes(s, tx, target)]
        goes(s, tx, target) && emits(s, tx, event.0) {
        let tx = choose|tx: TransactionDigest|
            #![trigger goes(s, tx, target)]
            goes(s, tx, target) && emits(s, tx, event.0);
        assert(txs.contains(tx) && f(tx).contains(event.0));
    }
}

/// Effects are there after a rollback just if they were there before, are of no later epoch, and no
/// transaction that goes was executed with them.
pub proof fn effects_after_rollback(
    tables: AuthorityPerpetualTables,
    target: EpochId,
    digest: TransactionEffectsDigest,
)
    requires
        tables.wf(),
    ensures
        ({
            let before = tables@.effects;
            let after = tables@.rolled_back(target).effects;
            &&& after.contains_key(digest) <==> before.contains_key(digest)
                && before[digest].executed_epoch <= target && !(exists|tx: TransactionDigest|
                #![trigger goes(tables@, tx, target)]
                goes(tables@, tx, target) && tables@.executed_effects.contains_key(tx)
                    && tables@.executed_effects[tx] == digest)
            &&& after.contains_key(digest) ==> after[digest] == before[digest]
        }),
{
    let s = tables@;
    let txs = s.transactions_after(target);
    let f = |tx: TransactionDigest| s.executed_digest(tx);
    rollback_removes_just_what_goes(tables, target);
    crate::seq_facts::flat_contains(txs, f, digest);
    assert forall|tx: TransactionDigest| #[trigger] f(tx).contains(digest)
        <==> s.executed_effects.contains_key(tx) && s.executed_effects[tx] == digest by {
        if s.executed_effects.contains_key(tx) {
            assert(f(tx)[0] == s.executed_effects[tx]);
        }
    }
    if s.executed_digests(txs).contains(digest) {
        let tx = choose|tx: TransactionDigest| #[trigger] txs.contains(tx) && f(tx).contains(digest);
        assert(goes(s, tx, target));
    }
    if exists|tx: TransactionDigest|
        #![trigger goes(s, tx, target)]
        goes(s, tx, target) && s.executed_effects.contains_key(tx) && s.executed_effects[tx]
            == digest {
        let tx = choose|tx: TransactionDigest|
            #![trigger goes(s, tx, target)]
            goes(s, tx, target) && s.executed_effects.contains_key(tx) && s.executed_effects[tx]
                == digest;
        assert(txs.contains(tx) && f(tx).contains(digest));
    }
}

/// What is keyed by a transaction is there after a rollback just if it was there before and the
/// transaction does not go; what is keyed by an epoch, just if it was there before and the epoch is no
/// later than the target. All of it is what it was, and the four tables with one row are too.
pub proof fn other_tables_after_rollback(
    tables: AuthorityPerpetualTables,
    target: EpochId,
    tx: TransactionDigest,
    epoch: EpochId,
    marker: (EpochId, ObjectKey),
)
    requires
        tables.wf(),
    ensures
        ({
            let before = tables@;
            let after = tables@.rolled_back(target);
            &&& after.transactions.contains_key(tx) <==> before.transactions.contains_key(tx)
                && !goes(before, tx, target)
            &&& after.transactions.contains_key(tx) ==> after.transactions[tx]
                == before.transactions[tx]
            &&& after.executed_effects.contains_key(tx) <==> before.executed_effects.contains_key(tx)
                && !goes(before, tx, target)
            &&& after.executed_effects.contains_key(tx) ==> after.executed_effects[tx]
                == before.executed_effects[tx]
            &&& after.executed_transactions_to_checkpoint.contains_key(tx)
                <==> before.executed_transactions_to_checkpoint.contains_key(tx) && !goes(
                before,
                tx,
                target,
            )
            &&& after.executed_transactions_to_checkpoint.contains_key(tx)
                ==> after.executed_transactions_to_checkpoint[tx]
                == before.executed_transactions_to_checkpoint[tx]
            &&& after.root_state_hash_by_epoch.contains_key(epoch)
                <==> before.root_state_hash_by_epoch.contains_key(epoch) && epoch <= target
            &&& after.root_state_hash_by_epoch.contains_key(epoch)
                ==> after.root_state_hash_by_epoch[epoch] == before.root_state_hash_by_epoch[epoch]
            &&& after.object_per_epoch_marker_table.contains_key(marker)
                <==> before.object_per_epoch_marker_table.contains_key(marker) && marker.0 <= target
            &&& after.object_per_epoch_marker_table.contains_key(marker)
                ==> after.object_per_epoch_marker_table[marker]
                == before.object_per_epoch_marker_table[marker]
            &&& after.epoch_start_configuration == before.epoch_start_configuration
            &&& after.pruned_checkpoint == before.pruned_checkpoint
            &&& after.expected_network_mgo_amount == before.expected_network_mgo_amount
            &&& after.expected_storage_fund_imbalance == before.expected_storage_fund_imbalance
        }),
{
    let txs = tables@.transactions_after(target);
    rollback_removes_just_what_goes(tables, target);
    assert(txs.to_set().contains(tx) <==> txs.contains(tx));
}

/// The largest number of a list, or zero.
proof fn lemma_largest(numbers: Seq<u64>) -> (largest: u64)
    ensures
        largest == 0 || numbers.contains(largest),
        forall|i: int| 0 <= i < numbers.len() ==> #[trigger] numbers[i] <= largest,
    decreases numbers.len(),
{
    if numbers.len() == 0 {
        0
    } else {
        let rest = numbers.drop_last();
        let last = numbers.last();
        let before = lemma_largest(rest);
        assert(numbers =~= rest.push(last));
        crate::seq_facts::push_contains(rest, last, before);
        crate::seq_facts::push_contains(rest, last, last);
        if last > before {
            last
        } else {
            before
        }
    }
}

/// A rollback is refused just if its target is not zero and neither a root state nor effects of that
/// epoch or a later one are on record.
pub proof fn only_future_epochs_are_refused(tables: AuthorityPerpetualTables, target: EpochId)
    requires
        tables.wf(),
    ensures
        target <= tables@.highest_epoch() <==> {
            ||| target == 0
            ||| exists|epoch: EpochId| #[trigger]
                tables@.root_state_hash_by_epoch.contains_key(epoch) && epoch >= target
            ||| exists|digest: TransactionEffectsDigest| #[trigger]
                tables@.effects.contains_key(digest) && tables@.effects[digest].executed_epoch
                    >= target
        },
{
    let s = tables@;
    tables.root_state_hash_by_epoch.rows_are_contents();
    tables.effects.rows_are_contents();
    let epochs = crate::ordered_table::rows_keys(tables.root_state_hash_by_epoch.rows());
    let rows = tables.effects.rows();
    let digests = crate::ordered_table::rows_keys(rows);
    let executed = Seq::new(rows.len(), |i: int| rows[i].1.executed_epoch);
    let a = lemma_largest(epochs);
    let b = lemma_largest(executed);
    let highest = if a > b {
        a
    } else {
        b
    };
    assert forall|e: EpochId| #[trigger] s.root_state_hash_by_epoch.contains_key(e) implies e
        <= highest by {
        assert(epochs.contains(e));
        let i = choose|i: int| 0 <= i < epochs.len() && epochs[i] == e;
        assert(epochs[i] <= a);
    }
    assert forall|d: TransactionEffectsDigest| #[trigger] s.effects.contains_key(d) implies s.effects[d].executed_epoch
        <= highest by {
        assert(digests.contains(d));
        let i = choose|i: int| 0 <= i < digests.len() && digests[i] == d;
        assert(rows[i].0 == d);
        assert(executed[i] <= b);
    }
    if highest != 0 {
        if highest == a && epochs.contains(a) {
            assert(s.root_state_hash_by_epoch.contains_key(a));
        } else {
            assert(executed.contains(b));
            let i = choose|i: int| 0 <= i < executed.len() && executed[i] == b;
            assert(s.effects.contains_key(rows[i].0));
            assert(s.effects[rows[i].0].executed_epoch == highest);
        }
    }
    assert(s.is_highest_epoch(highest));
    crate::rollback::highest_epoch_is_unique(s, highest);
}

/// The count of outputs is the number of entries that the effects of the transactions list as
/// created, mutated or unwrapped.
pub proof fn every_listed_entry_is_counted(state: TablesState, txs: Seq<TransactionDigest>)
    ensures
        state.output_count(txs) == entries_listed(state, txs),
    decreases txs.len(),
{
    if txs.len() > 0 {
        every_listed_entry_is_counted(state, txs.drop_last());
    }
}

/// The statistics count the rows that go, one by one: the root states and the markers of later epochs,
/// the transactions that go, and the entries of their effects.
pub proof fn statistics_count_the_rows_that_go(
    tables: AuthorityPerpetualTables,
    target: EpochId,
    statistics: RollbackStatistics,
)
    requires
        tables.wf(),
        tables@.are_rollback_statistics(target, statistics),
    ensures
        statistics.target_epoch == target,
        statistics.epochs_to_remove == tables@.root_state_hash_by_epoch.dom().filter(
            |epoch: EpochId| epoch > target,
        ).len(),
        statistics.markers_to_remove == tables@.object_per_epoch_marker_table.dom().filter(
            |marker: (EpochId, ObjectKey)| marker.0 > target,
        ).len(),
        statistics.transactions_to_remove == Set::new(
            |tx: TransactionDigest| goes(tables@, tx, target),
        ).len(),
        statistics.objects_to_remove == entries_listed(
            tables@,
            tables@.transactions_after(target),
        ),
{
    let s = tables@;
    let txs = s.transactions_after(target);
    tables.root_state_hash_by_epoch.rows_are_contents();
    tables.object_per_epoch_marker_table.rows_are_contents();
    lemma_count_late(s.root_state_hash_by_epoch, |epoch: EpochId| epoch > target);
    lemma_count_late(
        s.object_per_epoch_marker_table,
        |marker: (EpochId, ObjectKey)| marker.0 > target,
    );
    crate::rollback_laws::late_transactions_are_identified(tables, target);
    rollback_removes_just_what_goes(tables, target);
    txs.unique_seq_to_set();
    let removed = Set::new(|tx: TransactionDigest| goes(s, tx, target));
    assert forall|tx: TransactionDigest| #[trigger] removed.contains(tx)
        <==> txs.to_set().contains(tx) by {
        assert(txs.to_set().contains(tx) <==> txs.contains(tx));
    }
    assert(removed =~= txs.to_set());
    every_listed_entry_is_counted(s, txs);
}

/// The keys of a table that pass a test, counted in a list or in a set.
proof fn lemma_count_late<K: TableKey, V>(m: Map<K, V>, p: spec_fn(K) -> bool)
    requires
        crate::ordered_table::lists_keys(m, crate::ordered_table::ordered_keys(m)),
    ensures
        crate::ordered_table::ordered_keys(m).filter(p).len() == m.dom().filter(p).len(),
{
    let keys = crate::ordered_table::ordered_keys(m);
    let late = keys.filter(p);
    crate::ordered_table::increasing_has_no_duplicates(keys);
    crate::seq_facts::filter_no_duplicates(keys, p);
    late.unique_seq_to_set();
    assert forall|k: K| #[trigger] late.to_set().contains(k) <==> m.dom().filter(p).contains(k) by {
        crate::seq_facts::filter_contains(keys, p, k);
        assert(late.to_set().contains(k) <==> late.contains(k));
        assert(m.contains_key(k) <==> keys.contains(k));
    }
    assert(late.to_set() =~= m.dom().filter(p));
}

/// A version that some transaction that goes put out points to these contents.
pub open spec fn holds_contents_of_what_goes(
    state: TablesState,
    target: EpochId,
    digest: ObjectContentDigest,
) -> bool {
    exists|tx: TransactionDigest, key: ObjectKey|
        #![trigger goes(state, tx, target), points_to(state, key, digest)]
        goes(state, tx, target) && puts_out(state, tx, key) && points_to(state, key, digest)
}

/// A write removes something that goes: a root state or a marker of a later epoch;
/// what is keyed by a transaction that goes; its effects or other effects of a later epoch; its
/// events, from the first index up to the largest; a version that it put out, its contents that are
/// kept apart, and its locks, from the digest of all zeros up to that of all ones.
pub open spec fn is_removal_of_what_goes(state: TablesState, target: EpochId, op: BatchOp) -> bool {
    match op {
        BatchOp::DeleteRootStateHash(epoch) => state.root_state_hash_by_epoch.dom().contains(epoch)
            && epoch > target,
        BatchOp::DeleteMarker(epoch, key) => state.object_per_epoch_marker_table.dom().contains(
            (epoch, key),
        ) && epoch > target,
        BatchOp::DeleteExecutedCheckpoint(tx) => goes(state, tx, target),
        BatchOp::DeleteTransaction(tx) => goes(state, tx, target),
        BatchOp::DeleteExecutedEffects(tx) => goes(state, tx, target),
        BatchOp::DeleteEffects(digest) => {
            ||| state.effects.dom().contains(digest) && state.effects[digest].executed_epoch
                > target
            ||| exists|tx: TransactionDigest|
                #![trigger goes(state, tx, target)]
                goes(state, tx, target) && state.executed_effects.dom().contains(tx)
                    && state.executed_effects[tx] == digest
        },
        BatchOp::DeleteEventRange(from, to) => {
            &&& from.1 == 0
            &&& to == (from.0, usize::MAX)
            &&& exists|tx: TransactionDigest|
                #![trigger goes(state, tx, target)]
                goes(state, tx, target) && emits(state, tx, from.0)
        },
        BatchOp::DeleteObject(key) => exists|tx: TransactionDigest|
            #![trigger goes(state, tx, target)]
            goes(state, tx, target) && puts_out(state, tx, key),
        BatchOp::DeleteIndirectObject(digest) => holds_contents_of_what_goes(
            state,
            target,
            digest,
        ),
        BatchOp::DeleteLockRange(from, to) => {
            &&& from.2.0.hi == 0 && from.2.0.lo == 0
            &&& to.0 == from.0 && to.1 == from.1
            &&& to.2.0.hi == u128::MAX && to.2.0.lo == u128::MAX
            &&& exists|tx: TransactionDigest|
                #![trigger goes(state, tx, target)]
                goes(state, tx, target) && puts_out(state, tx, ObjectKey(from.0, from.1))
        },
        _ => false,
    }
}

/// Every write of a rollback removes something that goes, and no write sets anything.
pub proof fn rollback_writes_remove_what_goes(
    tables: AuthorityPerpetualTables,
    target: EpochId,
    op: BatchOp,
)
    requires
        tables.wf(),
        tables@.rollback_ops(target).contains(op),
    ensures
        is_removal_of_what_goes(tables@, target, op),
{
    let s = tables@;
    let txs = s.transactions_after(target);
    let keys = s.outputs_of(txs);
    let a1 = s.late_epochs(target).map_values(
        |epoch: EpochId| BatchOp::DeleteRootStateHash(epoch),
    );
    let a2 = s.late_markers(target).map_values(
        |marker: (EpochId, ObjectKey)| BatchOp::DeleteMarker(marker.0, marker.1),
    );
    let b1 = txs.map_values(|tx: TransactionDigest| BatchOp::DeleteExecutedCheckpoint(tx));
    let b2 = txs.map_values(|tx: TransactionDigest| BatchOp::DeleteTransaction(tx));
    let b3 = s.executed_digests(txs).map_values(
        |digest: TransactionEffectsDigest| BatchOp::DeleteEffects(digest),
    );
    let b4 = txs.map_values(|tx: TransactionDigest| BatchOp::DeleteExecutedEffects(tx));
    let b5 = s.event_ops(txs);
    let e = s.late_effects_ops(target);
    let c1 = keys.map_values(|key: ObjectKey| BatchOp::DeleteObject(key));
    let c2 = s.indirect_ops(keys);
    let d = s.lock_ops(txs);
    let b = b1 + b2 + b3 + b4 + b5;
    rollback_removes_just_what_goes(tables, target);
    lemma_late_lists_by_row(tables, target);
    assert(s.rollback_ops(target) =~= a1 + a2 + b + e + (c1 + c2) + d);
    crate::seq_facts::concat_contains(a1 + a2 + b + e + (c1 + c2), d, op);
    crate::seq_facts::concat_contains(a1 + a2 + b + e, c1 + c2, op);
    crate::seq_facts::concat_contains(a1 + a2 + b, e, op);
    crate::seq_facts::concat_contains(a1 + a2, b, op);
    crate::seq_facts::concat_contains(a1, a2, op);
    crate::seq_facts::concat_contains(b1 + b2 + b3 + b4, b5, op);
    crate::seq_facts::concat_contains(b1 + b2 + b3, b4, op);
    crate::seq_facts::concat_contains(b1 + b2, b3, op);
    crate::seq_facts::concat_contains(b1, b2, op);
    crate::seq_facts::concat_contains(c1, c2, op);
    if a1.contains(op) {
        let i = choose|i: int| 0 <= i < a1.len() && a1[i] == op;
        let epoch = s.late_epochs(target)[i];
        assert(s.late_epochs(target).contains(epoch));
        tables.root_state_hash_by_epoch.rows_are_contents();
        crate::seq_facts::filter_contains(
            crate::ordered_table::ordered_keys(s.root_state_hash_by_epoch),
            |epoch: EpochId| epoch > target,
            epoch,
        );
        assert(is_removal_of_what_goes(s, target, op));
    } else if a2.contains(op) {
        let i = choose|i: int| 0 <= i < a2.len() && a2[i] == op;
        let marker = s.late_markers(target)[i];
        assert(s.late_markers(target).contains(marker));
        tables.object_per_epoch_marker_table.rows_are_contents();
        crate::seq_facts::filter_contains(
            crate::ordered_table::ordered_keys(s.object_per_epoch_marker_table),
            |marker: (EpochId, ObjectKey)| marker.0 > target,
            marker,
        );
        assert(is_removal_of_what_goes(s, target, op));
    } else if b1.contains(op) {
        let i = choose|i: int| 0 <= i < b1.len() && b1[i] == op;
        assert(txs.contains(txs[i]));
        assert(is_removal_of_what_goes(s, target, op));
    } else if b2.contains(op) {
        let i = choose|i: int| 0 <= i < b2.len() && b2[i] == op;
        assert(txs.contains(txs[i]));
        assert(is_removal_of_what_goes(s, target, op));
    } else if b3.contains(op) {
        let i = choose|i: int| 0 <= i < b3.len() && b3[i] == op;
        let digest = s.executed_digests(txs)[i];
        let f = |tx: TransactionDigest| s.executed_digest(tx);
        assert(s.executed_digests(txs).contains(digest));
        crate::seq_facts::flat_contains(txs, f, digest);
        let tx = choose|tx: TransactionDigest| #[trigger] txs.contains(tx) && f(tx).contains(digest);
        assert(goes(s, tx, target));
        assert(is_removal_of_what_goes(s, target, op));
    } else if b4.contains(op) {
        let i = choose|i: int| 0 <= i < b4.len() && b4[i] == op;
        assert(txs.contains(txs[i]));
        assert(is_removal_of_what_goes(s, target, op));
    } else if b5.contains(op) {
        let i = choose|i: int| 0 <= i < b5.len() && b5[i] == op;
        let digest = s.emitted_digests(txs)[i];
        let f = |tx: TransactionDigest| s.emitted_digest(tx);
        assert(s.emitted_digests(txs).contains(digest));
        crate::seq_facts::flat_contains(txs, f, digest);
        let tx = choose|tx: TransactionDigest| #[trigger] txs.contains(tx) && f(tx).contains(digest);
        assert(goes(s, tx, target) && emits(s, tx, digest));
        assert(is_removal_of_what_goes(s, target, op));
    } else if e.contains(op) {
        let i = choose|i: int| 0 <= i < e.len() && e[i] == op;
        assert(s.late_effects(target).contains(s.late_effects(target)[i]));
        assert(is_removal_of_what_goes(s, target, op));
    } else if c1.contains(op) {
        let i = choose|i: int| 0 <= i < c1.len() && c1[i] == op;
        assert(keys.contains(keys[i]));
        lemma_put_out_by_some(tables, target, keys[i]);
        assert(is_removal_of_what_goes(s, target, op));
    } else if c2.contains(op) {
        let i = choose|i: int| 0 <= i < c2.len() && c2[i] == op;
        let digest = s.indirect_digests(keys)[i];
        let f = |key: ObjectKey| s.indirect_digest(key);
        assert(s.indirect_digests(keys).contains(digest));
        crate::seq_facts::flat_contains(keys, f, digest);
        let key = choose|key: ObjectKey| #[trigger] keys.contains(key) && f(key).contains(digest);
        lemma_put_out_by_some(tables, target, key);
        let row = s.objects[key];
        assert(row == StoreObjectWrapper::V1(row.spec_inner()));
        let tx = choose|tx: TransactionDigest|
            #![trigger goes(s, tx, target)]
            goes(s, tx, target) && puts_out(s, tx, key);
        assert(goes(s, tx, target) && puts_out(s, tx, key) && points_to(s, key, digest));
        assert(holds_contents_of_what_goes(s, target, digest));
        assert(is_removal_of_what_goes(s, target, op));
    } else {
        let i = choose|i: int| 0 <= i < d.len() && d[i] == op;
        assert(keys.contains(keys[i]));
        lemma_put_out_by_some(tables, target, keys[i]);
        let from = crate::state::first_lock(keys[i]);
        let to = crate::state::last_lock(keys[i]);
        assert(op == BatchOp::DeleteLockRange(from, to));
        assert(ObjectKey(from.0, from.1) == keys[i]);
        let tx = choose|tx: TransactionDigest|
            #![trigger goes(s, tx, target)]
            goes(s, tx, target) && puts_out(s, tx, keys[i]);
        assert(goes(s, tx, target) && puts_out(s, tx, ObjectKey(from.0, from.1)));
        assert(is_removal_of_what_goes(s, target, BatchOp::DeleteLockRange(from, to)));
    }
}

} // verus!
