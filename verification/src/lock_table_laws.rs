//! What taking locks away and taking transactions back does, told from the rows of the tables.

use crate::base_types::{
    ObjectDigest, ObjectID, ObjectKey, ObjectRef, SequenceNumber, TransactionDigest,
};
use crate::batch::BatchOp;
use crate::rows::LockDetailsWrapper;
use crate::state::TablesState;
use crate::tables::AuthorityPerpetualTables;
use vstd::prelude::*;

verus! {

/// Not all bytes of a digest are `0xff`.
pub open spec fn below_all_ones(digest: ObjectDigest) -> bool {
    digest.0.hi < u128::MAX || digest.0.lo < u128::MAX
}

/// The locks table has a row for an object version, under a digest that is not all ones.
pub open spec fn holds_lock(state: TablesState, version: ObjectKey) -> bool {
    exists|digest: ObjectDigest| #[trigger]
        state.owned_object_transaction_locks.contains_key((version.0, version.1, digest))
            && below_all_ones(digest)
}

/// Of the stored versions that are not listed, `key` is the newest one of its object that is older
/// than `version`.
pub open spec fn newest_older_unlisted(
    state: TablesState,
    version: ObjectKey,
    listed: Seq<ObjectKey>,
    key: ObjectKey,
) -> bool {
    &&& state.objects.dom().contains(key)
    &&& !listed.contains(key)
    &&& key.0 == version.0
    &&& key.1.0 < version.1.0
    &&& forall|other: ObjectKey|
        #![trigger state.objects.dom().contains(other)]
        state.objects.dom().contains(other) && !listed.contains(other) && other.0 == version.0
            && key.1.0 < other.1.0 ==> version.1.0 <= other.1.0
}

/// A lock that goes back to this reference when the listed versions are taken back: that of the
/// newest older unlisted version of a listed version with a lock.
pub open spec fn goes_back_to(
    state: TablesState,
    listed: Seq<ObjectKey>,
    i: int,
    key: ObjectKey,
    reference: ObjectRef,
) -> bool {
    &&& 0 <= i < listed.len()
    &&& holds_lock(state, listed[i])
    &&& newest_older_unlisted(state, listed[i], listed, key)
    &&& state.row_reference(key, state.objects[key]) == Some(reference)
}

/// An object version counts as locked just if the locks table has a row for it under a digest that
/// is not all ones, whatever the row holds.
pub proof fn a_version_is_locked_by_its_rows(state: TablesState, version: ObjectKey)
    ensures
        state.locked(version) <==> holds_lock(state, version),
{
    if state.locked(version) {
        let lock = choose|lock: ObjectRef| #[trigger]
            state.owned_object_transaction_locks.contains_key(lock) && crate::state::is_lock_of(
                lock,
                version,
            );
        assert(lock == (version.0, version.1, lock.2));
        assert(state.owned_object_transaction_locks.contains_key((version.0, version.1, lock.2)));
        assert(below_all_ones(lock.2)) by {
            if !below_all_ones(lock.2) {
                assert(lock.2.0 == crate::base_types::digest_max().0);
                assert(lock.2 == crate::base_types::digest_max());
            }
        }
    }
    if holds_lock(state, version) {
        let digest = choose|digest: ObjectDigest| #[trigger]
            state.owned_object_transaction_locks.contains_key((version.0, version.1, digest))
                && below_all_ones(digest);
        let lock = (version.0, version.1, digest);
        assert(state.owned_object_transaction_locks.contains_key(lock));
        assert(crate::state::is_lock_of(lock, version));
    }
}

/// A reference is a lock of a version just if it names that version under a digest that is not all
/// ones.
proof fn lemma_is_lock_of(lock: ObjectRef, version: ObjectKey)
    ensures
        crate::state::is_lock_of(lock, version) <==> ObjectKey(lock.0, lock.1) == version
            && below_all_ones(lock.2),
{
    if !below_all_ones(lock.2) {
        assert(lock.2.0 == crate::base_types::digest_max().0);
        assert(lock.2 == crate::base_types::digest_max());
    }
}

/// Among the versions that are left, the previous one is the newest older one.
proof fn lemma_previous_kept(state: TablesState, version: ObjectKey, listed: Seq<ObjectKey>)
    ensures
        forall|key: ObjectKey| #[trigger]
            newest_older_unlisted(state, version, listed, key) <==> state.previous_kept(
                version,
                listed,
            ) == Some(key),
{
    let kept = state.objects.remove_keys(listed.to_set());
    assert forall|key: ObjectKey| #[trigger]
        newest_older_unlisted(state, version, listed, key) <==> state.previous_kept(
            version,
            listed,
        ) == Some(key) by {
        assert forall|o: ObjectKey| #[trigger]
            kept.contains_key(o) <==> state.objects.dom().contains(o) && !listed.contains(o) by {}
        if newest_older_unlisted(state, version, listed, key) {
            assert forall|o: ObjectKey| #[trigger]
                kept.contains_key(o) && o.0 == version.0 && o.1.0 < version.1.0 implies o.1.0
                <= key.1.0 by {
                assert(state.objects.dom().contains(o));
            }
            assert(crate::state::is_previous(kept, version, key));
            crate::state::previous_is_unique(kept, version, key);
        }
        if state.previous_kept(version, listed) == Some(key) {
            assert(crate::state::is_previous(kept, version, key));
            assert(kept.contains_key(key));
            assert forall|other: ObjectKey|
                #![trigger state.objects.dom().contains(other)]
                state.objects.dom().contains(other) && !listed.contains(other) && other.0
                    == version.0 && key.1.0 < other.1.0 implies version.1.0 <= other.1.0 by {
                assert(kept.contains_key(other));
            }
        }
    }
}

/// Taking back succeeds for a list of any length if, for every listed version that has a lock, the
/// newest older version that is not listed, where there is one, has a reference that can be computed;
/// and it fails as soon as one of them has not.
pub proof fn taking_back_fails_only_on_unreadable_rows(state: TablesState, listed: Seq<ObjectKey>)
    ensures
        state.can_take_back(listed, listed) <==> forall|i: int, key: ObjectKey|
            #![trigger newest_older_unlisted(state, listed[i], listed, key)]
            0 <= i < listed.len() && holds_lock(state, listed[i]) && newest_older_unlisted(
                state,
                listed[i],
                listed,
                key,
            ) ==> state.row_reference(key, state.objects[key]) is Some,
{
    let all = forall|i: int, key: ObjectKey|
        #![trigger newest_older_unlisted(state, listed[i], listed, key)]
        0 <= i < listed.len() && holds_lock(state, listed[i]) && newest_older_unlisted(
            state,
            listed[i],
            listed,
            key,
        ) ==> state.row_reference(key, state.objects[key]) is Some;
    if all {
        assert forall|i: int| 0 <= i < listed.len() && state.locked(#[trigger] listed[i]) implies
            !state.relock_is_blocked(listed[i], listed) by {
            a_version_is_locked_by_its_rows(state, listed[i]);
            lemma_previous_kept(state, listed[i], listed);
            if let Some(key) = state.previous_kept(listed[i], listed) {
                assert(newest_older_unlisted(state, listed[i], listed, key));
            }
        }
    }
    if state.can_take_back(listed, listed) {
        assert forall|i: int, key: ObjectKey|
            #![trigger newest_older_unlisted(state, listed[i], listed, key)]
            0 <= i < listed.len() && holds_lock(state, listed[i]) && newest_older_unlisted(
                state,
                listed[i],
                listed,
                key,
            ) implies state.row_reference(key, state.objects[key]) is Some by {
            a_version_is_locked_by_its_rows(state, listed[i]);
            lemma_previous_kept(state, listed[i], listed);
            assert(state.previous_kept(listed[i], listed) == Some(key));
            assert(!state.relock_is_blocked(listed[i], listed));
        }
    }
}

/// Taking back succeeds where no listed version has a lock, where nothing is listed, and where every
/// stored version can be read.
pub proof fn readable_tables_can_be_taken_back(state: TablesState, listed: Seq<ObjectKey>)
    requires
        listed.len() == 0 || (forall|i: int| 0 <= i < listed.len() ==> !holds_lock(
            state,
            #[trigger] listed[i],
        )) || (forall|key: ObjectKey| #[trigger]
            state.objects.contains_key(key) ==> state.read_version(key) is Ok),
    ensures
        state.can_take_back(listed, listed),
{
    assert forall|i: int, key: ObjectKey|
        #![trigger newest_older_unlisted(state, listed[i], listed, key)]
        0 <= i < listed.len() && holds_lock(state, listed[i]) && newest_older_unlisted(
            state,
            listed[i],
            listed,
            key,
        ) implies state.row_reference(key, state.objects[key]) is Some by {
        assert(state.objects.contains_key(key));
    }
    taking_back_fails_only_on_unreadable_rows(state, listed);
}

/// What the locks are after the first of the listed versions were taken back.
proof fn lemma_locks_taken_back(
    state: TablesState,
    first: Seq<ObjectKey>,
    listed: Seq<ObjectKey>,
    lock: ObjectRef,
)
    requires
        state.rows_fit_keys(),
        forall|j: int| 0 <= j < first.len() ==> listed.contains(#[trigger] first[j]),
    ensures
        ({
            let before = state.owned_object_transaction_locks;
            let after = state.locks_taken_back(first, listed);
            let restored = exists|j: int|
                0 <= j < first.len() && state.locked(#[trigger] first[j]) && state.kept_reference(
                    first[j],
                    listed,
                ) == Some(lock);
            let dropped = exists|j: int|
                0 <= j < first.len() && crate::state::is_lock_of(lock, #[trigger] first[j]);
            &&& after.contains_key(lock) <==> restored || (before.contains_key(lock) && !dropped)
            &&& restored ==> after[lock] is None
            &&& !restored && after.contains_key(lock) ==> after[lock] == before[lock]
            &&& restored ==> !listed.contains(ObjectKey(lock.0, lock.1))
        }),
    decreases first.len(),
{
    let before = state.owned_object_transaction_locks;
    let after = state.locks_taken_back(first, listed);
    if first.len() > 0 {
        let rest = first.drop_last();
        let version = first.last();
        let n = first.len() - 1;
        let middle = state.locks_taken_back(rest, listed);
        assert forall|j: int| 0 <= j < rest.len() implies listed.contains(#[trigger] rest[j]) by {
            assert(rest[j] == first[j]);
        }
        lemma_locks_taken_back(state, rest, listed, lock);
        assert(first[n] == version);
        let restored_before = exists|j: int|
            0 <= j < rest.len() && state.locked(#[trigger] rest[j]) && state.kept_reference(
                rest[j],
                listed,
            ) == Some(lock);
        let restored = exists|j: int|
            0 <= j < first.len() && state.locked(#[trigger] first[j]) && state.kept_reference(
                first[j],
                listed,
            ) == Some(lock);
        let dropped_before = exists|j: int|
            0 <= j < rest.len() && crate::state::is_lock_of(lock, #[trigger] rest[j]);
        let dropped = exists|j: int|
            0 <= j < first.len() && crate::state::is_lock_of(lock, #[trigger] first[j]);
        let now = state.locked(version) && state.kept_reference(version, listed) == Some(lock);
        assert(restored <==> restored_before || now) by {
            if restored_before {
                let j = choose|j: int|
                    0 <= j < rest.len() && state.locked(#[trigger] rest[j])
                        && state.kept_reference(rest[j], listed) == Some(lock);
                assert(first[j] == rest[j]);
            }
            if restored && !now {
                let j = choose|j: int|
                    0 <= j < first.len() && state.locked(#[trigger] first[j])
                        && state.kept_reference(first[j], listed) == Some(lock);
                assert(first[j] == rest[j]);
            }
        }
        assert(dropped <==> dropped_before || crate::state::is_lock_of(lock, version)) by {
            if dropped_before {
                let j = choose|j: int|
                    0 <= j < rest.len() && crate::state::is_lock_of(lock, #[trigger] rest[j]);
                assert(first[j] == rest[j]);
            }
            if dropped && !crate::state::is_lock_of(lock, version) {
                let j = choose|j: int|
                    0 <= j < first.len() && crate::state::is_lock_of(lock, #[trigger] first[j]);
                assert(first[j] == rest[j]);
            }
        }
        assert(listed.contains(version));
        if restored {
            let j = choose|j: int|
                0 <= j < first.len() && state.locked(#[trigger] first[j]) && state.kept_reference(
                    first[j],
                    listed,
                ) == Some(lock);
            lemma_left_reference(state, first[j], listed, lock);
            assert(!crate::state::is_lock_of(lock, version));
        }
        crate::locks::lemma_lock_range(lock, version);
        if !state.locked(version) && before.contains_key(lock) {
            assert(!crate::state::is_lock_of(lock, version));
        }
    }
}

/// The version that a lock goes back to is not listed, and its reference names it.
proof fn lemma_left_reference(
    state: TablesState,
    version: ObjectKey,
    listed: Seq<ObjectKey>,
    reference: ObjectRef,
)
    requires
        state.rows_fit_keys(),
        state.kept_reference(version, listed) == Some(reference),
    ensures
        !listed.contains(ObjectKey(reference.0, reference.1)),
{
    lemma_previous_kept(state, version, listed);
    let key = state.previous_kept(version, listed).unwrap();
    assert(newest_older_unlisted(state, version, listed, key));
    crate::reading_laws::reference_names_its_row(state, key, reference);
}

/// Every row of the locks table after a transaction was taken back. A row is there just if a lock
/// went back to it, or if it was there before and is no lock of a listed version; one under the digest
/// of all ones stays. Where a lock went back, the row is locked for nobody; every other row holds
/// what it held.
pub proof fn locks_after_taking_back(
    state: TablesState,
    digest: TransactionDigest,
    listed: Seq<ObjectKey>,
    lock: ObjectRef,
)
    requires
        state.rows_fit_keys(),
    ensures
        ({
            let before = state.owned_object_transaction_locks;
            let after = state.taken_back(digest, listed).owned_object_transaction_locks;
            let restored = exists|i: int, key: ObjectKey| #[trigger]
                goes_back_to(state, listed, i, key, lock);
            &&& after.contains_key(lock) <==> restored || (before.contains_key(lock) && !(
            listed.contains(ObjectKey(lock.0, lock.1)) && below_all_ones(lock.2)))
            &&& restored ==> after[lock] == None::<LockDetailsWrapper>
            &&& !restored && after.contains_key(lock) ==> after[lock] == before[lock]
        }),
{
    lemma_locks_taken_back(state, listed, listed, lock);
    let restored = exists|i: int, key: ObjectKey| #[trigger]
        goes_back_to(state, listed, i, key, lock);
    let restored_here = exists|j: int|
        0 <= j < listed.len() && state.locked(#[trigger] listed[j]) && state.kept_reference(
            listed[j],
            listed,
        ) == Some(lock);
    if restored {
        let (i, key) = choose|i: int, key: ObjectKey| #[trigger]
            goes_back_to(state, listed, i, key, lock);
        a_version_is_locked_by_its_rows(state, listed[i]);
        lemma_previous_kept(state, listed[i], listed);
        assert(state.previous_kept(listed[i], listed) == Some(key));
        assert(state.locked(listed[i]) && state.kept_reference(listed[i], listed) == Some(lock));
    }
    if restored_here {
        let j = choose|j: int|
            0 <= j < listed.len() && state.locked(#[trigger] listed[j]) && state.kept_reference(
                listed[j],
                listed,
            ) == Some(lock);
        a_version_is_locked_by_its_rows(state, listed[j]);
        lemma_previous_kept(state, listed[j], listed);
        let key = state.previous_kept(listed[j], listed).unwrap();
        assert(newest_older_unlisted(state, listed[j], listed, key));
        assert(goes_back_to(state, listed, j, key, lock));
    }
    let dropped = exists|j: int|
        0 <= j < listed.len() && crate::state::is_lock_of(lock, #[trigger] listed[j]);
    let version = ObjectKey(lock.0, lock.1);
    if dropped {
        let j = choose|j: int|
            0 <= j < listed.len() && crate::state::is_lock_of(lock, #[trigger] listed[j]);
        lemma_is_lock_of(lock, listed[j]);
        assert(listed.contains(listed[j]));
    }
    if listed.contains(version) && below_all_ones(lock.2) {
        let j = choose|j: int| 0 <= j < listed.len() && listed[j] == version;
        lemma_is_lock_of(lock, listed[j]);
        assert(crate::state::is_lock_of(lock, listed[j]));
    }
}

/// Every other table after a transaction was taken back: the listed versions are gone and no others;
/// the transaction has neither a checkpoint nor executed effects any more, and every other one has
/// what it had; nothing else changes.
pub proof fn tables_after_taking_back(
    state: TablesState,
    digest: TransactionDigest,
    listed: Seq<ObjectKey>,
)
    ensures
        ({
            let after = state.taken_back(digest, listed);
            &&& forall|key: ObjectKey| #[trigger]
                after.objects.contains_key(key) <==> state.objects.contains_key(key) && !(exists|
                    i: int,
                | 0 <= i < listed.len() && listed[i] == key)
            &&& forall|key: ObjectKey| #[trigger]
                after.objects.contains_key(key) ==> after.objects[key] == state.objects[key]
            &&& forall|tx: TransactionDigest| #[trigger]
                after.executed_effects.contains_key(tx) <==> state.executed_effects.contains_key(tx)
                    && tx != digest
            &&& forall|tx: TransactionDigest| #[trigger]
                after.executed_effects.contains_key(tx) ==> after.executed_effects[tx]
                    == state.executed_effects[tx]
            &&& forall|tx: TransactionDigest| #[trigger]
                after.executed_transactions_to_checkpoint.contains_key(tx)
                    <==> state.executed_transactions_to_checkpoint.contains_key(tx) && tx != digest
            &&& forall|tx: TransactionDigest| #[trigger]
                after.executed_transactions_to_checkpoint.contains_key(tx)
                    ==> after.executed_transactions_to_checkpoint[tx]
                    == state.executed_transactions_to_checkpoint[tx]
            &&& after.indirect_move_objects == state.indirect_move_objects
            &&& after.transactions == state.transactions
            &&& after.effects == state.effects
            &&& after.events == state.events
            &&& after.root_state_hash_by_epoch == state.root_state_hash_by_epoch
            &&& after.epoch_start_configuration == state.epoch_start_configuration
            &&& after.pruned_checkpoint == state.pruned_checkpoint
            &&& after.expected_network_mgo_amount == state.expected_network_mgo_amount
            &&& after.expected_storage_fund_imbalance == state.expected_storage_fund_imbalance
            &&& after.object_per_epoch_marker_table == state.object_per_epoch_marker_table
        }),
{
    let after = state.taken_back(digest, listed);
    assert forall|key: ObjectKey| #[trigger] after.objects.contains_key(key)
        <==> state.objects.contains_key(key) && !(exists|i: int|
        0 <= i < listed.len() && listed[i] == key) by {
        assert(listed.to_set().contains(key) <==> listed.contains(key));
    }
}

/// The newest stored version that is older than a given one is the previous version.
pub proof fn the_previous_version_is_the_newest_older_one(
    state: TablesState,
    version: ObjectKey,
    key: ObjectKey,
)
    ensures
        crate::state::previous_version(state.objects, version) == Some(key)
            <==> newest_older_unlisted(state, version, Seq::empty(), key),
        (forall|other: ObjectKey| #[trigger]
            state.objects.contains_key(other) && other.0 == version.0 ==> other.1.0 >= version.1.0)
            ==> crate::state::previous_version(state.objects, version) is None,
{
    let none = Seq::<ObjectKey>::empty();
    assert(state.objects.remove_keys(none.to_set()) =~= state.objects);
    lemma_previous_kept(state, version, none);
    assert(newest_older_unlisted(state, version, none, key) <==> state.previous_kept(version, none)
        == Some(key));
    if let Some(found) = crate::state::previous_version(state.objects, version) {
        assert(crate::state::is_previous(state.objects, version, found));
        assert(state.objects.contains_key(found));
    }
}

/// The lock of a version goes back to the newest older version, whatever that row is and however much
/// older it is.
pub proof fn a_lock_goes_back_to_the_newest_older_version(
    state: TablesState,
    version: ObjectKey,
    key: ObjectKey,
)
    requires
        newest_older_unlisted(state, version, Seq::empty(), key),
    ensures
        state.relock_version(version) == Some(key),
        state.relock_reference(version) == state.row_reference(key, state.objects[key]),
{
    the_previous_version_is_the_newest_older_one(state, version, key);
}

/// Where no older version is stored, the lock goes back to the newest version there is, and nowhere
/// if none is stored. Versions above the largest regular one do not count.
pub proof fn without_an_older_version_the_newest_counts(
    state: TablesState,
    version: ObjectKey,
    key: ObjectKey,
)
    requires
        forall|other: ObjectKey| #[trigger]
            state.objects.contains_key(other) && other.0 == version.0 ==> other.1.0 >= version.1.0,
    ensures
        state.objects.contains_key(key) && key.0 == version.0 && key.1.0 <= i64::MAX && (forall|
            other: ObjectKey,
        | #[trigger]
            state.objects.contains_key(other) && other.0 == version.0 && other.1.0 <= i64::MAX
                ==> other.1.0 <= key.1.0) ==> {
            &&& state.relock_version(version) == Some(key)
            &&& state.relock_reference(version) == state.row_reference(key, state.objects[key])
        },
        (forall|other: ObjectKey| #[trigger]
            state.objects.contains_key(other) && other.0 == version.0 ==> other.1.0 > i64::MAX)
            ==> {
            &&& state.relock_version(version) is None
            &&& state.relock_reference(version) is None
        },
{
    the_previous_version_is_the_newest_older_one(state, version, key);
    let bound = crate::base_types::MAX_VERSION;
    if state.objects.contains_key(key) && key.0 == version.0 && key.1.0 <= i64::MAX && (forall|
        other: ObjectKey,
    | #[trigger]
        state.objects.contains_key(other) && other.0 == version.0 && other.1.0 <= i64::MAX
            ==> other.1.0 <= key.1.0) {
        crate::row_laws::newest_stored_version_is_found(state, version.0, bound, key);
    }
    if forall|other: ObjectKey| #[trigger]
        state.objects.contains_key(other) && other.0 == version.0 ==> other.1.0 > i64::MAX {
        crate::row_laws::nothing_is_found_where_nothing_is_stored(state, version.0, bound);
    }
}

/// Every row of the locks table after the lock of a version was moved: the row it goes to is there,
/// locked for nobody; the others are those that were there, without those of the version under
/// digests that are not all ones. No other table changes.
pub proof fn locks_after_relocking(
    state: TablesState,
    version: ObjectKey,
    reference: ObjectRef,
    lock: ObjectRef,
)
    ensures
        ({
            let before = state.owned_object_transaction_locks;
            let relocked = state.relocked(version, reference);
            let after = relocked.owned_object_transaction_locks;
            &&& after.contains_key(lock) <==> lock == reference || (before.contains_key(lock) && !(
            lock.0 == version.0 && lock.1 == version.1 && below_all_ones(lock.2)))
            &&& after[reference] == None::<LockDetailsWrapper>
            &&& after.contains_key(lock) && lock != reference ==> after[lock] == before[lock]
            &&& relocked == (TablesState { owned_object_transaction_locks: after, ..state })
        }),
{
    crate::locks::lemma_lock_range(lock, version);
    lemma_is_lock_of(lock, version);
}

/// The newer versions of an object are listed oldest first, each once: the stored ones above the
/// given version and below the largest regular one.
pub proof fn newer_versions_are_listed_in_order(
    tables: AuthorityPerpetualTables,
    object: (ObjectID, SequenceNumber),
    key: ObjectKey,
)
    requires
        tables.wf(),
    ensures
        ({
            let listed = crate::ordered_table::ordered_keys(tables@.objects).filter(
                |k: ObjectKey| crate::locks::is_newer_version(k, object),
            );
            &&& listed.contains(key) <==> tables@.objects.contains_key(key) && key.0 == object.0
                && object.1.0 < key.1.0 < i64::MAX
            &&& forall|i: int, j: int|
                0 <= i < j < listed.len() ==> (#[trigger] listed[i]).1.0 < (
                #[trigger] listed[j]).1.0
        }),
{
    let p = |k: ObjectKey| crate::locks::is_newer_version(k, object);
    let keys = crate::ordered_table::ordered_keys(tables@.objects);
    let listed = keys.filter(p);
    tables.objects.rows_are_contents();
    crate::seq_facts::filter_contains(keys, p, key);
    crate::ordered_table::filter_keeps_increasing(keys, p);
    assert forall|i: int, j: int| 0 <= i < j < listed.len() implies (#[trigger] listed[i]).1.0 < (
    #[trigger] listed[j]).1.0 by {
        assert(listed.contains(listed[i]) && listed.contains(listed[j]));
        crate::seq_facts::filter_contains(keys, p, listed[i]);
        crate::seq_facts::filter_contains(keys, p, listed[j]);
        crate::keys::object_keys_are_grouped(listed[i], listed[j]);
    }
}

/// The locks of a version are named by its identity and number, with digests from all zeros up to, and
/// without, all ones.
pub proof fn locks_name_their_version(lock: ObjectRef, version: ObjectKey)
    ensures
        crate::state::is_lock_of(lock, version) <==> lock.0 == version.0 && lock.1 == version.1
            && below_all_ones(lock.2),
        crate::state::first_lock(version).0 == version.0,
        crate::state::first_lock(version).1 == version.1,
        crate::state::first_lock(version).2.0.hi == 0,
        crate::state::first_lock(version).2.0.lo == 0,
        crate::state::last_lock(version).0 == version.0,
        crate::state::last_lock(version).1 == version.1,
        !below_all_ones(crate::state::last_lock(version).2),
{
    lemma_is_lock_of(lock, version);
}

/// The locks go version by version, whatever the rows hold. Before the first version is taken back
/// they are as they were. Taking back one more version changes nothing if it has no lock. If it has
/// one, its rows under digests that are not all ones go, and a row is set for nobody under the
/// reference of the newest older version that is not listed, where there is one.
pub proof fn locks_go_version_by_version(
    state: TablesState,
    digest: TransactionDigest,
    first: Seq<ObjectKey>,
    version: ObjectKey,
    listed: Seq<ObjectKey>,
    lock: ObjectRef,
)
    ensures
        state.taken_back(digest, listed).owned_object_transaction_locks == state.locks_taken_back(
            listed,
            listed,
        ),
        state.locks_taken_back(Seq::empty(), listed) == state.owned_object_transaction_locks,
        !holds_lock(state, version) ==> state.locks_taken_back(first.push(version), listed)
            == state.locks_taken_back(first, listed),
        holds_lock(state, version) ==> {
            let before = state.locks_taken_back(first, listed);
            let after = state.locks_taken_back(first.push(version), listed);
            let restored = exists|key: ObjectKey| #[trigger]
                newest_older_unlisted(state, version, listed, key) && state.row_reference(
                    key,
                    state.objects[key],
                ) == Some(lock);
            &&& after.contains_key(lock) <==> restored || (before.contains_key(lock) && !(
            ObjectKey(lock.0, lock.1) == version && below_all_ones(lock.2)))
            &&& restored ==> after[lock] == None::<LockDetailsWrapper>
            &&& !restored && after.contains_key(lock) ==> after[lock] == before[lock]
        },
{
    assert(first.push(version).drop_last() =~= first);
    a_version_is_locked_by_its_rows(state, version);
    lemma_previous_kept(state, version, listed);
    crate::locks::lemma_lock_range(lock, version);
    lemma_is_lock_of(lock, version);
    if state.kept_reference(version, listed) == Some(lock) {
        let key = state.previous_kept(version, listed).unwrap();
        assert(newest_older_unlisted(state, version, listed, key));
    }
    if exists|key: ObjectKey| #[trigger]
        newest_older_unlisted(state, version, listed, key) && state.row_reference(
            key,
            state.objects[key],
        ) == Some(lock) {
        let key = choose|key: ObjectKey| #[trigger]
            newest_older_unlisted(state, version, listed, key) && state.row_reference(
                key,
                state.objects[key],
            ) == Some(lock);
        assert(state.previous_kept(version, listed) == Some(key));
    }
}

/// A write takes a listed version back: it removes the version; or it removes the locks of a listed
/// version that has one, from the digest of all zeros up to that of all ones; or it sets a lock for
/// nobody under the reference that the lock of a listed version goes back to.
pub open spec fn is_write_that_takes_back(
    state: TablesState,
    listed: Seq<ObjectKey>,
    op: BatchOp,
) -> bool {
    match op {
        BatchOp::DeleteObject(key) => listed.contains(key),
        BatchOp::DeleteLockRange(from, to) => {
            let version = ObjectKey(from.0, from.1);
            &&& listed.contains(version)
            &&& holds_lock(state, version)
            &&& ObjectKey(to.0, to.1) == version
            &&& from.2.0.hi == 0 && from.2.0.lo == 0
            &&& !below_all_ones(to.2)
        },
        BatchOp::InsertLock(reference, lock) => {
            &&& lock == None::<LockDetailsWrapper>
            &&& lock_goes_back_to(state, listed, reference)
        },
        _ => false,
    }
}

/// The lock of some listed version goes back to this reference.
pub open spec fn lock_goes_back_to(
    state: TablesState,
    listed: Seq<ObjectKey>,
    reference: ObjectRef,
) -> bool {
    exists|j: int, key: ObjectKey| #[trigger] goes_back_to(state, listed, j, key, reference)
}

/// Every write that takes versions back removes a listed version or its locks, or sets the lock that
/// goes back.
pub proof fn writes_that_take_back(
    state: TablesState,
    first: Seq<ObjectKey>,
    listed: Seq<ObjectKey>,
    i: int,
)
    requires
        0 <= i < state.take_back_ops(first, listed).len(),
        forall|j: int| 0 <= j < first.len() ==> listed.contains(#[trigger] first[j]),
    ensures
        is_write_that_takes_back(state, listed, state.take_back_ops(first, listed)[i]),
    decreases first.len(),
{
    if first.len() > 0 {
        let rest = first.drop_last();
        let version = first.last();
        let done = state.take_back_ops(rest, listed);
        let ops = state.take_back_ops(first, listed);
        let relock = state.relock_ops(version, listed);
        assert forall|j: int| 0 <= j < rest.len() implies listed.contains(#[trigger] rest[j]) by {
            assert(rest[j] == first[j]);
        }
        assert(first[first.len() - 1] == version);
        assert(listed.contains(version));
        if i < done.len() {
            assert(ops[i] == done[i]);
            writes_that_take_back(state, rest, listed, i);
        } else if i == done.len() {
            assert(ops[i] == BatchOp::DeleteObject(version));
        } else {
            assert(ops[i] == relock[i - done.len() - 1]);
            lemma_relock_writes(state, version, listed);
            assert(is_write_that_takes_back(state, listed, relock[i - done.len() - 1]));
        }
    }
}

/// The writes that move the lock of a listed version.
proof fn lemma_relock_writes(state: TablesState, version: ObjectKey, listed: Seq<ObjectKey>)
    requires
        listed.contains(version),
        state.locked(version),
    ensures
        forall|k: int|
            0 <= k < state.relock_ops(version, listed).len() ==> is_write_that_takes_back(
                state,
                listed,
                #[trigger] state.relock_ops(version, listed)[k],
            ),
{
    let relock = state.relock_ops(version, listed);
    a_version_is_locked_by_its_rows(state, version);
    let dropped = BatchOp::DeleteLockRange(
        crate::state::first_lock(version),
        crate::state::last_lock(version),
    );
    assert(relock[0] == dropped);
    assert(ObjectKey(version.0, version.1) == version);
    assert(is_write_that_takes_back(state, listed, dropped));
    if let Some(reference) = state.kept_reference(version, listed) {
        let set = BatchOp::InsertLock(reference, None);
        assert(relock[1] == set);
        lemma_previous_kept(state, version, listed);
        let key = state.previous_kept(version, listed).unwrap();
        assert(newest_older_unlisted(state, version, listed, key));
        let j = choose|j: int| 0 <= j < listed.len() && listed[j] == version;
        assert(goes_back_to(state, listed, j, key, reference));
        assert(lock_goes_back_to(state, listed, reference));
        assert(is_write_that_takes_back(state, listed, set));
    }
}

} // verus!
