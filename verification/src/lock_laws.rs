//! What becomes of locks.

use crate::base_types::{ObjectKey, ObjectRef, TransactionDigest, MAX_VERSION};
use crate::rows::LockDetailsWrapper;
use crate::state::TablesState;
use vstd::prelude::*;

verus! {

/// Dropping the locks of an object version drops just those, but for one with the largest digest.
proof fn lemma_without_locks(
    locks: Map<ObjectRef, Option<LockDetailsWrapper>>,
    object: ObjectKey,
    lock: ObjectRef,
)
    ensures
        ({
            let rest = crate::ordered_table::without_range(
                locks,
                crate::state::first_lock(object),
                crate::state::last_lock(object),
            );
            &&& rest.contains_key(lock) <==> locks.contains_key(lock) && !crate::state::is_lock_of(
                lock,
                object,
            )
            &&& rest.contains_key(lock) ==> rest[lock] == locks[lock]
        }),
{
    crate::locks::lemma_lock_range(lock, object);
}

/// Taking the lock of an object version away leaves no lock of that version but the one that is set
/// for nobody, and touches no other lock.
pub proof fn relocking_moves_the_lock(
    state: TablesState,
    object: ObjectKey,
    reference: ObjectRef,
    lock: ObjectRef,
)
    ensures
        ({
            let before = state.owned_object_transaction_locks;
            let after = state.relocked(object, reference).owned_object_transaction_locks;
            &&& after.contains_key(reference) && after[reference] is None
            &&& crate::state::is_lock_of(lock, object) && lock != reference ==> !after.contains_key(
                lock,
            )
            &&& !crate::state::is_lock_of(lock, object) && lock != reference ==> {
                &&& after.contains_key(lock) <==> before.contains_key(lock)
                &&& after.contains_key(lock) ==> after[lock] == before[lock]
            }
        }),
{
    lemma_without_locks(state.owned_object_transaction_locks, object, lock);
}

/// The lock of an object version goes back to the version before it: the newest one that is older.
/// That one is locked for nobody, and the given version is not locked any more.
pub proof fn lock_goes_back_to_the_previous_version(
    state: TablesState,
    object: ObjectKey,
    reference: ObjectRef,
)
    requires
        state.rows_fit_keys(),
        crate::state::previous_version(state.objects, object) is Some,
        state.relock_reference(object) == Some(reference),
    ensures
        reference.0 == object.0,
        reference.1.0 < object.1.0,
        state.objects.contains_key(crate::base_types::key_of_ref(reference)),
        forall|key: ObjectKey| #[trigger]
            state.objects.contains_key(key) && key.0 == object.0 && key.1.0 < object.1.0
                ==> key.1.0 <= reference.1.0,
        ({
            let after = state.relocked(object, reference);
            &&& after.owned_object_transaction_locks.contains_key(reference)
            &&& after.owned_object_transaction_locks[reference] is None
            &&& !after.locked(object)
        }),
{
    let key = crate::state::previous_version(state.objects, object).unwrap();
    assert(crate::state::is_previous(state.objects, object, key));
    crate::reading_laws::reference_names_its_row(state, key, reference);
    let after = state.relocked(object, reference);
    assert forall|lock: ObjectRef| #[trigger]
        after.owned_object_transaction_locks.contains_key(lock) implies !crate::state::is_lock_of(
        lock,
        object,
    ) by {
        relocking_moves_the_lock(state, object, reference, lock);
    }
}

/// Where there is no version before the given one, the newest version is locked for nobody, and it is
/// the only one of the given version's locks that can be left.
pub proof fn without_a_previous_version_the_newest_is_locked(
    state: TablesState,
    object: ObjectKey,
    reference: ObjectRef,
    lock: ObjectRef,
)
    requires
        state.rows_fit_keys(),
        crate::state::previous_version(state.objects, object) is None,
        state.relock_reference(object) == Some(reference),
    ensures
        state.latest(object.0) == Some(crate::base_types::key_of_ref(reference)),
        ({
            let after = state.relocked(object, reference).owned_object_transaction_locks;
            &&& after.contains_key(reference) && after[reference] is None
            &&& after.contains_key(lock) && crate::state::is_lock_of(lock, object) ==> lock
                == reference
        }),
{
    let key = state.latest(object.0).unwrap();
    assert(crate::state::is_newest_up_to(state.objects, object.0, MAX_VERSION, key));
    crate::reading_laws::reference_names_its_row(state, key, reference);
    relocking_moves_the_lock(state, object, reference, lock);
}

/// A transaction that was taken back can run again: it does not count as executed, and its outputs
/// are gone with their locks. Where an older version of a locked output is left, the newest such
/// version is there as it was, locked for nobody, so that it can be used again. Every other object
/// version is as it was.
pub proof fn taken_back_transaction_can_run_again(
    state: TablesState,
    digest: TransactionDigest,
    objects: Seq<ObjectKey>,
    key: ObjectKey,
    other: TransactionDigest,
)
    requires
        state.rows_fit_keys(),
        state.can_take_back(objects, objects),
    ensures
        ({
            let after = state.taken_back(digest, objects);
            &&& after.effects_of(digest) is None
            &&& !after.executed_effects.contains_key(digest)
            &&& !after.executed_transactions_to_checkpoint.contains_key(digest)
            &&& objects.contains(key) ==> !after.objects.contains_key(key)
            &&& objects.contains(key) ==> !after.locked(key)
            &&& !objects.contains(key) ==> after.read_version(key) == state.read_version(key)
            &&& other != digest ==> after.effects_of(other) == state.effects_of(other)
            &&& after.transactions == state.transactions
            &&& after.effects == state.effects
            &&& forall|i: int|
                0 <= i < objects.len() && state.locked(#[trigger] objects[i])
                    && crate::state::previous_version(after.objects, objects[i]) is Some ==> {
                    let before = crate::state::previous_version(after.objects, objects[i]).unwrap();
                    let reference = state.row_reference(before, state.objects[before]).unwrap();
                    &&& crate::base_types::key_of_ref(reference) == before
                    &&& after.objects[before] == state.objects[before]
                    &&& after.owned_object_transaction_locks.contains_key(reference)
                    &&& after.owned_object_transaction_locks[reference] is None
                }
        }),
{
    let after = state.taken_back(digest, objects);
    assert(objects.to_set().contains(key) <==> objects.contains(key));
    if objects.contains(key) {
        taken_back_versions_are_unlocked(state, digest, objects, key);
    }
    assert forall|i: int|
        0 <= i < objects.len() && state.locked(#[trigger] objects[i])
            && crate::state::previous_version(after.objects, objects[i]) is Some implies {
        let before = crate::state::previous_version(after.objects, objects[i]).unwrap();
        let reference = state.row_reference(before, state.objects[before]).unwrap();
        &&& crate::base_types::key_of_ref(reference) == before
        &&& after.objects[before] == state.objects[before]
        &&& after.owned_object_transaction_locks.contains_key(reference)
        &&& after.owned_object_transaction_locks[reference] is None
    } by {
        let before = crate::state::previous_version(after.objects, objects[i]).unwrap();
        let reference = state.row_reference(before, state.objects[before]).unwrap();
        assert(state.previous_kept(objects[i], objects) == Some(before));
        assert(!state.relock_is_blocked(objects[i], objects));
        lemma_kept_reference(state, objects[i], objects, reference);
        lemma_locks_are_free(state, objects, objects, i);
    }
}

/// The version that a lock goes back to is not taken back, and its reference names it.
proof fn lemma_kept_reference(
    state: TablesState,
    object: ObjectKey,
    taken: Seq<ObjectKey>,
    reference: ObjectRef,
)
    requires
        state.rows_fit_keys(),
        state.kept_reference(object, taken) == Some(reference),
    ensures
        state.previous_kept(object, taken) == Some(crate::base_types::key_of_ref(reference)),
        !taken.contains(crate::base_types::key_of_ref(reference)),
        state.objects.contains_key(crate::base_types::key_of_ref(reference)),
{
    let kept = state.objects.remove_keys(taken.to_set());
    let key = state.previous_kept(object, taken).unwrap();
    assert(crate::state::is_previous(kept, object, key));
    assert(!taken.to_set().contains(key));
    crate::reading_laws::reference_names_its_row(state, key, reference);
}

/// A lock that goes back stays set while the other versions are taken back.
proof fn lemma_locks_are_free(
    state: TablesState,
    first: Seq<ObjectKey>,
    taken: Seq<ObjectKey>,
    i: int,
)
    requires
        state.rows_fit_keys(),
        forall|j: int| 0 <= j < first.len() ==> taken.contains(#[trigger] first[j]),
        0 <= i < first.len(),
        state.locked(first[i]),
        state.kept_reference(first[i], taken) is Some,
    ensures
        ({
            let locks = state.locks_taken_back(first, taken);
            let reference = state.kept_reference(first[i], taken).unwrap();
            locks.contains_key(reference) && locks[reference] is None
        }),
    decreases first.len(),
{
    let rest = first.drop_last();
    let object = first.last();
    let n = first.len() - 1;
    let reference = state.kept_reference(first[i], taken).unwrap();
    assert(first[n] == object);
    if i < n {
        assert forall|j: int| 0 <= j < rest.len() implies taken.contains(#[trigger] rest[j]) by {
            assert(rest[j] == first[j]);
        }
        assert(rest[i] == first[i]);
        lemma_locks_are_free(state, rest, taken, i);
        lemma_kept_reference(state, first[i], taken, reference);
        lemma_without_locks(state.locks_taken_back(rest, taken), object, reference);
        assert(taken.contains(object));
        assert(!crate::state::is_lock_of(reference, object));
    }
}

/// Taking a transaction back keeps every object under its own identity and version.
pub proof fn taking_back_keeps_rows_fitting(
    state: TablesState,
    digest: TransactionDigest,
    objects: Seq<ObjectKey>,
)
    requires
        state.rows_fit_keys(),
    ensures
        state.taken_back(digest, objects).rows_fit_keys(),
{
    let after = state.taken_back(digest, objects);
    assert forall|key: ObjectKey| #[trigger] after.objects.contains_key(key) implies after.row_fits_key(
        key,
        after.objects[key],
    ) by {
        assert(state.objects.contains_key(key));
        assert(state.row_fits_key(key, state.objects[key]));
    }
}

/// The locks of the versions that were taken back so far are gone.
proof fn lemma_locks_are_dropped(
    state: TablesState,
    first: Seq<ObjectKey>,
    taken: Seq<ObjectKey>,
    lock: ObjectRef,
)
    requires
        state.rows_fit_keys(),
        taken.contains(crate::base_types::key_of_ref(lock)),
        lock.2 != crate::base_types::digest_max(),
    ensures
        first.contains(crate::base_types::key_of_ref(lock)) ==> !state.locks_taken_back(
            first,
            taken,
        ).contains_key(lock),
        state.locks_taken_back(first, taken).contains_key(lock)
            ==> state.owned_object_transaction_locks.contains_key(lock),
    decreases first.len(),
{
    if first.len() > 0 {
        let rest = first.drop_last();
        let object = first.last();
        let key = crate::base_types::key_of_ref(lock);
        lemma_locks_are_dropped(state, rest, taken, lock);
        assert(first =~= rest.push(object));
        crate::seq_facts::push_contains(rest, object, key);
        if state.locked(object) {
            lemma_without_locks(state.locks_taken_back(rest, taken), object, lock);
            if let Some(reference) = state.kept_reference(object, taken) {
                lemma_kept_reference(state, object, taken, reference);
                assert(reference != lock);
            }
        }
        if key == object && !state.locked(object) {
            if state.owned_object_transaction_locks.contains_key(lock) {
                assert(crate::state::is_lock_of(lock, object));
                assert(state.locked(object));
            }
        }
    }
}

/// No version that was taken back is locked.
pub proof fn taken_back_versions_are_unlocked(
    state: TablesState,
    digest: TransactionDigest,
    objects: Seq<ObjectKey>,
    key: ObjectKey,
)
    requires
        state.rows_fit_keys(),
        objects.contains(key),
    ensures
        !state.taken_back(digest, objects).locked(key),
{
    let after = state.taken_back(digest, objects);
    assert forall|lock: ObjectRef| #[trigger]
        after.owned_object_transaction_locks.contains_key(lock) implies !crate::state::is_lock_of(
        lock,
        key,
    ) by {
        if crate::state::is_lock_of(lock, key) {
            assert(crate::base_types::key_of_ref(lock) == key);
            lemma_locks_are_dropped(state, objects, objects, lock);
        }
    }
}

/// A lock changes only if it is one of a listed locked output, or of the version that the lock of
/// such an output goes back to.
pub proof fn other_locks_stay(
    state: TablesState,
    digest: TransactionDigest,
    objects: Seq<ObjectKey>,
    lock: ObjectRef,
)
    requires
        forall|i: int|
            0 <= i < objects.len() && state.locked(#[trigger] objects[i]) ==> {
                &&& !crate::state::is_lock_of(lock, objects[i])
                &&& state.kept_reference(objects[i], objects) != Some(lock)
            },
    ensures
        ({
            let before = state.owned_object_transaction_locks;
            let after = state.taken_back(digest, objects).owned_object_transaction_locks;
            &&& after.contains_key(lock) <==> before.contains_key(lock)
            &&& after.contains_key(lock) ==> after[lock] == before[lock]
        }),
{
    lemma_other_locks_stay(state, objects, objects, lock);
}

proof fn lemma_other_locks_stay(
    state: TablesState,
    first: Seq<ObjectKey>,
    taken: Seq<ObjectKey>,
    lock: ObjectRef,
)
    requires
        forall|i: int|
            0 <= i < first.len() && state.locked(#[trigger] first[i]) ==> {
                &&& !crate::state::is_lock_of(lock, first[i])
                &&& state.kept_reference(first[i], taken) != Some(lock)
            },
    ensures
        ({
            let before = state.owned_object_transaction_locks;
            let after = state.locks_taken_back(first, taken);
            &&& after.contains_key(lock) <==> before.contains_key(lock)
            &&& after.contains_key(lock) ==> after[lock] == before[lock]
        }),
    decreases first.len(),
{
    if first.len() > 0 {
        let rest = first.drop_last();
        let object = first.last();
        assert(first[first.len() - 1] == object);
        assert forall|i: int| 0 <= i < rest.len() && state.locked(#[trigger] rest[i]) implies {
            &&& !crate::state::is_lock_of(lock, rest[i])
            &&& state.kept_reference(rest[i], taken) != Some(lock)
        } by {
            assert(rest[i] == first[i]);
        }
        lemma_other_locks_stay(state, rest, taken, lock);
        lemma_without_locks(state.locks_taken_back(rest, taken), object, lock);
    }
}

} // verus!
