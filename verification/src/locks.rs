//! Versions of objects, their locks, and taking back the outputs of a transaction.

use crate::base_types::{
    ObjectDigest, ObjectID, ObjectKey, ObjectRef, SequenceNumber, TransactionDigest, MAX_VERSION,
};
use crate::batch::{Batch, BatchOp};
use crate::ordered_table::{OrderedTable, TableKey};
use crate::error::{MgoError, MgoResult};
use crate::rows::LockDetailsWrapper;
use crate::state::TablesState;
use crate::store_types::StoreObjectWrapper;
use crate::tables::AuthorityPerpetualTables;
use vstd::prelude::*;

verus! {

impl TablesState {
    /// The version that the lock of an object version goes back to: the previous one or, where there
    /// is none, the newest one.
    pub open spec fn relock_version(self, object: ObjectKey) -> Option<ObjectKey> {
        match crate::state::previous_version(self.objects, object) {
            Some(key) => Some(key),
            None => self.latest(object.0),
        }
    }

    /// The reference of the version that the lock of an object version goes back to.
    pub open spec fn relock_reference(self, object: ObjectKey) -> Option<ObjectRef> {
        match self.relock_version(object) {
            Some(key) => self.row_reference(key, self.objects[key]),
            None => None,
        }
    }

    /// The previous version of an object among those that are not taken back.
    pub open spec fn previous_kept(self, object: ObjectKey, taken: Seq<ObjectKey>) -> Option<
        ObjectKey,
    > {
        crate::state::previous_version(self.objects.remove_keys(taken.to_set()), object)
    }

    /// The reference that the lock of an object version goes back to when these versions are taken
    /// back: that of the previous version that is not. `None` if there is none.
    pub open spec fn kept_reference(self, object: ObjectKey, taken: Seq<ObjectKey>) -> Option<
        ObjectRef,
    > {
        match self.previous_kept(object, taken) {
            Some(key) => self.row_reference(key, self.objects[key]),
            None => None,
        }
    }

    /// Whether there is a version that the lock of an object version goes back to, but it cannot be
    /// read.
    pub open spec fn relock_is_blocked(self, object: ObjectKey, taken: Seq<ObjectKey>) -> bool {
        self.previous_kept(object, taken) is Some && self.kept_reference(object, taken) is None
    }

    /// The writes that take the lock of an object version away and lock the previous version that is
    /// kept, if there is one, for nobody.
    pub open spec fn relock_ops(self, object: ObjectKey, taken: Seq<ObjectKey>) -> Seq<BatchOp> {
        let dropped = seq![
            BatchOp::DeleteLockRange(
                crate::state::first_lock(object),
                crate::state::last_lock(object),
            ),
        ];
        match self.kept_reference(object, taken) {
            Some(reference) => dropped.push(BatchOp::InsertLock(reference, None)),
            None => dropped,
        }
    }

    /// The writes that take back the first of the versions `taken`, with their locks.
    pub open spec fn take_back_ops(self, first: Seq<ObjectKey>, taken: Seq<ObjectKey>) -> Seq<
        BatchOp,
    >
        decreases first.len(),
    {
        if first.len() == 0 {
            Seq::empty()
        } else {
            let object = first.last();
            let before = self.take_back_ops(first.drop_last(), taken).push(
                BatchOp::DeleteObject(object),
            );
            if self.locked(object) {
                before + self.relock_ops(object, taken)
            } else {
                before
            }
        }
    }

    /// The tables after the lock of an object version was taken away and another was set for nobody.
    pub open spec fn relocked(self, object: ObjectKey, reference: ObjectRef) -> TablesState {
        TablesState {
            owned_object_transaction_locks: crate::ordered_table::without_range(
                self.owned_object_transaction_locks,
                crate::state::first_lock(object),
                crate::state::last_lock(object),
            ).insert(reference, None),
            ..self
        }
    }

    /// The locks after the first of the versions `taken` were taken back one by one: each locked one
    /// loses its locks, and the previous version that is kept, if there is one, is locked for nobody.
    pub open spec fn locks_taken_back(self, first: Seq<ObjectKey>, taken: Seq<ObjectKey>) -> Map<
        ObjectRef,
        Option<LockDetailsWrapper>,
    >
        decreases first.len(),
    {
        if first.len() == 0 {
            self.owned_object_transaction_locks
        } else {
            let before = self.locks_taken_back(first.drop_last(), taken);
            let object = first.last();
            if self.locked(object) {
                let dropped = crate::ordered_table::without_range(
                    before,
                    crate::state::first_lock(object),
                    crate::state::last_lock(object),
                );
                match self.kept_reference(object, taken) {
                    Some(reference) => dropped.insert(reference, None),
                    None => dropped,
                }
            } else {
                before
            }
        }
    }

    /// The tables after a transaction and its outputs were taken back.
    pub open spec fn taken_back(
        self,
        digest: TransactionDigest,
        objects: Seq<ObjectKey>,
    ) -> TablesState {
        TablesState {
            objects: self.objects.remove_keys(objects.to_set()),
            owned_object_transaction_locks: self.locks_taken_back(objects, objects),
            executed_transactions_to_checkpoint: self.executed_transactions_to_checkpoint.remove(
                digest,
            ),
            executed_effects: self.executed_effects.remove(digest),
            ..self
        }
    }

    /// Whether the lock of every locked one of the first of the versions `taken` can go back.
    pub open spec fn can_take_back(self, first: Seq<ObjectKey>, taken: Seq<ObjectKey>) -> bool {
        forall|i: int|
            0 <= i < first.len() && self.locked(#[trigger] first[i]) ==> !self.relock_is_blocked(
                first[i],
                taken,
            )
    }
}

/// Taking nothing back leaves the previous version as it is.
proof fn lemma_nothing_taken(state: TablesState, object: ObjectKey)
    ensures
        state.previous_kept(object, Seq::empty()) == crate::state::previous_version(
            state.objects,
            object,
        ),
        state.previous_kept(object, Seq::empty()) is Some ==> state.kept_reference(
            object,
            Seq::empty(),
        ) == state.relock_reference(object),
{
    assert(state.objects.remove_keys(Seq::<ObjectKey>::empty().to_set()) =~= state.objects);
}

fn lists_key(list: &[ObjectKey], key: &ObjectKey) -> (r: bool)
    ensures
        r == list@.contains(*key),
{
    let mut i: usize = 0;
    while i < list.len()
        invariant
            i <= list@.len(),
            forall|j: int| 0 <= j < i ==> list@[j] != *key,
        decreases list@.len() - i,
    {
        if list[i] == *key {
            assert(list@[i as int] == *key);
            return true;
        }
        i = i + 1;
    }
    false
}

/// The newer versions that a listing covers.
pub open spec fn is_newer_version(k: ObjectKey, object: (ObjectID, SequenceNumber)) -> bool {
    k.0 == object.0 && object.1.0 < k.1.0 < MAX_VERSION
}

impl AuthorityPerpetualTables {
    /// The versions of an object that are newer than the given one, oldest first. The largest
    /// version is not looked at.
    pub fn get_newer_object_keys(&self, object: &(ObjectID, SequenceNumber)) -> (r: MgoResult<
        Vec<ObjectKey>,
    >)
        requires
            self.wf(),
            object.1.0 < u64::MAX,
        ensures
            r matches Ok(keys) && keys@ == crate::ordered_table::ordered_keys(self@.objects).filter(
                |k: ObjectKey| is_newer_version(k, *object),
            ),
    {
        let lower = ObjectKey(object.0, object.1.next());
        let upper = ObjectKey(object.0, SequenceNumber(MAX_VERSION));
        let start = self.objects.lower_bound(&lower);
        let mut position: usize = start;
        let mut keys: Vec<ObjectKey> = Vec::new();
        let ghost all = crate::ordered_table::rows_keys(self.objects.rows());
        while position < self.objects.len() && self.objects.row(position).0.before(&upper)
            invariant
                self.wf(),
                all == crate::ordered_table::rows_keys(self.objects.rows()),
                start <= position <= self.objects.rows().len(),
                keys@ == all.subrange(start as int, position as int),
                forall|i: int| start <= i < position ==> (#[trigger] all[i]).rank() < upper.rank(),
            decreases self.objects.rows().len() - position,
        {
            keys.push(self.objects.row(position).0);
            assert(all.subrange(start as int, position as int).push(all[position as int])
                =~= all.subrange(start as int, position + 1));
            position = position + 1;
        }
        proof {
            self.objects.rows_are_contents();
            let p = |k: ObjectKey| is_newer_version(k, *object);
            assert forall|i: int| 0 <= i < all.len() implies (p(#[trigger] all[i]) <==> start <= i
                < position) by {
                let k = all[i];
                assert(k == self.objects.rows()[i].0);
                crate::keys::object_keys_are_grouped(k, lower);
                crate::keys::object_keys_are_grouped(lower, k);
                crate::keys::object_keys_are_grouped(k, upper);
                crate::keys::object_keys_are_grouped(upper, k);
                crate::keys::object_keys_are_grouped(lower, upper);
                if i >= position {
                    assert(all[position as int].rank() >= upper.rank());
                    if i > position {
                        assert(all[position as int].rank() < all[i].rank());
                    }
                }
                ObjectKey::rank_is_injective(k, lower);
                ObjectKey::rank_is_injective(k, upper);
            }
            crate::seq_facts::filter_interval(all, p, start as int, position as int);
        }
        Ok(keys)
    }

    /// Whether a lock for this object version exists. A lock with the largest digest is not looked
    /// at.
    pub fn has_object_lock(&self, object: &ObjectKey) -> (r: MgoResult<bool>)
        requires
            self.wf(),
        ensures
            r == Ok::<bool, MgoError>(self@.locked(*object)),
    {
        let lower = (object.0, object.1, ObjectDigest::min_digest());
        let upper = (object.0, object.1, ObjectDigest::max_digest());
        let start = self.owned_object_transaction_locks.lower_bound(&lower);
        let found = start < self.owned_object_transaction_locks.len()
            && self.owned_object_transaction_locks.row(start).0.before(&upper);
        proof {
            let locks = self.owned_object_transaction_locks;
            locks.rows_are_contents();
            let keys = crate::ordered_table::rows_keys(locks.rows());
            if found {
                let lock = locks.rows()[start as int].0;
                lemma_lock_range(lock, *object);
                assert(self@.owned_object_transaction_locks.contains_key(lock));
                assert(self@.locked(*object));
            }
            if self@.locked(*object) {
                let lock = choose|lock: ObjectRef| #[trigger]
                    self@.owned_object_transaction_locks.contains_key(lock)
                        && crate::state::is_lock_of(lock, *object);
                lemma_lock_range(lock, *object);
                assert(keys.contains(lock));
                let i = choose|i: int| 0 <= i < keys.len() && keys[i] == lock;
                assert(locks.rows()[i].0 == lock);
                if i > start {
                    assert(keys[start as int].rank() < keys[i].rank());
                }
            }
        }
        Ok(found)
    }

    /// The row of the previous version of an object among those that are not taken back.
    fn previous_row(&self, object: &ObjectKey, taken: &[ObjectKey]) -> (r: Option<
        &(ObjectKey, StoreObjectWrapper),
    >)
        requires
            self.wf(),
        ensures
            match r {
                Some(row) => {
                    &&& self@.previous_kept(*object, taken@) == Some(row.0)
                    &&& self@.objects.contains_key(row.0)
                    &&& self@.objects[row.0] == row.1
                },
                None => self@.previous_kept(*object, taken@) is None,
            },
    {
        let start = self.objects.lower_bound(object);
        let mut position: usize = start;
        let ghost rows = self.objects.rows();
        let ghost keys = crate::ordered_table::rows_keys(rows);
        let ghost kept = self@.objects.remove_keys(taken@.to_set());
        proof {
            self.objects.rows_are_contents();
        }
        while position > 0
            invariant
                self.wf(),
                rows == self.objects.rows(),
                keys == crate::ordered_table::rows_keys(rows),
                kept == self@.objects.remove_keys(taken@.to_set()),
                crate::ordered_table::lists_keys(self@.objects, keys),
                position <= start <= rows.len(),
                forall|i: int| 0 <= i < start ==> (#[trigger] keys[i]).rank() < object.rank(),
                forall|i: int| start <= i < keys.len() ==> (#[trigger] keys[i]).rank() >= object.rank(),
                forall|i: int|
                    0 <= i < rows.len() ==> {
                        &&& self@.objects.contains_key((#[trigger] rows[i]).0)
                        &&& self@.objects[rows[i].0] == rows[i].1
                    },
                forall|i: int| position <= i < start ==> taken@.contains(#[trigger] keys[i]),
            decreases position,
        {
            position = position - 1;
            let row = self.objects.row(position);
            assert(keys[position as int] == row.0);
            if row.0.0 != object.0 {
                proof {
                    assert forall|k: ObjectKey| !crate::state::is_previous(kept, *object, k) by {
                        if crate::state::is_previous(kept, *object, k) {
                            let i = lemma_place_before(self.objects, *object, k);
                            if i < position {
                                assert(keys[i].rank() < keys[position as int].rank());
                                crate::keys::object_keys_are_grouped(k, row.0);
                                crate::keys::object_keys_are_grouped(row.0, *object);
                            }
                        }
                    }
                }
                return None;
            }
            if !lists_key(taken, &row.0) {
                proof {
                    crate::keys::object_keys_are_grouped(row.0, *object);
                    assert forall|o: ObjectKey| #[trigger]
                        kept.contains_key(o) && o.0 == object.0 && o.1.0 < object.1.0 implies o.1.0
                        <= row.0.1.0 by {
                        let i = lemma_place_before(self.objects, *object, o);
                        if i < position {
                            assert(keys[i].rank() < keys[position as int].rank());
                            crate::keys::object_keys_are_grouped(o, row.0);
                        }
                    }
                    assert(crate::state::is_previous(kept, *object, row.0));
                    crate::state::previous_is_unique(kept, *object, row.0);
                }
                return Some(row);
            }
        }
        proof {
            assert forall|k: ObjectKey| !crate::state::is_previous(kept, *object, k) by {
                if crate::state::is_previous(kept, *object, k) {
                    let i = lemma_place_before(self.objects, *object, k);
                }
            }
        }
        None
    }

    /// The newest version of an object before the given one.
    pub fn previous_version(&self, object: &ObjectKey) -> (r: Option<ObjectKey>)
        requires
            self.wf(),
        ensures
            r == crate::state::previous_version(self@.objects, *object),
    {
        let none: Vec<ObjectKey> = Vec::new();
        proof {
            lemma_nothing_taken(self@, *object);
            assert(none@ =~= Seq::<ObjectKey>::empty());
        }
        match self.previous_row(object, none.as_slice()) {
            Some(row) => Some(row.0),
            None => None,
        }
    }

    /// Adds to a batch the writes that take the lock of an object version away and lock the previous
    /// version for nobody, passing over those that are `taken` back. Where there is none, the lock is
    /// only taken away; so it is where the previous version cannot be read, which is an error.
    fn remove_object_lock_batch(
        &self,
        wb: &mut Batch,
        object: &ObjectKey,
        taken: &[ObjectKey],
    ) -> (r: MgoResult<Option<ObjectRef>>)
        requires
            self.wf(),
        ensures
            match r {
                Ok(reference) => {
                    &&& !self@.relock_is_blocked(*object, taken@)
                    &&& self@.kept_reference(*object, taken@) == reference
                    &&& final(wb)@ == old(wb)@ + self@.relock_ops(*object, taken@)
                },
                Err(e) => {
                    &&& self@.relock_is_blocked(*object, taken@)
                    &&& e.is_inconsistent_object()
                    &&& final(wb)@ == old(wb)@.push(
                        BatchOp::DeleteLockRange(
                            crate::state::first_lock(*object),
                            crate::state::last_lock(*object),
                        ),
                    )
                },
            },
    {
        wb.push(
            BatchOp::DeleteLockRange(
                (object.0, object.1, ObjectDigest::min_digest()),
                (object.0, object.1, ObjectDigest::max_digest()),
            ),
        );
        let reference = match self.previous_row(object, taken) {
            Some(row) => match self.object_reference(&row.0, row.1.clone()) {
                Ok(reference) => Some(reference),
                Err(e) => {
                    return Err(e);
                },
            },
            None => None,
        };
        if let Some(reference) = reference {
            wb.push(BatchOp::InsertLock(reference, None));
        }
        assert(wb@ =~= old(wb)@ + self@.relock_ops(*object, taken@));
        Ok(reference)
    }

    /// Takes the lock of an object version away and locks the previous version for nobody. Where the
    /// tables hold no previous version, the newest one is locked for nobody. Returns the reference of
    /// the version that is locked.
    ///
    /// Used carelessly this corrupts the tables: it is meant for repairs.
    pub fn remove_object_lock_subtle(&mut self, object: &ObjectKey) -> (r: MgoResult<ObjectRef>)
        requires
            old(self).wf(),
            old(self)@.relock_version(*object) is Some,
        ensures
            final(self).wf(),
            match r {
                Ok(reference) => {
                    &&& old(self)@.relock_reference(*object) == Some(reference)
                    &&& final(self)@ == old(self)@.relocked(*object, reference)
                },
                Err(e) => {
                    &&& old(self)@.relock_reference(*object) is None
                    &&& e.is_inconsistent_object()
                    &&& final(self)@ == old(self)@
                },
            },
    {
        match self.relock_batch(object) {
            Ok((wb, reference)) => {
                self.write(&wb);
                Ok(reference)
            },
            Err(e) => Err(e),
        }
    }

    /// The writes that take the lock of an object version away and lock the version that it goes back
    /// to for nobody, with the reference of that version. They must take effect together.
    pub fn relock_batch(&self, object: &ObjectKey) -> (r: MgoResult<(Batch, ObjectRef)>)
        requires
            self.wf(),
            self@.relock_version(*object) is Some,
        ensures
            match r {
                Ok((batch, reference)) => {
                    &&& self@.relock_reference(*object) == Some(reference)
                    &&& batch@ == seq![
                        BatchOp::DeleteLockRange(
                            crate::state::first_lock(*object),
                            crate::state::last_lock(*object),
                        ),
                        BatchOp::InsertLock(reference, None),
                    ]
                    &&& self@.apply_all(batch@) == self@.relocked(*object, reference)
                },
                Err(e) => {
                    &&& self@.relock_reference(*object) is None
                    &&& e.is_inconsistent_object()
                },
            },
    {
        let mut wb = Batch::new();
        let none: Vec<ObjectKey> = Vec::new();
        proof {
            lemma_nothing_taken(self@, *object);
            assert(none@ =~= Seq::<ObjectKey>::empty());
        }
        let previous = match self.remove_object_lock_batch(&mut wb, object, none.as_slice()) {
            Ok(previous) => previous,
            Err(e) => {
                return Err(e);
            },
        };
        let object_ref = match previous {
            Some(reference) => reference,
            None => {
                let newest = match self.get_latest_object_ref_or_tombstone(object.0) {
                    Ok(newest) => newest.unwrap(),
                    Err(e) => {
                        return Err(e);
                    },
                };
                wb.push(BatchOp::InsertLock(newest, None));
                newest
            },
        };
        proof {
            let dropped = BatchOp::DeleteLockRange(
                crate::state::first_lock(*object),
                crate::state::last_lock(*object),
            );
            let set = BatchOp::InsertLock(object_ref, None);
            assert(wb@ =~= seq![dropped, set]);
            lemma_apply_two(self@, dropped, set);
        }
        Ok((wb, object_ref))
    }

    /// Removes the record that a transaction was executed, and the object versions that it put out,
    /// so that it can be executed again. A locked output loses its lock, and the newest older version
    /// of its object that is not taken back itself, if there is one, is locked for nobody. If that
    /// version of some locked output cannot be read, nothing changes.
    ///
    /// Used carelessly this corrupts the tables: it is meant for repairs.
    pub fn remove_executed_effects_and_outputs_subtle(
        &mut self,
        digest: &TransactionDigest,
        objects: &[ObjectKey],
    ) -> (r: MgoResult<()>)
        requires
            old(self).wf(),
        ensures
            final(self).wf(),
            match r {
                Ok(_) => {
                    &&& old(self)@.can_take_back(objects@, objects@)
                    &&& final(self)@ == old(self)@.taken_back(*digest, objects@)
                },
                Err(e) => {
                    &&& !old(self)@.can_take_back(objects@, objects@)
                    &&& e.is_inconsistent_object()
                    &&& final(self)@ == old(self)@
                },
            },
    {
        let wb = match self.take_back_batch(digest, objects) {
            Ok(wb) => wb,
            Err(e) => {
                return Err(e);
            },
        };
        self.write(&wb);
        Ok(())
    }

    /// The writes that remove the record that a transaction was executed, and the object versions
    /// that it put out. They must take effect together.
    pub fn take_back_batch(&self, digest: &TransactionDigest, objects: &[ObjectKey]) -> (r: MgoResult<
        Batch,
    >)
        requires
            self.wf(),
        ensures
            match r {
                Ok(batch) => {
                    &&& self@.can_take_back(objects@, objects@)
                    &&& batch@ == self@.take_back_ops(objects@, objects@) + seq![
                        BatchOp::DeleteExecutedCheckpoint(*digest),
                        BatchOp::DeleteExecutedEffects(*digest),
                    ]
                    &&& self@.apply_all(batch@) == self@.taken_back(*digest, objects@)
                },
                Err(e) => {
                    &&& !self@.can_take_back(objects@, objects@)
                    &&& e.is_inconsistent_object()
                },
            },
    {
        let mut wb = Batch::new();
        let mut position: usize = 0;
        while position < objects.len()
            invariant
                self.wf(),
                position <= objects@.len(),
                wb@ == self@.take_back_ops(objects@.take(position as int), objects@),
                self@.can_take_back(objects@.take(position as int), objects@),
            decreases objects@.len() - position,
        {
            let object = objects[position];
            let ghost done = objects@.take(position as int);
            let ghost more = objects@.take(position + 1);
            assert(more.drop_last() =~= done && more.last() == object);
            wb.push(BatchOp::DeleteObject(object));
            let locked = match self.has_object_lock(&object) {
                Ok(locked) => locked,
                Err(e) => {
                    return Err(e);
                },
            };
            if locked {
                assert(self@.locked(objects@[position as int]));
                match self.remove_object_lock_batch(&mut wb, &object, objects) {
                    Ok(_) => {},
                    Err(e) => {
                        assert(!self@.can_take_back(objects@, objects@));
                        return Err(e);
                    },
                }
            }
            assert(self@.can_take_back(more, objects@)) by {
                assert forall|i: int| 0 <= i < more.len() && self@.locked(#[trigger] more[i]) implies
                    !self@.relock_is_blocked(more[i], objects@) by {
                    if i < position {
                        assert(done[i] == more[i]);
                    }
                }
            }
            position = position + 1;
        }
        assert(objects@.take(position as int) =~= objects@);
        wb.push(BatchOp::DeleteExecutedCheckpoint(*digest));
        wb.push(BatchOp::DeleteExecutedEffects(*digest));
        assert(wb@ =~= self@.take_back_ops(objects@, objects@) + seq![
            BatchOp::DeleteExecutedCheckpoint(*digest),
            BatchOp::DeleteExecutedEffects(*digest),
        ]);
        proof {
            lemma_take_back(self@, *digest, objects@);
        }
        Ok(wb)
    }
}

/// A version before the given one stands before the place of the given one.
proof fn lemma_place_before(
    table: OrderedTable<ObjectKey, StoreObjectWrapper>,
    object: ObjectKey,
    k: ObjectKey,
) -> (i: int)
    requires
        table.wf(),
        table@.contains_key(k),
        k.0 == object.0,
        k.1.0 < object.1.0,
    ensures
        0 <= i < table.rows().len(),
        crate::ordered_table::rows_keys(table.rows())[i] == k,
        k.rank() < object.rank(),
{
    let keys = crate::ordered_table::rows_keys(table.rows());
    table.rows_are_contents();
    assert(keys.contains(k));
    crate::keys::object_keys_are_grouped(object, k);
    ObjectKey::rank_is_injective(object, k);
    choose|i: int| 0 <= i < keys.len() && keys[i] == k
}

/// The locks of an object version fill the range that its removal drops.
pub proof fn lemma_lock_range(lock: ObjectRef, object: ObjectKey)
    ensures
        crate::state::first_lock(object).rank() <= lock.rank() < crate::state::last_lock(
            object,
        ).rank() <==> crate::state::is_lock_of(lock, object),
{
    let low = crate::state::first_lock(object);
    let high = crate::state::last_lock(object);
    crate::keys::lock_keys_are_grouped(lock, low);
    crate::keys::lock_keys_are_grouped(low, lock);
    crate::keys::lock_keys_are_grouped(lock, high);
    crate::keys::lock_keys_are_grouped(high, lock);
    <(ObjectID, SequenceNumber, ObjectDigest)>::rank_is_injective(lock, low);
    <(ObjectID, SequenceNumber, ObjectDigest)>::rank_is_injective(lock, high);
    ObjectKey::rank_is_injective(ObjectKey(lock.0, lock.1), object);
}

/// What taking back the first of the versions `taken` writes.
proof fn lemma_take_back_outputs(
    state: TablesState,
    first: Seq<ObjectKey>,
    taken: Seq<ObjectKey>,
)
    ensures
        state.apply_all(state.take_back_ops(first, taken)) == (TablesState {
            objects: state.objects.remove_keys(first.to_set()),
            owned_object_transaction_locks: state.locks_taken_back(first, taken),
            ..state
        }),
    decreases first.len(),
{
    if first.len() == 0 {
        assert(state.objects.remove_keys(first.to_set()) =~= state.objects);
    } else {
        let rest = first.drop_last();
        let object = first.last();
        let ops = state.take_back_ops(rest, taken);
        let removed = BatchOp::DeleteObject(object);
        lemma_take_back_outputs(state, rest, taken);
        assert(first =~= rest.push(object));
        assert forall|k: ObjectKey| #[trigger]
            first.to_set().contains(k) <==> rest.to_set().contains(k) || k == object by {
            crate::seq_facts::push_contains(rest, object, k);
        }
        assert(state.objects.remove_keys(rest.to_set()).remove(object)
            =~= state.objects.remove_keys(first.to_set()));
        assert(ops.push(removed).drop_last() =~= ops);
        if state.locked(object) {
            let relock = state.relock_ops(object, taken);
            let middle = state.apply_all(ops.push(removed));
            crate::batch::apply_all_concat(state, ops.push(removed), relock);
            if state.kept_reference(object, taken) is Some {
                assert(relock =~= seq![relock[0], relock[1]]);
                lemma_apply_two(middle, relock[0], relock[1]);
            } else {
                assert(relock =~= seq![relock[0]]);
                crate::tables::lemma_apply_one(middle, relock[0]);
            }
        }
    }
}

/// What taking back a transaction writes.
proof fn lemma_take_back(state: TablesState, digest: TransactionDigest, objects: Seq<ObjectKey>)
    ensures
        state.apply_all(
            state.take_back_ops(objects, objects) + seq![
                BatchOp::DeleteExecutedCheckpoint(digest),
                BatchOp::DeleteExecutedEffects(digest),
            ],
        ) == state.taken_back(digest, objects),
{
    let a = BatchOp::DeleteExecutedCheckpoint(digest);
    let b = BatchOp::DeleteExecutedEffects(digest);
    let ops = state.take_back_ops(objects, objects);
    crate::batch::apply_all_concat(state, ops, seq![a, b]);
    lemma_take_back_outputs(state, objects, objects);
    lemma_apply_two(state.apply_all(ops), a, b);
}

/// A batch with two writes does the first, then the second.
pub proof fn lemma_apply_two(state: TablesState, a: BatchOp, b: BatchOp)
    ensures
        state.apply_all(seq![a, b]) == state.apply(a).apply(b),
{
    assert(seq![a, b].drop_last() =~= seq![a]);
    crate::tables::lemma_apply_one(state, a);
}

} // verus!
