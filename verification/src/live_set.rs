//! The live objects: for each object, its newest version, unless that is gone.

use crate::base_types::{ObjectDigest, ObjectID, ObjectKey, ObjectRef, SequenceNumber};
use crate::ordered_table::TableKey;
use crate::error::MgoResult;
use crate::object::Object;
use crate::state::TablesState;
use crate::store_types::{StoreObject, StoreObjectWrapper};
use crate::tables::AuthorityPerpetualTables;
use vstd::prelude::*;

verus! {

/// An object that is alive.
#[derive(Debug, PartialEq, Eq, Hash)]
pub enum LiveObject {
    Normal(Object),
    Wrapped(ObjectKey),
}

impl Clone for LiveObject {
    fn clone(&self) -> (r: Self)
        ensures
            r == *self,
    {
        match self {
            LiveObject::Normal(object) => LiveObject::Normal(object.clone()),
            LiveObject::Wrapped(key) => LiveObject::Wrapped(*key),
        }
    }
}

impl LiveObject {
    /// The reference of the object. That of a wrapped object has the digest that says so.
    pub open spec fn reference(self) -> ObjectRef {
        match self {
            LiveObject::Normal(object) => object.reference(),
            LiveObject::Wrapped(key) => (key.0, key.1, crate::base_types::digest_wrapped()),
        }
    }

    /// The identity of the object.
    pub fn object_id(&self) -> (r: ObjectID)
        ensures
            r == self.reference().0,
    {
        match self {
            LiveObject::Normal(object) => object.id(),
            LiveObject::Wrapped(key) => key.0,
        }
    }

    /// The version of the object.
    pub fn version(&self) -> (r: SequenceNumber)
        ensures
            r == self.reference().1,
    {
        match self {
            LiveObject::Normal(object) => object.version(),
            LiveObject::Wrapped(key) => key.1,
        }
    }

    /// The reference of the object. That of a wrapped object has the digest that says so.
    pub fn object_reference(&self) -> (r: ObjectRef)
        ensures
            r == self.reference(),
    {
        match self {
            LiveObject::Normal(object) => object.compute_object_reference(),
            LiveObject::Wrapped(key) => (key.0, key.1, ObjectDigest::wrapped()),
        }
    }
}

impl TablesState {
    /// Whether a key names the newest version of its object.
    pub open spec fn is_newest_version(self, key: ObjectKey) -> bool {
        &&& self.objects.contains_key(key)
        &&& forall|other: ObjectKey|
            #[trigger] self.objects.contains_key(other) && other.0 == key.0 ==> other.1.0
                <= key.1.0
    }

    /// The newest version of each object, in the order of the objects table.
    pub open spec fn newest_versions(self) -> Seq<ObjectKey> {
        crate::ordered_table::ordered_keys(self.objects).filter(
            |key: ObjectKey| self.is_newest_version(key),
        )
    }

    /// What a row adds to the live objects: an object, or nothing where the object was deleted, or
    /// an error where the object cannot be put together. A wrapped object counts as alive only if
    /// `wrapped_too`.
    pub open spec fn live_row(
        self,
        key: ObjectKey,
        row: StoreObjectWrapper,
        wrapped_too: bool,
    ) -> Seq<Result<LiveObject, ()>> {
        match row.spec_inner() {
            StoreObject::Value(value) => match self.constructed(key, value) {
                Some(object) => seq![Ok(LiveObject::Normal(object))],
                None => seq![Err(())],
            },
            StoreObject::Wrapped => if wrapped_too {
                seq![Ok(LiveObject::Wrapped(key))]
            } else {
                Seq::empty()
            },
            StoreObject::Deleted => Seq::empty(),
        }
    }

    /// The live objects, in the order of the objects table. An error stands where an object cannot
    /// be put together.
    pub open spec fn live_objects(self, wrapped_too: bool) -> Seq<Result<LiveObject, ()>> {
        crate::seq_facts::flat(
            self.newest_versions(),
            |key: ObjectKey| self.live_row(key, self.objects[key], wrapped_too),
        )
    }

    /// The live objects from position `i` of the objects table on.
    spec fn live_from(self, i: int, wrapped_too: bool) -> Seq<Result<LiveObject, ()>>
        decreases crate::ordered_table::ordered_keys(self.objects).len() - i,
    {
        let keys = crate::ordered_table::ordered_keys(self.objects);
        if i < 0 || i >= keys.len() {
            Seq::empty()
        } else if last_of_object(keys, i) {
            self.live_row(keys[i], self.objects[keys[i]], wrapped_too) + self.live_from(
                i + 1,
                wrapped_too,
            )
        } else {
            self.live_from(i + 1, wrapped_too)
        }
    }
}

/// The key at position `i` is the last one of its object.
spec fn last_of_object(keys: Seq<ObjectKey>, i: int) -> bool {
    i + 1 == keys.len() || keys[i + 1].0 != keys[i].0
}

/// In an increasing list the last key of an object is its newest version.
proof fn lemma_last_is_newest(state: TablesState, i: int)
    requires
        crate::ordered_table::lists_keys(
            state.objects,
            crate::ordered_table::ordered_keys(state.objects),
        ),
        0 <= i < crate::ordered_table::ordered_keys(state.objects).len(),
    ensures
        last_of_object(crate::ordered_table::ordered_keys(state.objects), i)
            == state.is_newest_version(crate::ordered_table::ordered_keys(state.objects)[i]),
{
    let keys = crate::ordered_table::ordered_keys(state.objects);
    let key = keys[i];
    assert(keys.contains(key));
    assert(state.objects.contains_key(key));
    if last_of_object(keys, i) {
        assert forall|other: ObjectKey|
            #[trigger] state.objects.contains_key(other) && other.0 == key.0 implies other.1.0
            <= key.1.0 by {
            assert(keys.contains(other));
            let j = choose|j: int| 0 <= j < keys.len() && keys[j] == other;
            if j < i {
                assert(keys[j].rank() < keys[i].rank());
                crate::keys::object_keys_are_grouped(other, key);
            }
            if j > i {
                let next = keys[i + 1];
                assert(keys[i].rank() < keys[i + 1].rank());
                if j > i + 1 {
                    assert(keys[i + 1].rank() < keys[j].rank());
                }
                crate::keys::object_keys_are_grouped(key, next);
                crate::keys::object_keys_are_grouped(next, other);
                ObjectKey::rank_is_injective(next, other);
            }
        }
    } else {
        let next = keys[i + 1];
        assert(keys[i].rank() < keys[i + 1].rank());
        assert(keys.contains(next));
        assert(state.objects.contains_key(next));
        crate::keys::object_keys_are_grouped(key, next);
    }
}

/// What a walk from position `i` on gives.
proof fn lemma_live_from(state: TablesState, i: int, wrapped_too: bool)
    requires
        crate::ordered_table::lists_keys(
            state.objects,
            crate::ordered_table::ordered_keys(state.objects),
        ),
        0 <= i <= crate::ordered_table::ordered_keys(state.objects).len(),
    ensures
        state.live_from(i, wrapped_too) == crate::seq_facts::flat(
            crate::ordered_table::ordered_keys(state.objects).skip(i).filter(
                |key: ObjectKey| state.is_newest_version(key),
            ),
            |key: ObjectKey| state.live_row(key, state.objects[key], wrapped_too),
        ),
    decreases crate::ordered_table::ordered_keys(state.objects).len() - i,
{
    let keys = crate::ordered_table::ordered_keys(state.objects);
    let p = |key: ObjectKey| state.is_newest_version(key);
    let f = |key: ObjectKey| state.live_row(key, state.objects[key], wrapped_too);
    reveal(Seq::filter);
    if i == keys.len() {
        assert(keys.skip(i) =~= Seq::<ObjectKey>::empty());
        assert(crate::seq_facts::flat(Seq::<ObjectKey>::empty(), f) =~= Seq::empty());
    } else {
        lemma_live_from(state, i + 1, wrapped_too);
        lemma_last_is_newest(state, i);
        let one = seq![keys[i]];
        assert(keys.skip(i) =~= one + keys.skip(i + 1));
        Seq::filter_distributes_over_add(one, keys.skip(i + 1), p);
        assert(one =~= Seq::<ObjectKey>::empty().push(keys[i]));
        crate::seq_facts::filter_push(Seq::<ObjectKey>::empty(), keys[i], p);
        assert(Seq::<ObjectKey>::empty().filter(p) =~= Seq::<ObjectKey>::empty());
        assert(one.drop_last() =~= Seq::<ObjectKey>::empty());
        if p(keys[i]) {
            assert(one.filter(p) =~= one);
            crate::seq_facts::flat_concat(one, keys.skip(i + 1).filter(p), f);
            assert(crate::seq_facts::flat(Seq::<ObjectKey>::empty(), f) =~= Seq::empty());
            assert(crate::seq_facts::flat(one, f) =~= f(keys[i]));
        } else {
            assert(one.filter(p) =~= Seq::<ObjectKey>::empty());
            assert(one.filter(p) + keys.skip(i + 1).filter(p) =~= keys.skip(i + 1).filter(p));
        }
    }
}

/// What is alive is what the newest versions show: an object that was put together is alive just
/// if the row of the newest version of some object holds it, and a wrapped object just if wrapped
/// objects count and the newest version of the object is wrapped.
pub proof fn live_objects_are_newest_versions(
    tables: AuthorityPerpetualTables,
    wrapped_too: bool,
    object: LiveObject,
)
    requires
        tables.wf(),
    ensures
        tables@.live_objects(wrapped_too).contains(Ok(object)) <==> exists|key: ObjectKey|
            #[trigger] tables@.is_newest_version(key) && tables@.live_row(
                key,
                tables@.objects[key],
                wrapped_too,
            ) == seq![Ok::<LiveObject, ()>(object)],
{
    let state = tables@;
    let keys = crate::ordered_table::ordered_keys(state.objects);
    let p = |key: ObjectKey| state.is_newest_version(key);
    let f = |key: ObjectKey| state.live_row(key, state.objects[key], wrapped_too);
    let sought: Result<LiveObject, ()> = Ok(object);
    tables.objects.rows_are_contents();
    crate::seq_facts::flat_contains(state.newest_versions(), f, sought);
    if state.live_objects(wrapped_too).contains(sought) {
        let key = choose|key: ObjectKey| #[trigger]
            state.newest_versions().contains(key) && f(key).contains(sought);
        crate::seq_facts::filter_contains(keys, p, key);
        assert(state.is_newest_version(key));
        assert(f(key) =~= seq![sought]);
    }
    if exists|key: ObjectKey| #[trigger]
        state.is_newest_version(key) && f(key) == seq![sought] {
        let key = choose|key: ObjectKey| #[trigger]
            state.is_newest_version(key) && f(key) == seq![sought];
        crate::seq_facts::filter_contains(keys, p, key);
        assert(f(key)[0] == sought);
        assert(state.newest_versions().contains(key) && f(key).contains(sought));
    }
}

/// Where the newest version of every object can be put together, a walk meets no error.
pub proof fn sound_tables_are_walked_without_error(
    tables: AuthorityPerpetualTables,
    wrapped_too: bool,
)
    requires
        tables.wf(),
        forall|key: ObjectKey| #[trigger]
            tables@.is_newest_version(key) ==> tables@.read_version(key) is Ok,
    ensures
        forall|i: int|
            0 <= i < tables@.live_objects(wrapped_too).len() ==> (#[trigger] tables@.live_objects(
                wrapped_too,
            )[i]) is Ok,
{
    let state = tables@;
    let keys = crate::ordered_table::ordered_keys(state.objects);
    let p = |key: ObjectKey| state.is_newest_version(key);
    let f = |key: ObjectKey| state.live_row(key, state.objects[key], wrapped_too);
    let all = state.live_objects(wrapped_too);
    assert forall|i: int| 0 <= i < all.len() implies (#[trigger] all[i]) is Ok by {
        assert(all.contains(all[i]));
        crate::seq_facts::flat_contains(state.newest_versions(), f, all[i]);
        let key = choose|key: ObjectKey| #[trigger]
            state.newest_versions().contains(key) && f(key).contains(all[i]);
        crate::seq_facts::filter_contains(keys, p, key);
        assert(state.is_newest_version(key));
    }
}

/// No object is alive twice: the newest versions belong to different objects, in increasing order.
pub proof fn newest_versions_are_apart(tables: AuthorityPerpetualTables)
    requires
        tables.wf(),
    ensures
        crate::ordered_table::increasing(tables@.newest_versions()),
        forall|i: int, j: int|
            0 <= i < j < tables@.newest_versions().len() ==> (
            #[trigger] tables@.newest_versions()[i]).0 != (
            #[trigger] tables@.newest_versions()[j]).0,
{
    let state = tables@;
    let keys = crate::ordered_table::ordered_keys(state.objects);
    let p = |key: ObjectKey| state.is_newest_version(key);
    let newest = state.newest_versions();
    tables.objects.rows_are_contents();
    crate::ordered_table::filter_keeps_increasing(keys, p);
    assert forall|i: int, j: int| 0 <= i < j < newest.len() implies (#[trigger] newest[i]).0 != (
    #[trigger] newest[j]).0 by {
        crate::seq_facts::filter_contains(keys, p, newest[i]);
        crate::seq_facts::filter_contains(keys, p, newest[j]);
        assert(newest.contains(newest[i]) && newest.contains(newest[j]));
        assert(newest[i].rank() < newest[j].rank());
        if newest[i].0 == newest[j].0 {
            assert(state.objects.contains_key(newest[i]) && state.objects.contains_key(newest[j]));
            assert(newest[i].1.0 == newest[j].1.0);
            assert(newest[i] == newest[j]);
        }
    }
}

/// A walk over the live objects.
pub struct LiveSetIter<'a> {
    tables: &'a AuthorityPerpetualTables,
    /// The position of the next row to look at.
    position: usize,
    /// The row before that, until it is known whether it is the last one of its object.
    prev: Option<(ObjectKey, StoreObjectWrapper)>,
    /// Whether a wrapped object is considered alive.
    include_wrapped_object: bool,
}

impl<'a> LiveSetIter<'a> {
    /// The first position that has not been accounted for.
    closed spec fn settled(&self) -> int {
        if self.prev is Some {
            self.position - 1
        } else {
            self.position as int
        }
    }

    /// The walk is at a place between two rows.
    pub closed spec fn wf(&self) -> bool {
        let rows = self.tables.objects.rows();
        &&& self.tables.wf()
        &&& self.position <= rows.len()
        &&& match self.prev {
            Some(row) => self.position > 0 && row == rows[self.position - 1],
            None => self.position == 0 || self.position == rows.len(),
        }
    }

    /// The live objects that the walk still meets. An error stands where an object cannot be put
    /// together.
    pub closed spec fn remaining(&self) -> Seq<Result<LiveObject, ()>> {
        self.tables@.live_from(self.settled(), self.include_wrapped_object)
    }

    /// The live object that a row gives, if it gives one.
    fn store_object_wrapper_to_live_object(
        &self,
        object_key: ObjectKey,
        store_object: StoreObjectWrapper,
    ) -> (r: MgoResult<Option<LiveObject>>)
        requires
            self.tables.wf(),
        ensures
            self.tables@.live_row(object_key, store_object, self.include_wrapped_object)
                == match r {
                Ok(Some(object)) => seq![Ok::<LiveObject, ()>(object)],
                Ok(None) => Seq::empty(),
                Err(_) => seq![Err(())],
            },
            r matches Err(e) ==> e.is_inconsistent_object(),
    {
        match self.tables.object(&object_key, store_object.clone()) {
            Ok(Some(object)) => Ok(Some(LiveObject::Normal(object))),
            Ok(None) => match store_object.inner() {
                StoreObject::Wrapped => {
                    if self.include_wrapped_object {
                        Ok(Some(LiveObject::Wrapped(object_key)))
                    } else {
                        Ok(None)
                    }
                },
                _ => Ok(None),
            },
            Err(e) => Err(e),
        }
    }

    /// The next live object; `None` once there are no more.
    pub fn next(&mut self) -> (r: Option<LiveObject>)
        requires
            old(self).wf(),
            old(self).remaining().len() > 0 ==> old(self).remaining()[0] is Ok,
        ensures
            final(self).wf(),
            match r {
                Some(object) => {
                    &&& old(self).remaining().len() > 0
                    &&& old(self).remaining()[0] == Ok::<LiveObject, ()>(object)
                    &&& final(self).remaining() == old(self).remaining().drop_first()
                },
                None => {
                    &&& old(self).remaining().len() == 0
                    &&& final(self).remaining().len() == 0
                },
            },
    {
        self.try_next().unwrap()
    }

    /// The next live object; `None` once there are no more; an error where the next one cannot be
    /// put together. The walk can go on after that.
    pub fn try_next(&mut self) -> (r: MgoResult<Option<LiveObject>>)
        requires
            old(self).wf(),
        ensures
            final(self).wf(),
            match r {
                Ok(Some(object)) => {
                    &&& old(self).remaining().len() > 0
                    &&& old(self).remaining()[0] == Ok::<LiveObject, ()>(object)
                    &&& final(self).remaining() == old(self).remaining().drop_first()
                },
                Ok(None) => {
                    &&& old(self).remaining().len() == 0
                    &&& final(self).remaining().len() == 0
                },
                Err(e) => {
                    &&& old(self).remaining().len() > 0
                    &&& old(self).remaining()[0] is Err
                    &&& final(self).remaining() == old(self).remaining().drop_first()
                    &&& e.is_inconsistent_object()
                },
            },
    {
        let ghost rows = self.tables.objects.rows();
        let ghost keys = crate::ordered_table::rows_keys(rows);
        let ghost state = self.tables@;
        let ghost wrapped_too = self.include_wrapped_object;
        let ghost goal = self.remaining();
        proof {
            self.tables.objects.rows_are_contents();
        }
        while self.position < self.tables.objects.len()
            invariant
                self.wf(),
                self.tables == old(self).tables,
                self.include_wrapped_object == wrapped_too,
                rows == self.tables.objects.rows(),
                keys == crate::ordered_table::rows_keys(rows),
                state == self.tables@,
                keys == crate::ordered_table::ordered_keys(state.objects),
                forall|j: int|
                    0 <= j < rows.len() ==> {
                        &&& state.objects.contains_key((#[trigger] rows[j]).0)
                        &&& state.objects[rows[j].0] == rows[j].1
                    },
                self.remaining() == goal,
                goal == old(self).remaining(),
            decreases rows.len() - self.position,
        {
            let here = self.position;
            let row = self.tables.objects.row(here);
            let next_key = row.0;
            let next_value = row.1.clone();
            let prev = self.prev.take();
            self.prev = Some((next_key, next_value));
            self.position = here + 1;
            assert(keys[here as int] == next_key);
            if let Some((prev_key, prev_value)) = prev {
                assert(keys[here - 1] == rows[here - 1].0);
                if prev_key.0 != next_key.0 {
                    assert(last_of_object(keys, here - 1));
                    assert(goal =~= state.live_row(prev_key, prev_value, wrapped_too)
                        + self.remaining());
                    match self.store_object_wrapper_to_live_object(prev_key, prev_value) {
                        Ok(None) => {},
                        found => {
                            assert(goal.drop_first() =~= self.remaining());
                            return found;
                        },
                    }
                }
            }
        }
        let prev = self.prev.take();
        if let Some((key, value)) = prev {
            let ghost last = rows.len() - 1;
            assert(keys[last] == rows[last].0);
            assert(last_of_object(keys, last));
            assert(state.live_from(last + 1, wrapped_too) =~= Seq::empty());
            assert(goal =~= state.live_row(key, value, wrapped_too));
            assert(self.remaining() =~= Seq::empty());
            match self.store_object_wrapper_to_live_object(key, value) {
                Ok(None) => {},
                found => {
                    assert(goal.drop_first() =~= self.remaining());
                    return found;
                },
            }
        }
        Ok(None)
    }
}

impl AuthorityPerpetualTables {
    /// A walk over the live objects. `include_wrapped_object` says whether a wrapped object is
    /// considered alive.
    pub fn iter_live_object_set(&self, include_wrapped_object: bool) -> (r: LiveSetIter<'_>)
        requires
            self.wf(),
        ensures
            r.wf(),
            r.remaining() == self@.live_objects(include_wrapped_object),
    {
        proof {
            self.objects.rows_are_contents();
            lemma_live_from(self@, 0, include_wrapped_object);
            assert(crate::ordered_table::ordered_keys(self@.objects).skip(0)
                =~= crate::ordered_table::ordered_keys(self@.objects));
        }
        LiveSetIter { tables: self, position: 0, prev: None, include_wrapped_object }
    }
}

} // verus!
