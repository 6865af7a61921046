//! What is alive, told from what each version reads as.

use crate::base_types::{Bytes32, ObjectKey};
use crate::live_set::LiveObject;
use crate::object::Object;
use crate::state::TablesState;
use crate::store_types::{StoreObject, StoreObjectWrapper};
use crate::tables::AuthorityPerpetualTables;
use vstd::prelude::*;

verus! {

/// Of the stored versions of its object, `key` has the highest number.
pub open spec fn has_the_highest_number(state: TablesState, key: ObjectKey) -> bool {
    &&& state.objects.dom().contains(key)
    &&& forall|other: ObjectKey|
        #![trigger state.objects.dom().contains(other)]
        state.objects.dom().contains(other) && other.0 == key.0 ==> !(other.1.0 > key.1.0)
}

/// The row of a version says that its object is wrapped in another.
pub open spec fn is_wrapped_there(state: TablesState, key: ObjectKey) -> bool {
    state.objects[key] == StoreObjectWrapper::V1(StoreObject::Wrapped)
}

/// Thirty-two bytes come before others just if they do so byte by byte.
pub open spec fn bytes_come_before(a: Bytes32, b: Bytes32) -> bool {
    a.hi < b.hi || (a.hi == b.hi && a.lo < b.lo)
}

/// `found` is what the walk shows for a version: the object that it reads as; an error where it
/// cannot be read; or, where it reads as nothing, a wrapped object, which must be asked for.
pub open spec fn shows(
    state: TablesState,
    key: ObjectKey,
    wrapped_too: bool,
    found: Result<LiveObject, ()>,
) -> bool {
    match state.read_version(key) {
        Ok(Some(object)) => found == Ok::<LiveObject, ()>(LiveObject::Normal(object)),
        Ok(None) => {
            &&& wrapped_too
            &&& is_wrapped_there(state, key)
            &&& found == Ok::<LiveObject, ()>(LiveObject::Wrapped(key))
        },
        Err(_) => found == Err::<LiveObject, ()>(()),
    }
}

/// What each element gives is at most one thing: then the whole is what the elements that give
/// something give, in their order.
proof fn lemma_flat_of_few<A, B>(s: Seq<A>, f: spec_fn(A) -> Seq<B>)
    requires
        forall|x: A| (#[trigger] f(x)).len() <= 1,
    ensures
        ({
            let givers = s.filter(|x: A| f(x).len() > 0);
            &&& crate::seq_facts::flat(s, f).len() == givers.len()
            &&& forall|i: int|
                0 <= i < givers.len() ==> crate::seq_facts::flat(s, f)[i] == f(
                    #[trigger] givers[i],
                )[0]
        }),
    decreases s.len(),
{
    let p = |x: A| f(x).len() > 0;
    reveal(Seq::filter);
    if s.len() > 0 {
        let rest = s.drop_last();
        let last = s.last();
        lemma_flat_of_few(rest, f);
        assert(s =~= rest.push(last));
        crate::seq_facts::filter_push(rest, last, p);
        assert(f(last).len() <= 1);
        if p(last) {
            let givers = rest.filter(p).push(last);
            assert forall|i: int| 0 <= i < givers.len() implies crate::seq_facts::flat(s, f)[i] == f(
                #[trigger] givers[i],
            )[0] by {
                if i < rest.filter(p).len() {
                    assert(givers[i] == rest.filter(p)[i]);
                }
            }
        } else {
            assert(crate::seq_facts::flat(s, f) =~= crate::seq_facts::flat(rest, f));
        }
    }
}

/// A version is the newest one of its object just if none has a higher number.
proof fn lemma_newest(state: TablesState, key: ObjectKey)
    ensures
        state.is_newest_version(key) <==> has_the_highest_number(state, key),
{
    if has_the_highest_number(state, key) {
        assert forall|other: ObjectKey| #[trigger]
            state.objects.contains_key(other) && other.0 == key.0 implies other.1.0 <= key.1.0 by {
            assert(state.objects.dom().contains(other));
        }
    }
    if state.is_newest_version(key) {
        assert forall|other: ObjectKey|
            #![trigger state.objects.dom().contains(other)]
            state.objects.dom().contains(other) && other.0 == key.0 implies !(other.1.0
            > key.1.0) by {
            assert(state.objects.contains_key(other));
        }
    }
}

/// The walk over the live objects, position by position: it stands for a list of versions, each the
/// newest of its object, in the order of their objects; at each position it shows what that version
/// reads as; and every newest version that has something to show is in the list.
pub proof fn the_walk_shows_what_the_newest_versions_read_as(
    tables: AuthorityPerpetualTables,
    wrapped_too: bool,
) -> (keys: Seq<ObjectKey>)
    requires
        tables.wf(),
    ensures
        keys.len() == tables@.live_objects(wrapped_too).len(),
        forall|i: int|
            0 <= i < keys.len() ==> {
                &&& has_the_highest_number(tables@, #[trigger] keys[i])
                &&& shows(tables@, keys[i], wrapped_too, tables@.live_objects(wrapped_too)[i])
            },
        forall|i: int, j: int|
            0 <= i < j < keys.len() ==> bytes_come_before(
                (#[trigger] keys[i]).0.0,
                (#[trigger] keys[j]).0.0,
            ),
        forall|key: ObjectKey|
            #![trigger tables@.objects.contains_key(key)]
            has_the_highest_number(tables@, key) && (tables@.read_version(key) != Ok::<
                Option<Object>,
                (),
            >(None) || (wrapped_too && is_wrapped_there(tables@, key))) ==> keys.contains(key),
{
    let state = tables@;
    let all = crate::ordered_table::ordered_keys(state.objects);
    let p = |key: ObjectKey| state.is_newest_version(key);
    let f = |key: ObjectKey| state.live_row(key, state.objects[key], wrapped_too);
    let q = |key: ObjectKey| f(key).len() > 0;
    let newest = state.newest_versions();
    let keys = newest.filter(q);
    tables.objects.rows_are_contents();
    crate::ordered_table::filter_keeps_increasing(all, p);
    crate::ordered_table::filter_keeps_increasing(newest, q);
    lemma_flat_of_few(newest, f);
    assert forall|i: int| 0 <= i < keys.len() implies {
        &&& has_the_highest_number(state, #[trigger] keys[i])
        &&& shows(state, keys[i], wrapped_too, state.live_objects(wrapped_too)[i])
    } by {
        assert(keys.contains(keys[i]));
        crate::seq_facts::filter_contains(newest, q, keys[i]);
        crate::seq_facts::filter_contains(all, p, keys[i]);
        lemma_newest(state, keys[i]);
        assert(state.objects.contains_key(keys[i]));
        assert(state.live_objects(wrapped_too)[i] == f(keys[i])[0]);
        let row = state.objects[keys[i]];
        assert(row == StoreObjectWrapper::V1(row.spec_inner()));
    }
    assert forall|i: int, j: int| 0 <= i < j < keys.len() implies bytes_come_before(
        (#[trigger] keys[i]).0.0,
        (#[trigger] keys[j]).0.0,
    ) by {
        assert(has_the_highest_number(state, keys[i]) && has_the_highest_number(state, keys[j]));
        crate::keys::object_keys_are_grouped(keys[i], keys[j]);
        assert(state.objects.dom().contains(keys[i]) && state.objects.dom().contains(keys[j]));
    }
    assert forall|key: ObjectKey|
        #![trigger state.objects.contains_key(key)]
        has_the_highest_number(state, key) && (state.read_version(key) != Ok::<Option<Object>, ()>(
            None,
        ) || (wrapped_too && is_wrapped_there(state, key))) implies keys.contains(key) by {
        lemma_newest(state, key);
        crate::seq_facts::filter_contains(all, p, key);
        crate::seq_facts::filter_contains(newest, q, key);
    }
    keys
}

/// A version that is the newest of its object and reads as an object is alive, whatever the object
/// is; one that cannot be read shows as an error; one that is wrapped is alive if wrapped objects
/// count.
pub proof fn what_reads_as_an_object_is_alive(
    tables: AuthorityPerpetualTables,
    wrapped_too: bool,
    key: ObjectKey,
    object: Object,
)
    requires
        tables.wf(),
        has_the_highest_number(tables@, key),
    ensures
        tables@.read_version(key) == Ok::<Option<Object>, ()>(Some(object))
            ==> tables@.live_objects(wrapped_too).contains(
            Ok::<LiveObject, ()>(LiveObject::Normal(object)),
        ),
        tables@.read_version(key) is Err ==> tables@.live_objects(wrapped_too).contains(
            Err::<LiveObject, ()>(()),
        ),
        wrapped_too && is_wrapped_there(tables@, key) ==> tables@.live_objects(
            wrapped_too,
        ).contains(Ok::<LiveObject, ()>(LiveObject::Wrapped(key))),
{
    let live = tables@.live_objects(wrapped_too);
    let keys = the_walk_shows_what_the_newest_versions_read_as(tables, wrapped_too);
    assert(tables@.objects.contains_key(key));
    if keys.contains(key) {
        let i = choose|i: int| 0 <= i < keys.len() && keys[i] == key;
        assert(shows(tables@, keys[i], wrapped_too, live[i]));
        assert(live.contains(live[i]));
    }
}

/// Nothing else is alive: an object that the walk shows is what the newest version of some object
/// reads as, and a wrapped one is the newest version of its object, asked for and wrapped.
pub proof fn what_is_alive_is_a_newest_version(
    tables: AuthorityPerpetualTables,
    wrapped_too: bool,
    i: int,
)
    requires
        tables.wf(),
        0 <= i < tables@.live_objects(wrapped_too).len(),
    ensures
        match tables@.live_objects(wrapped_too)[i] {
            Ok(LiveObject::Normal(object)) => exists|key: ObjectKey| #[trigger]
                has_the_highest_number(tables@, key) && tables@.read_version(key) == Ok::<
                    Option<Object>,
                    (),
                >(Some(object)),
            Ok(LiveObject::Wrapped(key)) => wrapped_too && has_the_highest_number(tables@, key)
                && is_wrapped_there(tables@, key),
            Err(_) => exists|key: ObjectKey| #[trigger]
                has_the_highest_number(tables@, key) && tables@.read_version(key) is Err,
        },
{
    let keys = the_walk_shows_what_the_newest_versions_read_as(tables, wrapped_too);
    assert(has_the_highest_number(tables@, keys[i]));
    assert(shows(tables@, keys[i], wrapped_too, tables@.live_objects(wrapped_too)[i]));
}

/// A live object goes by the identity and version that it holds, and by its own digest; a wrapped one
/// by those of its key, and by the digest that repeats the byte 88.
pub proof fn live_objects_go_by_their_references(object: Object, key: ObjectKey)
    ensures
        LiveObject::Normal(object).reference() == (
            object.spec_id(),
            object.spec_version(),
            object.digest,
        ),
        LiveObject::Wrapped(key).reference().0 == key.0,
        LiveObject::Wrapped(key).reference().1 == key.1,
        LiveObject::Wrapped(key).reference().2.0.hi == 0x5858_5858_5858_5858_5858_5858_5858_5858,
        LiveObject::Wrapped(key).reference().2.0.lo == 0x5858_5858_5858_5858_5858_5858_5858_5858,
{
}

} // verus!
