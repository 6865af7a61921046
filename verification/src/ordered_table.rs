//! An ordered table: what one column of the store holds, in the order in which it is walked.

use vstd::prelude::*;

verus! {

/// A key that a table can be ordered by.
///
/// `rank` places every key on one line; distinct keys have distinct places.
pub trait TableKey: Sized {
    /// The place of the key in the order of the table.
    spec fn rank(self) -> int;

    /// Keys with the same place are the same key.
    proof fn rank_is_injective(a: Self, b: Self)
        ensures
            a.rank() == b.rank() ==> a == b,
    ;

    /// Whether this key comes before another.
    fn before(&self, other: &Self) -> (r: bool)
        ensures
            r == (self.rank() < other.rank()),
    ;
}

/// The keys of a sequence of rows stand in strictly increasing order.
pub open spec fn increasing<K: TableKey>(keys: Seq<K>) -> bool {
    forall|i: int, j: int|
        0 <= i < j < keys.len() ==> (#[trigger] keys[i]).rank() < (#[trigger] keys[j]).rank()
}

/// `keys` lists the keys of `m`, each once, in increasing order.
pub open spec fn lists_keys<K: TableKey, V>(m: Map<K, V>, keys: Seq<K>) -> bool {
    &&& increasing(keys)
    &&& forall|k: K| #[trigger] m.contains_key(k) <==> keys.contains(k)
}

/// The keys of a finite map in increasing order: the order in which a table is walked.
pub open spec fn ordered_keys<K: TableKey, V>(m: Map<K, V>) -> Seq<K> {
    choose|keys: Seq<K>| lists_keys(m, keys)
}

/// Two increasing listings of the same keys are equal.
pub proof fn increasing_listing_is_unique<K: TableKey, V>(m: Map<K, V>, a: Seq<K>, b: Seq<K>)
    requires
        lists_keys(m, a),
        lists_keys(m, b),
    ensures
        a == b,
    decreases a.len(),
{
    if a.len() == 0 {
        if b.len() > 0 {
            assert(b.contains(b[0]));
            assert(m.contains_key(b[0]));
        }
        assert(a =~= b);
    } else if b.len() == 0 {
        assert(a.contains(a[0]));
        assert(m.contains_key(a[0]));
        assert(false);
    } else {
        let x = a.last();
        let y = b.last();
        assert(a.contains(x) && b.contains(y));
        assert(m.contains_key(x) && m.contains_key(y));
        let i = choose|i: int| 0 <= i < b.len() && b[i] == x;
        let j = choose|j: int| 0 <= j < a.len() && a[j] == y;
        assert(x == y) by {
            if i < b.len() - 1 {
                assert(b[i].rank() < b[b.len() - 1].rank());
                if j < a.len() - 1 {
                    assert(a[j].rank() < a[a.len() - 1].rank());
                }
            }
        }
        let smaller = m.remove(x);
        assert(lists_keys(smaller, a.drop_last())) by {
            lemma_drop_last_lists(m, a);
        }
        assert(lists_keys(smaller, b.drop_last())) by {
            lemma_drop_last_lists(m, b);
        }
        increasing_listing_is_unique(smaller, a.drop_last(), b.drop_last());
        assert(a =~= a.drop_last().push(x));
        assert(b =~= b.drop_last().push(y));
    }
}

/// Keys in order occur once each.
pub proof fn increasing_has_no_duplicates<K: TableKey>(keys: Seq<K>)
    requires
        increasing(keys),
    ensures
        keys.no_duplicates(),
{
    assert forall|i: int, j: int| 0 <= i < keys.len() && 0 <= j < keys.len() && i != j implies keys[i]
        != keys[j] by {
        if i < j {
            assert(keys[i].rank() < keys[j].rank());
        } else {
            assert(keys[j].rank() < keys[i].rank());
        }
    }
}

/// Filtering keeps keys in order.
pub proof fn filter_keeps_increasing<K: TableKey>(keys: Seq<K>, p: spec_fn(K) -> bool)
    requires
        increasing(keys),
    ensures
        increasing(keys.filter(p)),
    decreases keys.len(),
{
    reveal(Seq::filter);
    if keys.len() > 0 {
        let rest = keys.drop_last();
        let last = keys.last();
        assert(keys =~= rest.push(last));
        assert(increasing(rest));
        filter_keeps_increasing(rest, p);
        crate::seq_facts::filter_push(rest, last, p);
        let kept = rest.filter(p);
        assert forall|i: int| 0 <= i < kept.len() implies (#[trigger] kept[i]).rank()
            < last.rank() by {
            assert(kept.contains(kept[i]));
            crate::seq_facts::filter_contains(rest, p, kept[i]);
            let j = choose|j: int| 0 <= j < rest.len() && rest[j] == kept[i];
            assert(keys[j].rank() < keys[keys.len() - 1].rank());
        }
    }
}

proof fn lemma_drop_last_lists<K: TableKey, V>(m: Map<K, V>, keys: Seq<K>)
    requires
        lists_keys(m, keys),
        keys.len() > 0,
    ensures
        lists_keys(m.remove(keys.last()), keys.drop_last()),
{
    let last = keys.last();
    let rest = keys.drop_last();
    let smaller = m.remove(last);
    assert(increasing(rest));
    assert forall|k: K| #[trigger] smaller.contains_key(k) <==> rest.contains(k) by {
        if smaller.contains_key(k) {
            assert(m.contains_key(k));
            let i = choose|i: int| 0 <= i < keys.len() && keys[i] == k;
            assert(rest[i] == k);
        }
        if rest.contains(k) {
            let i = choose|i: int| 0 <= i < rest.len() && rest[i] == k;
            assert(keys[i] == k);
            assert(keys.contains(k));
            assert(m.contains_key(k));
            assert(keys[i].rank() < keys[keys.len() - 1].rank());
        }
    }
}

/// Whether one of the rows has this key.
pub open spec fn rows_have<K, V>(rows: Seq<(K, V)>, k: K) -> bool {
    exists|i: int| 0 <= i < rows.len() && (#[trigger] rows[i]).0 == k
}

/// The value in a row with this key.
pub open spec fn rows_value<K, V>(rows: Seq<(K, V)>, k: K) -> V {
    rows[choose|i: int| 0 <= i < rows.len() && (#[trigger] rows[i]).0 == k].1
}

/// The map that a sequence of rows describes.
pub open spec fn rows_map<K, V>(rows: Seq<(K, V)>) -> Map<K, V> {
    Map::new(|k: K| rows_have(rows, k), |k: K| rows_value(rows, k))
}

/// The keys of the rows, in their order.
pub open spec fn rows_keys<K, V>(rows: Seq<(K, V)>) -> Seq<K> {
    Seq::new(rows.len(), |i: int| rows[i].0)
}

/// The rows stand in strictly increasing order of their keys.
pub open spec fn rows_increasing<K: TableKey, V>(rows: Seq<(K, V)>) -> bool {
    forall|i: int, j: int|
        0 <= i < j < rows.len() ==> (#[trigger] rows[i]).0.rank() < (#[trigger] rows[j]).0.rank()
}

/// In increasing rows each row is the one that its key finds.
proof fn lemma_row_is_found<K: TableKey, V>(rows: Seq<(K, V)>, i: int)
    requires
        rows_increasing(rows),
        0 <= i < rows.len(),
    ensures
        rows_map(rows).contains_key(rows[i].0),
        rows_map(rows)[rows[i].0] == rows[i].1,
{
    let k = rows[i].0;
    assert(rows_have(rows, k));
    let j = choose|j: int| 0 <= j < rows.len() && (#[trigger] rows[j]).0 == k;
    assert(rows[j].0 == k);
    if i < j {
        assert(rows[i].0.rank() < rows[j].0.rank());
    }
    if j < i {
        assert(rows[j].0.rank() < rows[i].0.rank());
    }
}

/// A table ordered by its keys.
#[derive(Debug)]
pub struct OrderedTable<K, V> {
    rows: Vec<(K, V)>,
}

impl<K: TableKey, V> View for OrderedTable<K, V> {
    type V = Map<K, V>;

    closed spec fn view(&self) -> Map<K, V> {
        rows_map(self.rows@)
    }
}

impl<K: TableKey, V> OrderedTable<K, V> {
    /// The rows are in order, so every key occurs once.
    pub closed spec fn wf(&self) -> bool {
        rows_increasing(self.rows@)
    }

    /// The rows, in the order in which the table is walked.
    pub closed spec fn rows(&self) -> Seq<(K, V)> {
        self.rows@
    }

    /// What the order of the rows says of the contents of the table.
    pub proof fn rows_are_contents(&self)
        requires
            self.wf(),
        ensures
            lists_keys(self@, rows_keys(self.rows())),
            ordered_keys(self@) == rows_keys(self.rows()),
            self@.dom().finite(),
            forall|i: int|
                0 <= i < self.rows().len() ==> {
                    &&& self@.contains_key((#[trigger] self.rows()[i]).0)
                    &&& self@[self.rows()[i].0] == self.rows()[i].1
                },
    {
        let rows = self.rows@;
        let keys = rows_keys(rows);
        assert forall|i: int| 0 <= i < rows.len() implies {
            &&& self@.contains_key((#[trigger] rows[i]).0)
            &&& self@[rows[i].0] == rows[i].1
        } by {
            lemma_row_is_found(rows, i);
        }
        assert forall|k: K| #[trigger] self@.contains_key(k) <==> keys.contains(k) by {
            if self@.contains_key(k) {
                let i = choose|i: int| 0 <= i < rows.len() && (#[trigger] rows[i]).0 == k;
                assert(keys[i] == k);
            }
            if keys.contains(k) {
                let i = choose|i: int| 0 <= i < keys.len() && keys[i] == k;
                assert(rows[i].0 == k);
            }
        }
        assert(lists_keys(self@, keys));
        increasing_listing_is_unique(self@, keys, ordered_keys(self@));
        assert(self@.dom() =~= keys.to_set());
        vstd::seq_lib::seq_to_set_is_finite(keys);
    }

    /// A table without rows.
    pub fn new() -> (r: Self)
        ensures
            r.wf(),
            r@ == Map::<K, V>::empty(),
    {
        let r = OrderedTable { rows: Vec::new() };
        assert(r@ =~= Map::<K, V>::empty());
        r
    }

    /// The number of rows.
    pub fn len(&self) -> (r: usize)
        ensures
            r == self.rows().len(),
    {
        self.rows.len()
    }

    /// Whether the table has no rows.
    pub fn is_empty(&self) -> (r: bool)
        requires
            self.wf(),
        ensures
            r == (self@ == Map::<K, V>::empty()),
    {
        proof {
            self.rows_are_contents();
            if self.rows@.len() > 0 {
                assert(self@.contains_key(self.rows@[0].0));
            } else {
                assert(self@ =~= Map::<K, V>::empty());
            }
        }
        self.rows.len() == 0
    }

    /// The row at a position in the order of the table.
    pub fn row(&self, position: usize) -> (r: &(K, V))
        requires
            position < self.rows().len(),
        ensures
            *r == self.rows()[position as int],
    {
        &self.rows[position]
    }

    /// The position of the first row whose key does not come before `key`.
    pub fn lower_bound(&self, key: &K) -> (r: usize)
        requires
            self.wf(),
        ensures
            r <= self.rows().len(),
            forall|i: int| 0 <= i < r ==> (#[trigger] self.rows()[i]).0.rank() < key.rank(),
            forall|i: int|
                r <= i < self.rows().len() ==> (#[trigger] self.rows()[i]).0.rank() >= key.rank(),
    {
        let mut low: usize = 0;
        let mut high: usize = self.rows.len();
        while low < high
            invariant
                self.wf(),
                low <= high <= self.rows@.len(),
                forall|i: int| 0 <= i < low ==> (#[trigger] self.rows@[i]).0.rank() < key.rank(),
                forall|i: int|
                    high <= i < self.rows@.len() ==> (#[trigger] self.rows@[i]).0.rank()
                        >= key.rank(),
            decreases high - low,
        {
            let middle: usize = low + (high - low) / 2;
            if self.rows[middle].0.before(key) {
                assert forall|i: int| 0 <= i < middle + 1 implies (
                #[trigger] self.rows@[i]).0.rank() < key.rank() by {
                    if i < middle {
                        assert(self.rows@[i].0.rank() < self.rows@[middle as int].0.rank());
                    }
                }
                low = middle + 1;
            } else {
                assert forall|i: int| middle <= i < self.rows@.len() implies (
                #[trigger] self.rows@[i]).0.rank() >= key.rank() by {
                    if i > middle {
                        assert(self.rows@[middle as int].0.rank() < self.rows@[i].0.rank());
                    }
                }
                high = middle;
            }
        }
        low
    }

    /// The position of the row with this key.
    fn position_of(&self, key: &K) -> (r: Option<usize>)
        requires
            self.wf(),
        ensures
            match r {
                Some(i) => i < self.rows@.len() && self.rows@[i as int].0 == *key,
                None => !self@.contains_key(*key),
            },
    {
        let position = self.lower_bound(key);
        if position < self.rows.len() && !key.before(&self.rows[position].0) {
            proof {
                K::rank_is_injective(*key, self.rows@[position as int].0);
            }
            Some(position)
        } else {
            proof {
                if self@.contains_key(*key) {
                    let i = choose|i: int|
                        0 <= i < self.rows@.len() && (#[trigger] self.rows@[i]).0 == *key;
                    assert(self.rows()[i].0 == *key);
                    if position < i {
                        assert(self.rows@[position as int].0.rank() < self.rows@[i].0.rank());
                    }
                }
            }
            None
        }
    }

    /// The value kept under `key`.
    pub fn get(&self, key: &K) -> (r: Option<&V>)
        requires
            self.wf(),
        ensures
            match r {
                Some(v) => self@.contains_key(*key) && *v == self@[*key],
                None => !self@.contains_key(*key),
            },
    {
        match self.position_of(key) {
            Some(i) => {
                proof {
                    lemma_row_is_found(self.rows@, i as int);
                }
                Some(&self.rows[i].1)
            },
            None => None,
        }
    }

    /// Whether a value is kept under `key`.
    pub fn contains_key(&self, key: &K) -> (r: bool)
        requires
            self.wf(),
        ensures
            r == self@.contains_key(*key),
    {
        self.get(key).is_some()
    }

    /// Keeps `value` under `key`, in place of what was kept there.
    pub fn insert(&mut self, key: K, value: V)
        requires
            old(self).wf(),
        ensures
            final(self).wf(),
            final(self)@ == old(self)@.insert(key, value),
    {
        let position = self.lower_bound(&key);
        let ghost before = self.rows@;
        if position < self.rows.len() && !key.before(&self.rows[position].0) {
            proof {
                K::rank_is_injective(key, self.rows@[position as int].0);
            }
            self.rows.remove(position);
            self.rows.insert(position, (key, value));
            assert(self.rows@ =~= before.update(position as int, (key, value)));
        } else {
            self.rows.insert(position, (key, value));
            assert(self.rows@ =~= before.insert(position as int, (key, value)));
        }
        let ghost after = self.rows@;
        proof {
            assert(after[position as int] == (key, value));
            let grown = after.len() - before.len();
            assert(grown == 0 || grown == 1);
            assert forall|i: int| position < i < after.len() implies after[i] == (
            #[trigger] before[i - grown]) by {}
            assert forall|i: int, j: int| 0 <= i < j < after.len() implies (
            #[trigger] after[i]).0.rank() < (#[trigger] after[j]).0.rank() by {
                if i < position {
                    assert(after[i] == before[i]);
                }
                if j > position {
                    assert(after[j] == before[j - grown]);
                }
                if i > position {
                    assert(after[i] == before[i - grown]);
                }
                if j < position {
                    assert(after[j] == before[j]);
                }
            }
            assert(rows_increasing(after));
            assert(rows_map(after) =~= rows_map(before).insert(key, value)) by {
                lemma_row_is_found(after, position as int);
                let expected = rows_map(before).insert(key, value);
                assert forall|k: K|
                    #![trigger rows_map(after).dom().contains(k)]
                    #![trigger expected.dom().contains(k)]
                    {
                        &&& rows_map(after).dom().contains(k) == expected.dom().contains(k)
                        &&& expected.dom().contains(k) ==> rows_map(after)[k] == expected[k]
                    } by {
                    if k != key && rows_have(before, k) {
                        let i = choose|i: int|
                            0 <= i < before.len() && (#[trigger] before[i]).0 == k;
                        let j = if i < position { i } else { i + grown };
                        assert(after[j] == before[i]);
                        lemma_row_is_found(after, j);
                        lemma_row_is_found(before, i);
                    }
                    if k != key && rows_have(after, k) {
                        let j = choose|j: int| 0 <= j < after.len() && (#[trigger] after[j]).0 == k;
                        let i = if j < position { j } else { j - grown };
                        assert(after[j] == before[i]);
                    }
                }
            }
        }
    }

    /// Drops the row at a position.
    fn remove_at(&mut self, position: usize)
        requires
            old(self).wf(),
            position < old(self).rows@.len(),
        ensures
            final(self).wf(),
            final(self).rows@ == old(self).rows@.remove(position as int),
            final(self)@ == old(self)@.remove(old(self).rows@[position as int].0),
    {
        let ghost before = self.rows@;
        self.rows.remove(position);
        proof {
            let after = self.rows@;
            let key = before[position as int].0;
            assert(after =~= before.remove(position as int));
            assert forall|i: int| 0 <= i < after.len() implies (#[trigger] after[i]) == before[if i
                < position {
                i
            } else {
                i + 1
            }] by {}
            assert(rows_increasing(after));
            assert(rows_map(after) =~= rows_map(before).remove(key)) by {
                assert(!rows_have(after, key)) by {
                    if rows_have(after, key) {
                        let j = choose|j: int| 0 <= j < after.len() && (#[trigger] after[j]).0 == key;
                        let i = if j < position { j } else { j + 1 };
                        assert(after[j] == before[i]);
                        if i < position {
                            assert(before[i].0.rank() < before[position as int].0.rank());
                        } else {
                            assert(before[position as int].0.rank() < before[i].0.rank());
                        }
                    }
                }
                let expected = rows_map(before).remove(key);
                assert forall|k: K|
                    #![trigger rows_map(after).dom().contains(k)]
                    #![trigger expected.dom().contains(k)]
                    {
                        &&& rows_map(after).dom().contains(k) == expected.dom().contains(k)
                        &&& expected.dom().contains(k) ==> rows_map(after)[k] == expected[k]
                    } by {
                    if k != key && rows_have(before, k) {
                        let i = choose|i: int|
                            0 <= i < before.len() && (#[trigger] before[i]).0 == k;
                        let j = if i < position { i } else { i - 1 };
                        assert(after[j] == before[i]);
                        lemma_row_is_found(after, j);
                        lemma_row_is_found(before, i);
                    }
                    if k != key && rows_have(after, k) {
                        let j = choose|j: int| 0 <= j < after.len() && (#[trigger] after[j]).0 == k;
                        let i = if j < position { j } else { j + 1 };
                        assert(after[j] == before[i]);
                    }
                }
            }
        }
    }

    /// Drops what is kept under `key`.
    pub fn remove(&mut self, key: &K)
        requires
            old(self).wf(),
        ensures
            final(self).wf(),
            final(self)@ == old(self)@.remove(*key),
    {
        match self.position_of(key) {
            Some(i) => self.remove_at(i),
            None => {
                assert(self@ =~= old(self)@.remove(*key));
            },
        }
    }

    /// Drops every row from `from` up to, and without, `to`.
    pub fn remove_range(&mut self, from: &K, to: &K)
        requires
            old(self).wf(),
        ensures
            final(self).wf(),
            final(self)@ == without_range(old(self)@, *from, *to),
    {
        let position = self.lower_bound(from);
        let ghost before = self@;
        proof {
            assert(without_range(before, *from, *to) =~= without_range(self@, *from, *to));
        }
        while position < self.rows.len() && self.rows[position].0.before(to)
            invariant
                self.wf(),
                position <= self.rows@.len(),
                forall|i: int|
                    0 <= i < position ==> (#[trigger] self.rows@[i]).0.rank() < from.rank(),
                forall|i: int|
                    position <= i < self.rows@.len() ==> (#[trigger] self.rows@[i]).0.rank()
                        >= from.rank(),
                without_range(before, *from, *to) == without_range(self@, *from, *to),
            decreases self.rows@.len(),
        {
            let ghost rows = self.rows@;
            let ghost current = self@;
            self.remove_at(position);
            proof {
                assert forall|i: int| 0 <= i < self.rows@.len() implies (#[trigger] self.rows@[i])
                    == rows[if i < position {
                    i
                } else {
                    i + 1
                }] by {}
                assert(without_range(current, *from, *to) =~= without_range(self@, *from, *to));
            }
        }
        proof {
            assert forall|k: K| #[trigger] self@.contains_key(k) implies !(from.rank() <= k.rank()
                < to.rank()) by {
                let i = choose|i: int|
                    0 <= i < self.rows@.len() && (#[trigger] self.rows@[i]).0 == k;
                if i > position {
                    assert(self.rows@[position as int].0.rank() < self.rows@[i].0.rank());
                }
            }
            assert(self@ =~= without_range(self@, *from, *to));
        }
    }

    /// Drops every row.
    pub fn clear(&mut self)
        ensures
            final(self).wf(),
            final(self)@ == Map::<K, V>::empty(),
    {
        self.rows.clear();
        assert(self@ =~= Map::<K, V>::empty());
    }
}

/// The map without the keys from `from` up to, and without, `to`.
pub open spec fn without_range<K: TableKey, V>(m: Map<K, V>, from: K, to: K) -> Map<K, V> {
    m.remove_keys(Set::new(|k: K| from.rank() <= k.rank() < to.rank()))
}

} // verus!
