//! Facts about sequences that the tables rest on.

use vstd::prelude::*;

verus! {

/// What each element of a sequence gives, one after the other.
pub open spec fn flat<A, B>(s: Seq<A>, f: spec_fn(A) -> Seq<B>) -> Seq<B>
    decreases s.len(),
{
    if s.len() == 0 {
        Seq::empty()
    } else {
        flat(s.drop_last(), f) + f(s.last())
    }
}

/// What one more element of a sequence gives.
pub proof fn flat_take<A, B>(s: Seq<A>, i: int, f: spec_fn(A) -> Seq<B>)
    requires
        0 <= i < s.len(),
    ensures
        flat(s.take(i + 1), f) == flat(s.take(i), f) + f(s[i]),
{
    assert(s.take(i + 1).drop_last() =~= s.take(i));
    assert(s.take(i + 1).last() == s[i]);
}

/// What two sequences give, one after the other.
pub proof fn flat_concat<A, B>(s: Seq<A>, t: Seq<A>, f: spec_fn(A) -> Seq<B>)
    ensures
        flat(s + t, f) == flat(s, f) + flat(t, f),
    decreases t.len(),
{
    if t.len() == 0 {
        assert(s + t =~= s);
        assert(flat(s, f) + flat(t, f) =~= flat(s, f));
    } else {
        flat_concat(s, t.drop_last(), f);
        assert((s + t).drop_last() =~= s + t.drop_last());
        assert((s + t).last() == t.last());
        assert(flat(s + t, f) =~= flat(s, f) + flat(t, f));
    }
}

/// What the elements of a sequence give between them.
pub proof fn flat_contains<A, B>(s: Seq<A>, f: spec_fn(A) -> Seq<B>, y: B)
    ensures
        flat(s, f).contains(y) <==> exists|x: A| #[trigger] s.contains(x) && f(x).contains(y),
    decreases s.len(),
{
    if s.len() > 0 {
        let rest = s.drop_last();
        let last = s.last();
        flat_contains(rest, f, y);
        assert(s =~= rest.push(last));
        concat_contains(flat(rest, f), f(last), y);
        push_contains(rest, last, last);
        if flat(rest, f).contains(y) {
            let x = choose|x: A| #[trigger] rest.contains(x) && f(x).contains(y);
            push_contains(rest, last, x);
            assert(s.contains(x) && f(x).contains(y));
        }
        if f(last).contains(y) {
            assert(s.contains(last) && f(last).contains(y));
        }
        if exists|x: A| #[trigger] s.contains(x) && f(x).contains(y) {
            let x = choose|x: A| #[trigger] s.contains(x) && f(x).contains(y);
            push_contains(rest, last, x);
            if x != last {
                assert(rest.contains(x) && f(x).contains(y));
            }
        }
    }
}

/// What two sequences contain between them.
pub proof fn concat_contains<A>(a: Seq<A>, b: Seq<A>, x: A)
    ensures
        (a + b).contains(x) <==> a.contains(x) || b.contains(x),
{
    let c = a + b;
    if a.contains(x) {
        let i = choose|i: int| 0 <= i < a.len() && a[i] == x;
        assert(c[i] == x);
    }
    if b.contains(x) {
        let i = choose|i: int| 0 <= i < b.len() && b[i] == x;
        assert(c[a.len() + i] == x);
    }
    if c.contains(x) {
        let i = choose|i: int| 0 <= i < c.len() && c[i] == x;
        if i < a.len() {
            assert(a[i] == x);
        } else {
            assert(b[i - a.len()] == x);
        }
    }
}

/// Filtering a sequence that grew by one element.
pub proof fn filter_push<A>(s: Seq<A>, x: A, p: spec_fn(A) -> bool)
    ensures
        s.push(x).filter(p) == if p(x) {
            s.filter(p).push(x)
        } else {
            s.filter(p)
        },
{
    reveal(Seq::filter);
    assert(s.push(x).drop_last() =~= s);
}

/// Filtering one more element of a sequence.
pub proof fn filter_take<A>(s: Seq<A>, i: int, p: spec_fn(A) -> bool)
    requires
        0 <= i < s.len(),
    ensures
        s.take(i + 1).filter(p) == if p(s[i]) {
            s.take(i).filter(p).push(s[i])
        } else {
            s.take(i).filter(p)
        },
{
    assert(s.take(i + 1) =~= s.take(i).push(s[i]));
    filter_push(s.take(i), s[i], p);
}

/// What a filtered sequence contains.
pub proof fn filter_contains<A>(s: Seq<A>, p: spec_fn(A) -> bool, x: A)
    ensures
        s.filter(p).contains(x) <==> s.contains(x) && p(x),
    decreases s.len(),
{
    reveal(Seq::filter);
    if s.len() > 0 {
        let rest = s.drop_last();
        filter_contains(rest, p, x);
        assert(s =~= rest.push(s.last()));
        filter_push(rest, s.last(), p);
        push_contains(rest, s.last(), x);
        push_contains(rest.filter(p), s.last(), x);
    }
}

/// What a sequence contains after it grew by one element.
pub proof fn push_contains<A>(s: Seq<A>, last: A, x: A)
    ensures
        s.push(last).contains(x) <==> s.contains(x) || x == last,
{
    let t = s.push(last);
    if s.contains(x) {
        let i = choose|i: int| 0 <= i < s.len() && s[i] == x;
        assert(t[i] == x);
    }
    if x == last {
        assert(t[s.len() as int] == x);
    }
    if t.contains(x) {
        let i = choose|i: int| 0 <= i < t.len() && t[i] == x;
        if i < s.len() {
            assert(s[i] == x);
        }
    }
}

/// Where the elements that pass a filter stand side by side, the filter cuts them out.
pub proof fn filter_interval<A>(s: Seq<A>, p: spec_fn(A) -> bool, low: int, high: int)
    requires
        0 <= low <= high <= s.len(),
        forall|i: int| 0 <= i < s.len() ==> (p(#[trigger] s[i]) <==> low <= i < high),
    ensures
        s.filter(p) == s.subrange(low, high),
    decreases s.len(),
{
    reveal(Seq::filter);
    if s.len() > 0 {
        let rest = s.drop_last();
        let n = s.len() - 1;
        assert(s =~= rest.push(s.last()));
        filter_push(rest, s.last(), p);
        assert(s[n] == s.last());
        assert forall|i: int| 0 <= i < rest.len() implies (p(#[trigger] rest[i]) <==> low <= i
            < high) by {
            assert(rest[i] == s[i]);
        }
        if high == s.len() && low < high {
            filter_interval(rest, p, low, high - 1);
            assert(rest.subrange(low, high - 1).push(s.last()) =~= s.subrange(low, high));
        } else if low == s.len() {
            filter_interval(rest, p, low - 1, low - 1);
            assert(rest.subrange(low - 1, low - 1) =~= s.subrange(low, high));
        } else {
            filter_interval(rest, p, low, high);
            assert(rest.subrange(low, high) =~= s.subrange(low, high));
        }
    } else {
        assert(s.subrange(low, high) =~= s);
    }
}

/// Filtering keeps the elements apart.
pub proof fn filter_no_duplicates<A>(s: Seq<A>, p: spec_fn(A) -> bool)
    requires
        s.no_duplicates(),
    ensures
        s.filter(p).no_duplicates(),
    decreases s.len(),
{
    reveal(Seq::filter);
    if s.len() > 0 {
        let rest = s.drop_last();
        assert(s =~= rest.push(s.last()));
        assert(rest.no_duplicates());
        filter_no_duplicates(rest, p);
        filter_push(rest, s.last(), p);
        filter_contains(rest, p, s.last());
        if p(s.last()) {
            let f = rest.filter(p);
            assert(!rest.contains(s.last())) by {
                if rest.contains(s.last()) {
                    let i = choose|i: int| 0 <= i < rest.len() && rest[i] == s.last();
                    assert(s[i] == s[s.len() - 1]);
                }
            }
            assert forall|i: int, j: int|
                0 <= i < f.push(s.last()).len() && 0 <= j < f.push(s.last()).len() && i
                    != j implies f.push(s.last())[i] != f.push(s.last())[j] by {
                if i == f.len() {
                    assert(f.contains(f[j]));
                } else if j == f.len() {
                    assert(f.contains(f[i]));
                }
            }
        }
    }
}

/// What a prefix of a sequence gives is no longer than what the whole gives.
pub proof fn flat_prefix_is_shorter<A, B>(s: Seq<A>, i: int, f: spec_fn(A) -> Seq<B>)
    requires
        0 <= i <= s.len(),
    ensures
        flat(s.take(i), f).len() <= flat(s, f).len(),
    decreases s.len() - i,
{
    if i < s.len() {
        flat_take(s, i, f);
        flat_prefix_is_shorter(s, i + 1, f);
    } else {
        assert(s.take(i) =~= s);
    }
}

/// The first element that passes a filter comes first in what the filter leaves.
pub proof fn first_that_passes<A>(s: Seq<A>, i: int, p: spec_fn(A) -> bool)
    requires
        0 <= i < s.len(),
        p(s[i]),
        forall|j: int| 0 <= j < i ==> !p(#[trigger] s[j]),
    ensures
        s.filter(p).len() > 0,
        s.filter(p)[0] == s[i],
    decreases s.len(),
{
    reveal(Seq::filter);
    let rest = s.drop_last();
    assert(s =~= rest.push(s.last()));
    filter_push(rest, s.last(), p);
    if i == s.len() - 1 {
        assert forall|j: int| 0 <= j < rest.len() implies !p(#[trigger] rest[j]) by {
            assert(rest[j] == s[j]);
        }
        filter_interval(rest, p, 0, 0);
    } else {
        assert forall|j: int| 0 <= j < i implies !p(#[trigger] rest[j]) by {
            assert(rest[j] == s[j]);
        }
        first_that_passes(rest, i, p);
    }
}

} // verus!
