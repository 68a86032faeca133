//! Stable sorting by a total order.

use vstd::prelude::*;

verus! {

/// Values that stand in a total order, in which different values may be level.
pub trait Ranked: Sized {
    /// Whether the value comes no later than another.
    spec fn no_later(self, other: Self) -> bool;

    /// Of two values, one comes no later than the other.
    proof fn lemma_total(a: Self, b: Self)
        ensures
            a.no_later(b) || b.no_later(a),
    ;

    /// What comes no later than a value comes no later than what follows that value.
    proof fn lemma_transitive(a: Self, b: Self, c: Self)
        requires
            a.no_later(b),
            b.no_later(c),
        ensures
            a.no_later(c),
    ;
}

/// Values of which a program can tell the order.
pub trait Sortable: Ranked {
    /// Whether the value comes no later than another.
    fn is_no_later(&self, other: &Self) -> (r: bool)
        ensures
            r == self.no_later(*other),
    ;
}

/// Whether values stand in order.
pub open spec fn in_order<T: Ranked>(s: Seq<T>) -> bool {
    forall|i: int, j: int| 0 <= i < j < s.len() ==> (#[trigger] s[i]).no_later(#[trigger] s[j])
}

/// A value put into an ordered sequence, behind everything that comes no later than it.
pub open spec fn placed<T: Ranked>(s: Seq<T>, x: T) -> Seq<T>
    decreases s.len(),
{
    if s.len() == 0 || s.last().no_later(x) {
        s.push(x)
    } else {
        placed(s.drop_last(), x).push(s.last())
    }
}

/// The values in order, level ones as they stood.
pub open spec fn stable_sorted<T: Ranked>(s: Seq<T>) -> Seq<T>
    decreases s.len(),
{
    if s.len() == 0 {
        s
    } else {
        placed(stable_sorted(s.drop_last()), s.last())
    }
}

proof fn lemma_placed<T: Ranked>(s: Seq<T>, x: T)
    requires
        in_order(s),
    ensures
        in_order(placed(s, x)),
        placed(s, x).len() == s.len() + 1,
        placed(s, x).to_multiset() == s.to_multiset().insert(x),
        forall|i: int|
            0 <= i < placed(s, x).len() ==> (#[trigger] placed(s, x)[i] == x || s.contains(
                placed(s, x)[i],
            )),
    decreases s.len(),
{
    broadcast use vstd::seq_lib::group_to_multiset_ensures;

    let r = placed(s, x);
    if s.len() == 0 || s.last().no_later(x) {
        assert forall|i: int, j: int| 0 <= i < j < r.len() implies (#[trigger] r[i]).no_later(
            #[trigger] r[j],
        ) by {
            if j == s.len() && i < s.len() - 1 {
                T::lemma_transitive(s[i], s.last(), x);
            }
        }
        assert forall|i: int| 0 <= i < r.len() implies (#[trigger] r[i] == x || s.contains(
            r[i],
        )) by {
            if i < s.len() {
                assert(s[i] == r[i]);
            }
        }
    } else {
        let d = s.drop_last();
        lemma_placed(d, x);
        T::lemma_total(s.last(), x);
        let p = placed(d, x);
        assert forall|i: int, j: int| 0 <= i < j < r.len() implies (#[trigger] r[i]).no_later(
            #[trigger] r[j],
        ) by {
            if j == p.len() {
                assert(r[i] == p[i]);
                if p[i] != x {
                    let k = choose|k: int| 0 <= k < d.len() && d[k] == p[i];
                    assert(s[k] == p[i]);
                    assert(s[s.len() - 1] == s.last());
                }
            }
        }
        assert forall|i: int| 0 <= i < r.len() implies (#[trigger] r[i] == x || s.contains(
            r[i],
        )) by {
            if i < p.len() {
                assert(r[i] == p[i]);
                if p[i] != x {
                    let k = choose|k: int| 0 <= k < d.len() && d[k] == p[i];
                    assert(s[k] == p[i]);
                }
            } else {
                assert(s[s.len() - 1] == r[i]);
            }
        }
        assert(s =~= d.push(s.last()));
        assert(r.to_multiset() =~= s.to_multiset().insert(x));
    }
}

/// Sorting keeps the values and puts them in order.
pub proof fn lemma_stable_sorted<T: Ranked>(s: Seq<T>)
    ensures
        in_order(stable_sorted(s)),
        stable_sorted(s).len() == s.len(),
        stable_sorted(s).to_multiset() == s.to_multiset(),
    decreases s.len(),
{
    broadcast use vstd::seq_lib::group_to_multiset_ensures;

    if s.len() > 0 {
        lemma_stable_sorted(s.drop_last());
        lemma_placed(stable_sorted(s.drop_last()), s.last());
        assert(s =~= s.drop_last().push(s.last()));
        assert(stable_sorted(s).to_multiset() =~= s.to_multiset());
    }
}

/// Sorting what is in order changes nothing.
pub proof fn lemma_sorted_is_fixed<T: Ranked>(s: Seq<T>)
    requires
        in_order(s),
    ensures
        stable_sorted(s) == s,
    decreases s.len(),
{
    if s.len() > 0 {
        let d = s.drop_last();
        lemma_sorted_is_fixed(d);
        if d.len() > 0 {
            assert(s[s.len() - 2].no_later(s[s.len() - 1]));
        }
        assert(stable_sorted(s) =~= s);
    }
}

/// Sorting commutes with a change of representation that keeps the order.
pub proof fn lemma_sorted_map<A: Ranked, B: Ranked>(s: Seq<A>, f: spec_fn(A) -> B)
    requires
        forall|x: A, y: A| #[trigger] f(x).no_later(f(y)) == x.no_later(y),
    ensures
        stable_sorted(s.map_values(f)) == stable_sorted(s).map_values(f),
    decreases s.len(),
{
    if s.len() > 0 {
        let d = s.drop_last();
        lemma_sorted_map(d, f);
        assert(s.map_values(f).drop_last() =~= d.map_values(f));
        lemma_placed_map(stable_sorted(d), s.last(), f);
    } else {
        assert(s.map_values(f) =~= stable_sorted(s).map_values(f));
    }
}

proof fn lemma_placed_map<A: Ranked, B: Ranked>(s: Seq<A>, x: A, f: spec_fn(A) -> B)
    requires
        forall|x: A, y: A| #[trigger] f(x).no_later(f(y)) == x.no_later(y),
    ensures
        placed(s.map_values(f), f(x)) == placed(s, x).map_values(f),
    decreases s.len(),
{
    if s.len() == 0 || s.last().no_later(x) {
        assert(s.len() > 0 ==> f(s.last()).no_later(f(x)));
        assert(placed(s.map_values(f), f(x)) =~= placed(s, x).map_values(f));
    } else {
        let d = s.drop_last();
        assert(!f(s.last()).no_later(f(x)));
        lemma_placed_map(d, x, f);
        assert(s.map_values(f).drop_last() =~= d.map_values(f));
        assert(placed(s.map_values(f), f(x)) =~= placed(s, x).map_values(f));
    }
}

/// Puts values in order; level ones keep the order in which they stood.
pub fn stable_sort<T: Sortable>(values: &mut Vec<T>)
    ensures
        final(values)@ == stable_sorted(old(values)@),
        in_order(final(values)@),
        final(values)@.to_multiset() == old(values)@.to_multiset(),
{
    let ghost all = values@;
    let mut sorted: Vec<T> = Vec::new();
    let count = values.len();
    let mut taken: usize = 0;
    assert(all.take(0) =~= Seq::<T>::empty());
    assert(all.skip(0) =~= all);
    while taken < count
        invariant
            taken <= count,
            count == all.len(),
            values@ == all.skip(taken as int),
            sorted@ == stable_sorted(all.take(taken as int)),
        decreases count - taken,
    {
        let x = values.remove(0);
        assert(values@ =~= all.skip(taken + 1));
        assert(x == all[taken as int]);
        let mut place = sorted.len();
        let ghost goal = placed(sorted@, x);
        proof {
            assert(sorted@.take(place as int) =~= sorted@);
            assert(sorted@.skip(place as int) =~= Seq::<T>::empty());
            assert(placed(sorted@, x) + Seq::<T>::empty() =~= goal);
        }
        while place > 0 && !sorted[place - 1].is_no_later(&x)
            invariant
                place <= sorted@.len(),
                placed(sorted@.take(place as int), x) + sorted@.skip(place as int) == goal,
            decreases place,
        {
            let ghost t = sorted@.take(place as int);
            assert(t.drop_last() =~= sorted@.take(place - 1));
            assert(t.last() == sorted@[place - 1]);
            assert(sorted@.skip(place - 1) =~= seq![t.last()] + sorted@.skip(place as int));
            assert(placed(t, x) == placed(t.drop_last(), x).push(t.last()));
            assert(placed(t.drop_last(), x) + sorted@.skip(place - 1) =~= goal);
            place = place - 1;
        }
        proof {
            let t = sorted@.take(place as int);
            if t.len() > 0 {
                assert(t.last() == sorted@[place - 1]);
            }
            assert(placed(t, x) == t.push(x));
            assert(sorted@.insert(place as int, x) =~= goal);
            let next = all.take(taken + 1);
            assert(next.drop_last() =~= all.take(taken as int));
            assert(next.last() == x);
            assert(stable_sorted(next) == goal);
        }
        sorted.insert(place, x);
        taken = taken + 1;
    }
    assert(all.take(taken as int) =~= all);
    *values = sorted;
    proof {
        lemma_stable_sorted(all);
    }
}

/// Values without the repetitions of their neighbours.
pub open spec fn without_repeats<T>(s: Seq<T>) -> Seq<T>
    decreases s.len(),
{
    if s.len() <= 1 {
        s
    } else if s[s.len() - 2] == s.last() {
        without_repeats(s.drop_last())
    } else {
        without_repeats(s.drop_last()).push(s.last())
    }
}

/// What is left of ordered values without repetitions holds the same values, each once.
pub proof fn lemma_without_repeats<T: Ranked>(s: Seq<T>)
    requires
        in_order(s),
        forall|a: T, b: T| a.no_later(b) && b.no_later(a) ==> a == b,
    ensures
        in_order(without_repeats(s)),
        without_repeats(s).no_duplicates(),
        without_repeats(s).to_set() == s.to_set(),
        s.len() > 0 ==> without_repeats(s).len() > 0 && without_repeats(s).last() == s.last(),
    decreases s.len(),
{
    if s.len() > 1 {
        let d = s.drop_last();
        lemma_without_repeats(d);
        let w = without_repeats(d);
        let r = without_repeats(s);
        assert(d.last() == s[s.len() - 2]);
        assert(d.to_set().insert(s.last()) =~= s.to_set()) by {
            assert forall|x: T| s.contains(x) implies d.contains(x) || x == s.last() by {
                let k = choose|k: int| 0 <= k < s.len() && s[k] == x;
                if k < d.len() {
                    assert(d[k] == x);
                }
            }
            assert forall|x: T| d.contains(x) implies s.contains(x) by {
                let k = choose|k: int| 0 <= k < d.len() && d[k] == x;
                assert(s[k] == x);
            }
            assert(s.contains(s.last()));
        }
        if s[s.len() - 2] == s.last() {
            assert(d.contains(d[d.len() - 1]));
            assert(d.to_set().insert(s.last()) =~= d.to_set());
        } else {
            assert(s[s.len() - 2].no_later(s[s.len() - 1]));
            assert forall|i: int| 0 <= i < w.len() implies (#[trigger] w[i]).no_later(s.last())
                && w[i] != s.last() by {
                assert(w.to_set().contains(w[i]));
                assert(d.to_set().contains(w[i]));
                let k = choose|k: int| 0 <= k < d.len() && d[k] == w[i];
                assert(s[k].no_later(s[s.len() - 1]));
                if w[i] == s.last() {
                    if k < s.len() - 2 {
                        assert(s[k].no_later(s[s.len() - 2]));
                    }
                }
            }
            assert(r.to_set() =~= w.to_set().insert(s.last())) by {
                assert forall|x: T| r.contains(x) implies w.contains(x) || x == s.last() by {
                    let k = choose|k: int| 0 <= k < r.len() && r[k] == x;
                    if k < w.len() {
                        assert(w[k] == x);
                    }
                }
                assert forall|x: T| w.contains(x) implies r.contains(x) by {
                    let k = choose|k: int| 0 <= k < w.len() && w[k] == x;
                    assert(r[k] == x);
                }
                assert(r[w.len() as int] == s.last());
            }
        }
    }
}

/// What holds no repetitions is left as it is.
pub proof fn lemma_no_repeats_is_fixed<T>(s: Seq<T>)
    requires
        s.no_duplicates(),
    ensures
        without_repeats(s) == s,
    decreases s.len(),
{
    if s.len() > 1 {
        lemma_no_repeats_is_fixed(s.drop_last());
        assert(s.drop_last().push(s.last()) =~= s);
    }
}

} // verus!
