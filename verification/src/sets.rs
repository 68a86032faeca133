//! Ordered sets of identifiers and addresses.

use std::collections::{BTreeMap, BTreeSet};

use vstd::prelude::*;
use vstd::std_specs::cmp::OrdSpec;
use vstd::std_specs::iter::IteratorSpec;

verus! {

/// Whether a set holds an identifier.
pub fn has_id(set: &BTreeSet<u128>, id: u128) -> (r: bool)
    ensures
        r == set@.contains(id),
{
    broadcast use vstd::laws_cmp::group_laws_cmp;

    set.contains(&id)
}

/// Puts an identifier into a set, and says whether it was new there.
pub fn insert_id(set: &mut BTreeSet<u128>, id: u128) -> (r: bool)
    ensures
        final(set)@ == old(set)@.insert(id),
        r == !old(set)@.contains(id),
{
    broadcast use vstd::laws_cmp::group_laws_cmp;

    set.insert(id)
}

/// Whether numbers stand in strictly increasing order.
pub open spec fn increasing(s: Seq<u128>) -> bool {
    forall|i: int, j: int| 0 <= i < j < s.len() ==> s[i] < s[j]
}

/// Whether the members of a set can be listed in increasing order.
pub open spec fn listable(s: Set<u128>) -> bool {
    exists|q: Seq<u128>| #[trigger] increasing(q) && q.to_set() == s
}

/// The members of a set in increasing order.
pub open spec fn ascending(s: Set<u128>) -> Seq<u128> {
    choose|q: Seq<u128>| #[trigger] increasing(q) && q.to_set() == s
}

/// Numbers in increasing order are fixed by which they are.
pub proof fn lemma_increasing_unique(a: Seq<u128>, b: Seq<u128>)
    requires
        increasing(a),
        increasing(b),
        a.to_set() == b.to_set(),
    ensures
        a == b,
    decreases a.len(),
{
    if a.len() == 0 {
        if b.len() > 0 {
            assert(b.to_set().contains(b[0]));
            assert(a.to_set().contains(b[0]));
        }
        assert(a =~= b);
    } else {
        assert(a.to_set().contains(a.last()));
        assert(b.to_set().contains(a.last()));
        let j = choose|j: int| 0 <= j < b.len() && b[j] == a.last();
        assert(b.to_set().contains(b.last()));
        assert(a.to_set().contains(b.last()));
        let i = choose|i: int| 0 <= i < a.len() && a[i] == b.last();
        assert(a.last() == b.last());
        let (x, y) = (a.drop_last(), b.drop_last());
        assert(x.to_set() =~= a.to_set().remove(a.last())) by {
            lemma_drop_last_set(a);
        }
        assert(y.to_set() =~= b.to_set().remove(b.last())) by {
            lemma_drop_last_set(b);
        }
        lemma_increasing_unique(x, y);
        assert(a =~= x.push(a.last()));
        assert(b =~= y.push(b.last()));
    }
}

proof fn lemma_drop_last_set(a: Seq<u128>)
    requires
        increasing(a),
        a.len() > 0,
    ensures
        a.drop_last().to_set() == a.to_set().remove(a.last()),
{
    let x = a.drop_last();
    assert forall|v: u128| x.to_set().contains(v) == a.to_set().remove(a.last()).contains(v) by {
        if x.contains(v) {
            let k = choose|k: int| 0 <= k < x.len() && x[k] == v;
            assert(a[k] == v);
            assert(a[k] < a[a.len() - 1]);
        }
        if a.contains(v) && v != a.last() {
            let k = choose|k: int| 0 <= k < a.len() && a[k] == v;
            assert(x[k] == v);
        }
    }
    assert(x.to_set() =~= a.to_set().remove(a.last()));
}

/// Listing the members of a listable set gives just them, in increasing order.
pub proof fn lemma_ascending(s: Set<u128>)
    requires
        listable(s),
    ensures
        increasing(ascending(s)),
        ascending(s).to_set() == s,
        forall|q: Seq<u128>| #[trigger] increasing(q) && q.to_set() == s ==> q == ascending(s),
{
    assert forall|q: Seq<u128>| #[trigger] increasing(q) && q.to_set() == s implies q == ascending(
        s,
    ) by {
        lemma_increasing_unique(q, ascending(s));
    }
}

/// The members of a set of identifiers, in increasing order.
pub fn sorted_ids(set: &BTreeSet<u128>) -> (r: Vec<u128>)
    ensures
        r@.to_set() == set@,
        increasing(r@),
        listable(set@),
        r@ == ascending(set@),
{
    broadcast use vstd::laws_cmp::group_laws_cmp;

    let mut out: Vec<u128> = Vec::new();
    for id in it: set.iter()
        invariant
            it.seq().unref().to_set() == set@,
            vstd::std_specs::btree::increasing_seq(it.seq()),
            out@.len() == it.index(),
            forall|k: int| 0 <= k < it.index() ==> out@[k] == *#[trigger] it.seq()[k],
    {
        out.push(*id);
    }
    proof {
        let all = vstd::std_specs::btree::spec_btree_keys_iter(set).remaining();
        assert(out@ =~= all.unref());
        assert(vstd::laws_cmp::obeys_cmp::<&u128>());
        vstd::std_specs::btree::axiom_increasing_seq_meaning::<&u128>(all);
        assert forall|i: int, j: int| 0 <= i < j < out@.len() implies out@[i] < out@[j] by {
            assert(OrdSpec::cmp_spec(&all[i], &all[j]) is Less);
        }
        assert(increasing(out@));
        lemma_ascending(set@);
    }
    out
}

/// What a map holds for an identifier.
pub fn get_for_id<'a, V>(map: &'a BTreeMap<u128, V>, id: u128) -> (r: Option<&'a V>)
    ensures
        match r {
            Some(v) => map@.contains_key(id) && *v == map@[id],
            None => !map@.contains_key(id),
        },
{
    broadcast use vstd::laws_cmp::group_laws_cmp;

    map.get(&id)
}

/// Lets a map hold a value for an identifier, in place of what it held.
pub fn put_for_id<V>(map: &mut BTreeMap<u128, V>, id: u128, value: V)
    ensures
        final(map)@ == old(map)@.insert(id, value),
{
    broadcast use vstd::laws_cmp::group_laws_cmp;

    map.insert(id, value);
}

/// The entries of a map, by increasing key.
pub fn sorted_entries(map: &BTreeMap<u128, u64>) -> (r: Vec<(u128, u64)>)
    ensures
        forall|i: int, j: int| 0 <= i < j < r@.len() ==> (#[trigger] r@[i]).0 < (#[trigger] r@[j]).0,
        forall|i: int|
            0 <= i < r@.len() ==> map@.contains_key((#[trigger] r@[i]).0) && map@[r@[i].0]
                == r@[i].1,
        forall|id: u128| #[trigger]
            map@.contains_key(id) ==> exists|i: int| 0 <= i < r@.len() && (#[trigger] r@[i]).0 == id,
{
    broadcast use vstd::laws_cmp::group_laws_cmp;

    let mut keys: Vec<u128> = Vec::new();
    for id in it: map.keys()
        invariant
            it.seq().unref().to_set() == map@.dom(),
            vstd::std_specs::btree::increasing_seq(it.seq()),
            keys@.len() == it.index(),
            forall|k: int| 0 <= k < it.index() ==> keys@[k] == *#[trigger] it.seq()[k],
    {
        keys.push(*id);
    }
    let ghost all = vstd::std_specs::btree::spec_keys_iter(map).remaining();
    proof {
        assert(keys@ =~= all.unref());
        assert(vstd::laws_cmp::obeys_cmp::<&u128>());
        vstd::std_specs::btree::axiom_increasing_seq_meaning::<&u128>(all);
        assert forall|i: int, j: int| 0 <= i < j < keys@.len() implies keys@[i] < keys@[j] by {
            assert(OrdSpec::cmp_spec(&all[i], &all[j]) is Less);
        }
        assert(keys@.to_set() == map@.dom());
    }
    entries_for(map, keys)
}

fn entries_for(map: &BTreeMap<u128, u64>, keys: Vec<u128>) -> (r: Vec<(u128, u64)>)
    requires
        increasing(keys@),
        keys@.to_set() == map@.dom(),
    ensures
        forall|i: int, j: int| 0 <= i < j < r@.len() ==> (#[trigger] r@[i]).0 < (#[trigger] r@[j]).0,
        forall|i: int|
            0 <= i < r@.len() ==> map@.contains_key((#[trigger] r@[i]).0) && map@[r@[i].0]
                == r@[i].1,
        forall|id: u128| #[trigger]
            map@.contains_key(id) ==> exists|i: int| 0 <= i < r@.len() && (#[trigger] r@[i]).0 == id,
{
    let mut out: Vec<(u128, u64)> = Vec::new();
    let mut i: usize = 0;
    while i < keys.len()
        invariant
            i <= keys@.len(),
            keys@.to_set() == map@.dom(),
            out@.len() == i,
            forall|k: int|
                0 <= k < i ==> (#[trigger] out@[k]).0 == keys@[k] && map@.contains_key(keys@[k])
                    && map@[keys@[k]] == out@[k].1,
        decreases keys@.len() - i,
    {
        let key = keys[i];
        assert(keys@.to_set().contains(keys@[i as int]));
        match get_for_id(map, key) {
            Some(value) => {
                out.push((key, *value));
            },
            None => {
                assert(false);
            },
        }
        i = i + 1;
    }
    assert forall|id: u128| #[trigger] map@.contains_key(id) implies exists|k: int|
        0 <= k < out@.len() && (#[trigger] out@[k]).0 == id by {
        assert(keys@.to_set().contains(id));
        let k = choose|k: int| 0 <= k < keys@.len() && keys@[k] == id;
        assert(out@[k].0 == id);
    }
    out
}

} // verus!
