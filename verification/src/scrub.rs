//! JSON documents without the members that change by themselves.

use vstd::prelude::*;
use vstd::string::*;

use crate::json::{
    append_array, array_items, json_array, json_items, json_members, json_quoted, json_string,
    object_members, pair_texts,
};
use crate::text::{join, joined, push_text, same_text, texts};

verus! {

/// The characters of some words.
pub open spec fn word_texts(list: Seq<&str>) -> Seq<Seq<char>> {
    list.map_values(|s: &str| s@)
}

/// Words as texts of their own.
pub fn words(list: &[&str]) -> (r: Vec<String>)
    ensures
        texts(r@) == word_texts(list@),
{
    let mut out: Vec<String> = Vec::new();
    let mut i: usize = 0;
    while i < list.len()
        invariant
            i <= list@.len(),
            texts(out@) =~= word_texts(list@).take(i as int),
        decreases list@.len() - i,
    {
        push_text(&mut out, list[i].to_owned());
        assert(word_texts(list@).take(i + 1) =~= word_texts(list@).take(i as int).push(
            list@[i as int]@,
        ));
        i = i + 1;
    }
    assert(word_texts(list@).take(i as int) =~= word_texts(list@));
    out
}

/// Whether a text is one of some words.
pub fn is_one_of(list: &[&str], s: &str) -> (r: bool)
    ensures
        r == word_texts(list@).contains(s@),
{
    let mut i: usize = 0;
    while i < list.len()
        invariant
            i <= list@.len(),
            forall|k: int| 0 <= k < i ==> (#[trigger] word_texts(list@)[k]) != s@,
        decreases list@.len() - i,
    {
        assert(word_texts(list@)[i as int] == list@[i as int]@);
        if same_text(list[i], s) {
            return true;
        }
        i = i + 1;
    }
    false
}

/// Whether a text is among some.
pub fn has_text(list: &[String], s: &str) -> (r: bool)
    ensures
        r == texts(list@).contains(s@),
{
    let mut i: usize = 0;
    while i < list.len()
        invariant
            i <= list@.len(),
            forall|k: int| 0 <= k < i ==> (#[trigger] texts(list@)[k]) != s@,
        decreases list@.len() - i,
    {
        assert(texts(list@)[i as int] == list@[i as int]@);
        if same_text(list[i].as_str(), s) {
            return true;
        }
        i = i + 1;
    }
    false
}

/// How deeply a JSON document may be nested.
pub const JSON_DEPTH: u32 = 128;

/// The steady members of an object, written as JSON.
pub open spec fn steady_members(
    members: Seq<(Seq<char>, Seq<char>)>,
    volatile: Seq<Seq<char>>,
    depth: nat,
) -> Seq<Seq<char>>
    decreases depth, members.len(),
{
    if members.len() == 0 {
        Seq::empty()
    } else {
        let rest = steady_members(members.drop_last(), volatile, depth);
        let (key, value) = members.last();
        if volatile.contains(key) {
            rest
        } else {
            rest.push(json_quoted(key) + ":"@ + steady_json(value, volatile, depth))
        }
    }
}

/// The items of an array without volatile members.
pub open spec fn steady_items(
    items: Seq<Seq<char>>,
    volatile: Seq<Seq<char>>,
    depth: nat,
) -> Seq<Seq<char>>
    decreases depth, items.len(),
{
    if items.len() == 0 {
        Seq::empty()
    } else {
        steady_items(items.drop_last(), volatile, depth).push(
            steady_json(items.last(), volatile, depth),
        )
    }
}

/// A JSON document without volatile members, down to a depth.
pub open spec fn steady_json(s: Seq<char>, volatile: Seq<Seq<char>>, depth: nat) -> Seq<char>
    decreases depth, 0nat,
{
    if depth == 0 {
        s
    } else {
        match json_members(s) {
            Some(members) => "{"@ + joined(
                steady_members(members, volatile, (depth - 1) as nat),
                ","@,
            )
                + "}"@,
            None => match json_items(s) {
                Some(items) => json_array(steady_items(items, volatile, (depth - 1) as nat)),
                None => s,
            },
        }
    }
}

fn scrub_members(members: &[(String, String)], volatile: &[&str], depth: u32) -> (r: Vec<String>)
    ensures
        texts(r@) == steady_members(pair_texts(members@), word_texts(volatile@), depth as nat),
    decreases depth, members@.len(), 1nat,
{
    let ghost all = pair_texts(members@);
    let mut out: Vec<String> = Vec::new();
    let mut i: usize = 0;
    assert(all.take(0) =~= Seq::<(Seq<char>, Seq<char>)>::empty());
    assert(texts(out@) =~= Seq::<Seq<char>>::empty());
    while i < members.len()
        invariant
            i <= members@.len(),
            all == pair_texts(members@),
            texts(out@) == steady_members(
                all.take(i as int),
                word_texts(volatile@),
                depth as nat,
            ),
        decreases members@.len() - i,
    {
        let ghost next = all.take(i + 1);
        assert(next.drop_last() =~= all.take(i as int));
        assert(next.last() == (members@[i as int].0@, members@[i as int].1@));
        if !is_one_of(volatile, members[i].0.as_str()) {
            let mut member = json_string(members[i].0.as_str());
            member.append(":");
            member.append(scrub(members[i].1.as_str(), volatile, depth).as_str());
            push_text(&mut out, member);
        }
        i = i + 1;
    }
    assert(all.take(i as int) =~= all);
    out
}

fn scrub_items(items: &[String], volatile: &[&str], depth: u32) -> (r: Vec<String>)
    ensures
        texts(r@) == steady_items(texts(items@), word_texts(volatile@), depth as nat),
    decreases depth, items@.len(), 1nat,
{
    let ghost all = texts(items@);
    let mut out: Vec<String> = Vec::new();
    let mut i: usize = 0;
    assert(all.take(0) =~= Seq::<Seq<char>>::empty());
    assert(texts(out@) =~= Seq::<Seq<char>>::empty());
    while i < items.len()
        invariant
            i <= items@.len(),
            all == texts(items@),
            texts(out@) == steady_items(
                all.take(i as int),
                word_texts(volatile@),
                depth as nat,
            ),
        decreases items@.len() - i,
    {
        let ghost next = all.take(i + 1);
        assert(next.drop_last() =~= all.take(i as int));
        assert(next.last() == items@[i as int]@);
        push_text(&mut out, scrub(items[i].as_str(), volatile, depth));
        i = i + 1;
    }
    assert(all.take(i as int) =~= all);
    out
}

/// A JSON document without volatile members, down to a depth.
pub fn scrub(s: &str, volatile: &[&str], depth: u32) -> (r: String)
    ensures
        r@ == steady_json(s@, word_texts(volatile@), depth as nat),
    decreases depth, 0nat, 0nat,
{
    if depth == 0 {
        return s.to_owned();
    }
    match object_members(s) {
        Some(members) => {
            let kept = scrub_members(members.as_slice(), volatile, depth - 1);
            let mut out = String::from_str("{");
            out.append(join(kept.as_slice(), ",").as_str());
            out.append("}");
            out
        },
        None => match array_items(s) {
            Some(items) => {
                let kept = scrub_items(items.as_slice(), volatile, depth - 1);
                let mut out = String::new();
                append_array(&mut out, kept.as_slice());
                assert(out@ =~= json_array(steady_items(
                    texts(items@),
                    word_texts(volatile@),
                    (depth - 1) as nat,
                )));
                out
            },
            None => s.to_owned(),
        },
    }
}

} // verus!
