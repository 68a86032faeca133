//! The groups of a directory, and who is in them.

use vstd::hash_map::StringHashMap;
use vstd::hash_set::StringHashSet;
use vstd::prelude::*;
use vstd::string::*;

use crate::lines::sort_unique_texts;
use crate::sort::{
    in_order, lemma_stable_sorted, lemma_without_repeats, stable_sorted, without_repeats, Ranked,
};
use crate::text::{
    ascii_lowered, before, chars_of, copy_text, opt_text, push_char, push_text, same_text,
    split_first, split_once, texts, to_ascii_lowercase, trim, trimmed, until,
};

verus! {

/// An entry of a directory: its name and its attributes.
pub struct DirectoryEntry {
    pub dn: String,
    pub attrs: Vec<(String, Vec<String>)>,
    pub bin_attrs: Vec<(String, Vec<Vec<u8>>)>,
}

/// The values of an attribute.
pub open spec fn values_of(attrs: Seq<(String, Vec<String>)>, name: Seq<char>) -> Seq<Seq<char>>
    decreases attrs.len(),
{
    if attrs.len() == 0 {
        Seq::empty()
    } else if attrs[0].0@ == name {
        texts(attrs[0].1@)
    } else {
        values_of(attrs.drop_first(), name)
    }
}

/// The first value of an attribute.
pub open spec fn first_of(attrs: Seq<(String, Vec<String>)>, name: Seq<char>) -> Option<Seq<char>> {
    if values_of(attrs, name).len() > 0 {
        Some(values_of(attrs, name)[0])
    } else {
        None
    }
}

/// The values of an attribute of an entry.
pub fn attribute_values(entry: &DirectoryEntry, name: &str) -> (r: Vec<String>)
    ensures
        texts(r@) == values_of(entry.attrs@, name@),
{
    let mut i: usize = 0;
    assert(entry.attrs@.skip(0) =~= entry.attrs@);
    while i < entry.attrs.len()
        invariant
            i <= entry.attrs@.len(),
            values_of(entry.attrs@, name@) == values_of(entry.attrs@.skip(i as int), name@),
        decreases entry.attrs@.len() - i,
    {
        let ghost rest = entry.attrs@.skip(i as int);
        assert(rest[0] == entry.attrs@[i as int]);
        if same_text(entry.attrs[i].0.as_str(), name) {
            return copy_texts(&entry.attrs[i].1);
        }
        assert(rest.drop_first() =~= entry.attrs@.skip(i + 1));
        i = i + 1;
    }
    let none: Vec<String> = Vec::new();
    assert(texts(none@) =~= Seq::<Seq<char>>::empty());
    none
}

/// A copy of texts.
pub fn copy_texts(v: &Vec<String>) -> (r: Vec<String>)
    ensures
        texts(r@) == texts(v@),
{
    let mut out: Vec<String> = Vec::new();
    let mut i: usize = 0;
    assert(texts(out@) =~= texts(v@).take(0));
    while i < v.len()
        invariant
            i <= v@.len(),
            texts(out@) =~= texts(v@).take(i as int),
        decreases v@.len() - i,
    {
        push_text(&mut out, copy_text(&v[i]));
        assert(texts(v@).take(i + 1) =~= texts(v@).take(i as int).push(texts(v@)[i as int]));
        i = i + 1;
    }
    assert(texts(v@).take(i as int) =~= texts(v@));
    out
}

/// The first value of an attribute of an entry.
pub fn first_attribute(entry: &DirectoryEntry, name: &str) -> (r: Option<String>)
    ensures
        opt_text(r) == first_of(entry.attrs@, name@),
{
    let values = attribute_values(entry, name);
    if values.len() > 0 {
        assert(texts(values@)[0] == values@[0]@);
        Some(copy_text(&values[0]))
    } else {
        None
    }
}

/// The name of an entry in the form in which names are compared.
pub open spec fn normal_dn(value: Seq<char>) -> Seq<char> {
    ascii_lowered(trimmed(value))
}

/// The name of an entry in the form in which names are compared.
pub fn normalize_dn(value: &str) -> (r: String)
    ensures
        r@ == normal_dn(value@),
{
    to_ascii_lowercase(trim(value).as_str())
}

/// A text in which an escaped equals sign stands for itself.
pub open spec fn unescaped(s: Seq<char>) -> Seq<char>
    decreases s.len(),
{
    if s.len() == 0 {
        s
    } else if s.len() >= 2 && s[0] == '\\' && s[1] == '=' {
        seq!['='] + unescaped(s.skip(2))
    } else {
        seq![s[0]] + unescaped(s.skip(1))
    }
}

fn unescape(s: &str) -> (r: String)
    ensures
        r@ == unescaped(s@),
{
    let chars = chars_of(s);
    let mut out = String::new();
    let mut i: usize = 0;
    assert(chars@.skip(0) =~= s@);
    assert(out@ + unescaped(s@) =~= unescaped(s@));
    while i < chars.len()
        invariant
            i <= chars@.len(),
            chars@ == s@,
            out@ + unescaped(chars@.skip(i as int)) == unescaped(s@),
        decreases chars@.len() - i,
    {
        let ghost rest = chars@.skip(i as int);
        assert(rest[0] == chars@[i as int]);
        if i + 1 < chars.len() && chars[i] == '\\' && chars[i + 1] == '=' {
            assert(rest[1] == chars@[i + 1]);
            assert(rest.skip(2) =~= chars@.skip(i + 2));
            let ghost old_out = out@;
            push_char(&mut out, '=');
            assert(out@ + unescaped(chars@.skip(i + 2)) =~= old_out + unescaped(rest));
            i = i + 2;
        } else {
            proof {
                if rest.len() >= 2 {
                    assert(rest[1] == chars@[i + 1]);
                }
            }
            assert(rest.skip(1) =~= chars@.skip(i + 1));
            let ghost old_out = out@;
            push_char(&mut out, chars[i]);
            assert(out@ + unescaped(chars@.skip(i + 1)) =~= old_out + unescaped(rest));
            i = i + 1;
        }
    }
    assert(chars@.skip(i as int) =~= Seq::<char>::empty());
    out
}

/// The name of a group by the name of its entry: the value of the part before the first comma.
pub open spec fn name_in_dn(value: Seq<char>) -> Option<Seq<char>> {
    match split_first(before(value, ','), '=') {
        None => None,
        Some((_, name)) => {
            let short = trimmed(unescaped(name));
            if short.len() == 0 {
                None
            } else {
                Some(short)
            }
        },
    }
}

/// The name of a group by the name of its entry.
pub fn group_name_from_dn(value: &str) -> (r: Option<String>)
    ensures
        opt_text(r) == name_in_dn(value@),
{
    let rdn = until(value, ',');
    match split_once(rdn.as_str(), '=') {
        None => None,
        Some(parts) => {
            let short = trim(unescape(parts.1.as_str()).as_str());
            if chars_of(short.as_str()).len() == 0 {
                None
            } else {
                Some(short)
            }
        },
    }
}

/// Which groups of a directory are in which, and what they are called.
pub struct GroupGraph {
    parents: StringHashMap<Vec<String>>,
    names: StringHashMap<String>,
}

impl GroupGraph {
    /// Whether an entry is a member of a group.
    pub closed spec fn edge(self, member: Seq<char>, group: Seq<char>) -> bool {
        self.parents@.contains_key(member) && texts(self.parents@[member]@).contains(group)
    }

    /// What a group is called.
    pub closed spec fn name_of(self, group: Seq<char>) -> Option<Seq<char>> {
        if self.names@.contains_key(group) {
            Some(self.names@[group]@)
        } else {
            None
        }
    }

    /// Whether an entry is in another one, directly or through at most `steps` steps.
    pub open spec fn within(self, member: Seq<char>, x: Seq<char>, steps: nat) -> bool
        decreases steps,
    {
        if steps == 0 {
            x == member
        } else {
            self.within(member, x, (steps - 1) as nat) || exists|q: Seq<char>|
                self.within(member, q, (steps - 1) as nat) && #[trigger] self.edge(q, x)
        }
    }

    /// Whether something is the name of a group that some entries are direct members of.
    pub open spec fn names_parent(self, of: Set<Seq<char>>, name: Seq<char>) -> bool {
        exists|q: Seq<char>, p: Seq<char>|
            of.contains(q) && #[trigger] self.edge(q, p) && self.name_of(p) == Some(name)
    }

    /// The entries that an entry is in, through at most `steps` steps.
    pub open spec fn reached(self, member: Seq<char>, steps: nat) -> Set<Seq<char>> {
        Set::new(|x: Seq<char>| self.within(member, x, steps))
    }

    /// A graph without groups.
    pub fn empty() -> (r: Self)
        ensures
            forall|m: Seq<char>, g: Seq<char>| !#[trigger] r.edge(m, g),
            forall|g: Seq<char>| #[trigger] r.name_of(g) is None,
    {
        GroupGraph { parents: StringHashMap::new(), names: StringHashMap::new() }
    }

    /// What a group is called.
    pub fn name(&self, group: &str) -> (r: Option<String>)
        ensures
            opt_text(r) == self.name_of(group@),
    {
        match self.names.get(group) {
            Some(name) => Some(copy_text(name)),
            None => None,
        }
    }

    /// Gives a group a name.
    pub fn set_name(&mut self, group: String, name: String)
        ensures
            forall|m: Seq<char>, g: Seq<char>| #[trigger]
                final(self).edge(m, g) == old(self).edge(m, g),
            forall|g: Seq<char>| #[trigger]
                final(self).name_of(g) == (if g == group@ {
                    Some(name@)
                } else {
                    old(self).name_of(g)
                }),
    {
        self.names.insert(group, name);
    }

    /// Makes an entry a member of a group.
    pub fn add_member(&mut self, member: String, group: &String)
        ensures
            forall|m: Seq<char>, g: Seq<char>| #[trigger]
                final(self).edge(m, g) == (old(self).edge(m, g) || (m == member@ && g == group@)),
            forall|g: Seq<char>| #[trigger] final(self).name_of(g) == old(self).name_of(g),
    {
        let mut list = match self.parents.get(member.as_str()) {
            Some(known) => copy_texts(known),
            None => Vec::new(),
        };
        let ghost before = texts(list@);
        proof {
            if !self.parents@.contains_key(member@) {
                assert(before =~= Seq::<Seq<char>>::empty());
            }
        }
        push_text(&mut list, copy_text(group));
        proof {
            assert forall|g: Seq<char>| #[trigger] texts(list@).contains(g) == (before.contains(g)
                || g == group@) by {
                if before.contains(g) {
                    let k = choose|k: int| 0 <= k < before.len() && before[k] == g;
                    assert(texts(list@)[k] == g);
                }
                if g == group@ {
                    assert(texts(list@)[before.len() as int] == g);
                }
                if texts(list@).contains(g) {
                    let k = choose|k: int| 0 <= k < texts(list@).len() && texts(list@)[k] == g;
                    if k < before.len() {
                        assert(before[k] == g);
                    }
                }
            }
        }
        let ghost key = member@;
        let ghost known = *self;
        self.parents.insert(member, list);
        proof {
            assert forall|m: Seq<char>, g: Seq<char>| #[trigger] self.edge(m, g) == (known.edge(m, g)
                || (m == key && g == group@)) by {
                assert(texts(list@).contains(g) == (before.contains(g) || g == group@));
            }
        }
    }

    fn visit(
        &self,
        node: &String,
        visited: &mut StringHashSet,
        names: &mut Vec<String>,
        next: &mut Vec<String>,
    )
        requires
            forall|y: Seq<char>| #[trigger]
                texts(old(names)@).contains(y) == self.names_parent(old(visited)@, y),
        ensures
            final(visited)@ == old(visited)@.insert(node@),
            forall|y: Seq<char>| #[trigger]
                texts(final(names)@).contains(y) == self.names_parent(final(visited)@, y),
            forall|x: Seq<char>| #[trigger]
                texts(final(next)@).contains(x) == (texts(old(next)@).contains(x) || (!old(
                    visited,
                )@.contains(node@) && self.edge(node@, x) && !final(visited)@.contains(x))),
    {
        let ghost old_visited = visited@;
        if visited.contains(node.as_str()) {
            assert(visited@.insert(node@) =~= visited@);
            return ;
        }
        visited.insert(copy_text(node));
        let ghost old_names = texts(names@);
        let ghost old_next = texts(next@);
        match self.parents.get(node.as_str()) {
            None => {
                proof {
                    assert forall|y: Seq<char>| self.names_parent(visited@, y)
                        == self.names_parent(old_visited, y) by {
                        if self.names_parent(visited@, y) {
                            let (q, p) = choose|q: Seq<char>, p: Seq<char>|
                                visited@.contains(q) && #[trigger] self.edge(q, p)
                                    && self.name_of(p) == Some(y);
                            assert(old_visited.contains(q));
                        }
                        if self.names_parent(old_visited, y) {
                            let (q, p) = choose|q: Seq<char>, p: Seq<char>|
                                old_visited.contains(q) && #[trigger] self.edge(q, p)
                                    && self.name_of(p) == Some(y);
                            assert(visited@.contains(q));
                        }
                    }
                }
            },
            Some(list) => {
                let ghost all = texts(list@);
                let mut j: usize = 0;
                while j < list.len()
                    invariant
                        j <= list@.len(),
                        all == texts(list@),
                        visited@ == old_visited.insert(node@),
                        forall|y: Seq<char>| #[trigger]
                            texts(names@).contains(y) == (old_names.contains(y) || exists|k: int|
                                0 <= k < j && self.name_of(#[trigger] all[k]) == Some(y)),
                        forall|x: Seq<char>| #[trigger]
                            texts(next@).contains(x) == (old_next.contains(x)
                                || (!visited@.contains(x) && exists|k: int|
                                0 <= k < j && #[trigger] all[k] == x)),
                    decreases list@.len() - j,
                {
                    let parent = &list[j];
                    assert(all[j as int] == parent@);
                    let ghost names_before = texts(names@);
                    let ghost next_before = texts(next@);
                    if let Some(name) = self.name(parent.as_str()) {
                        push_text(names, name);
                        proof {
                            lemma_pushed(names_before, name@);
                        }
                    }
                    if !visited.contains(parent.as_str()) {
                        push_text(next, copy_text(parent));
                        proof {
                            lemma_pushed(next_before, parent@);
                        }
                    }
                    proof {
                        assert forall|y: Seq<char>| #[trigger] texts(names@).contains(y) == (
                        old_names.contains(y) || exists|k: int|
                            0 <= k < j + 1 && self.name_of(#[trigger] all[k]) == Some(y)) by {
                            if self.name_of(parent@) == Some(y) {
                                assert(self.name_of(all[j as int]) == Some(y));
                            }
                            if names_before.contains(y) && !old_names.contains(y) {
                                let k = choose|k: int|
                                    0 <= k < j && self.name_of(#[trigger] all[k]) == Some(y);
                                assert(0 <= k < j + 1 && self.name_of(all[k]) == Some(y));
                            }
                        }
                        assert forall|x: Seq<char>| #[trigger] texts(next@).contains(x) == (
                        old_next.contains(x) || (!visited@.contains(x) && exists|k: int|
                            0 <= k < j + 1 && #[trigger] all[k] == x)) by {
                            if x == parent@ {
                                assert(all[j as int] == x);
                            }
                            if next_before.contains(x) && !old_next.contains(x) {
                                let k = choose|k: int| 0 <= k < j && #[trigger] all[k] == x;
                                assert(0 <= k < j + 1 && all[k] == x);
                            }
                        }
                    }
                    j = j + 1;
                }
                proof {
                    assert forall|y: Seq<char>| #[trigger] texts(names@).contains(y)
                        == self.names_parent(visited@, y) by {
                        self.lemma_one_more(old_visited, node@, all, y);
                    }
                    assert forall|x: Seq<char>| #[trigger] self.edge(node@, x) == (exists|k: int|
                        0 <= k < all.len() && #[trigger] all[k] == x) by {
                        if all.contains(x) {
                            let k = choose|k: int| 0 <= k < all.len() && all[k] == x;
                            assert(all[k] == x);
                        }
                    }
                }
            },
        }
    }

    proof fn lemma_one_more(
        self,
        visited: Set<Seq<char>>,
        node: Seq<char>,
        all: Seq<Seq<char>>,
        y: Seq<char>,
    )
        requires
            self.parents@.contains_key(node),
            all == texts(self.parents@[node]@),
        ensures
            self.names_parent(visited.insert(node), y) == (self.names_parent(visited, y)
                || exists|k: int| 0 <= k < all.len() && self.name_of(#[trigger] all[k]) == Some(y)),
    {
        if self.names_parent(visited.insert(node), y) {
            let (q, p) = choose|q: Seq<char>, p: Seq<char>|
                visited.insert(node).contains(q) && #[trigger] self.edge(q, p) && self.name_of(p)
                    == Some(y);
            if q == node {
                let k = choose|k: int| 0 <= k < all.len() && all[k] == p;
                assert(self.name_of(all[k]) == Some(y));
            } else {
                assert(visited.contains(q));
            }
        }
        if self.names_parent(visited, y) {
            let (q, p) = choose|q: Seq<char>, p: Seq<char>|
                visited.contains(q) && #[trigger] self.edge(q, p) && self.name_of(p) == Some(y);
            assert(visited.insert(node).contains(q));
        }
        if exists|k: int| 0 <= k < all.len() && self.name_of(#[trigger] all[k]) == Some(y) {
            let k = choose|k: int| 0 <= k < all.len() && self.name_of(#[trigger] all[k]) == Some(y);
            assert(all.contains(all[k]));
            assert(self.edge(node, all[k]));
        }
    }

    /// Visits the entries of a level; what comes back is the next level.
    fn expand(&self, frontier: &Vec<String>, visited: &mut StringHashSet, names: &mut Vec<String>) -> (r:
        Vec<String>)
        requires
            forall|y: Seq<char>| #[trigger]
                texts(old(names)@).contains(y) == self.names_parent(old(visited)@, y),
        ensures
            forall|x: Seq<char>| #[trigger]
                final(visited)@.contains(x) == (old(visited)@.contains(x) || texts(
                    frontier@,
                ).contains(x)),
            forall|y: Seq<char>| #[trigger]
                texts(final(names)@).contains(y) == self.names_parent(final(visited)@, y),
            forall|x: Seq<char>| #[trigger]
                texts(r@).contains(x) ==> exists|q: Seq<char>|
                    texts(frontier@).contains(q) && #[trigger] self.edge(q, x),
            forall|q: Seq<char>, x: Seq<char>|
                final(visited)@.contains(q) && !old(visited)@.contains(q) && #[trigger] self.edge(
                    q,
                    x,
                ) ==> final(visited)@.contains(x) || texts(r@).contains(x),
    {
        let ghost all = texts(frontier@);
        let ghost old_visited = visited@;
        let mut next: Vec<String> = Vec::new();
        let mut i: usize = 0;
        while i < frontier.len()
            invariant
                i <= frontier@.len(),
                all == texts(frontier@),
                forall|x: Seq<char>| #[trigger]
                    visited@.contains(x) == (old_visited.contains(x) || exists|k: int|
                        0 <= k < i && #[trigger] all[k] == x),
                forall|y: Seq<char>| #[trigger]
                    texts(names@).contains(y) == self.names_parent(visited@, y),
                forall|x: Seq<char>| #[trigger]
                    texts(next@).contains(x) ==> exists|q: Seq<char>|
                        all.contains(q) && #[trigger] self.edge(q, x),
                forall|q: Seq<char>, x: Seq<char>|
                    visited@.contains(q) && !old_visited.contains(q) && #[trigger] self.edge(q, x)
                        ==> visited@.contains(x) || texts(next@).contains(x),
            decreases frontier@.len() - i,
        {
            let ghost visited_before = visited@;
            let ghost next_before = texts(next@);
            let node = &frontier[i];
            assert(all[i as int] == node@);
            assert(all.contains(all[i as int]));
            self.visit(node, visited, names, &mut next);
            proof {
                assert forall|x: Seq<char>| #[trigger] visited@.contains(x) == (
                old_visited.contains(x) || exists|k: int| 0 <= k < i + 1 && #[trigger] all[k] == x) by {
                    if x == node@ {
                        assert(all[i as int] == x);
                    }
                    if visited_before.contains(x) && !old_visited.contains(x) {
                        let k = choose|k: int| 0 <= k < i && #[trigger] all[k] == x;
                        assert(0 <= k < i + 1 && all[k] == x);
                    }
                }
                assert forall|x: Seq<char>| #[trigger] texts(next@).contains(x) implies exists|
                    q: Seq<char>,
                | all.contains(q) && #[trigger] self.edge(q, x) by {
                    if !next_before.contains(x) {
                        assert(self.edge(node@, x));
                    }
                }
                assert forall|q: Seq<char>, x: Seq<char>|
                    visited@.contains(q) && !old_visited.contains(q) && #[trigger] self.edge(
                        q,
                        x,
                    ) implies visited@.contains(x) || texts(next@).contains(x) by {
                    if visited_before.contains(q) {
                        assert(visited_before.contains(x) || next_before.contains(x));
                    }
                }
            }
            i = i + 1;
        }
        proof {
            assert forall|x: Seq<char>| #[trigger] visited@.contains(x) == (old_visited.contains(x)
                || all.contains(x)) by {
                if all.contains(x) {
                    let k = choose|k: int| 0 <= k < all.len() && all[k] == x;
                    assert(0 <= k < i && all[k] == x);
                }
            }
        }
        next
    }

    /// The names of the groups that an entry is in: those that it is a direct member of, those
    /// that these are members of, and so on, for the given number of further steps.
    pub fn groups_for_member(&self, member: &str, nested_depth: u8) -> (r: Vec<String>)
        ensures
            in_order(texts(r@)),
            texts(r@).no_duplicates(),
            forall|y: Seq<char>| #[trigger]
                texts(r@).contains(y) == self.names_parent(
                    self.reached(normal_dn(member@), nested_depth as nat),
                    y,
                ),
    {
        let start = normalize_dn(member);
        let ghost m = start@;
        let mut names: Vec<String> = Vec::new();
        let mut visited = StringHashSet::new();
        let mut frontier: Vec<String> = Vec::new();
        push_text(&mut frontier, start);
        let last: u32 = nested_depth as u32;
        let mut level: u32 = 0;
        let mut ended = false;
        proof {
            assert(texts(frontier@)[0] == m);
        }
        while !ended && level <= last
            invariant
                level <= last + 1,
                last == nested_depth,
                forall|y: Seq<char>| #[trigger]
                    texts(names@).contains(y) == self.names_parent(visited@, y),
                !ended ==> forall|x: Seq<char>| #[trigger]
                    visited@.contains(x) == (level > 0 && self.within(m, x, (level - 1) as nat)),
                !ended ==> forall|x: Seq<char>|
                    (visited@.contains(x) || texts(frontier@).contains(x)) == #[trigger] self.within(
                        m,
                        x,
                        level as nat,
                    ),
                ended ==> forall|x: Seq<char>| #[trigger]
                    visited@.contains(x) == self.within(m, x, last as nat),
            decreases last + 1 - level,
        {
            let ghost visited_before = visited@;
            let ghost edge_before = texts(frontier@);
            let ghost now = level as nat;
            let next = self.expand(&frontier, &mut visited, &mut names);
            proof {
                assert forall|x: Seq<char>| #[trigger] visited@.contains(x) == self.within(
                    m,
                    x,
                    now,
                ) by {}
                assert forall|x: Seq<char>|
                    (visited@.contains(x) || texts(next@).contains(x)) == #[trigger] self.within(
                        m,
                        x,
                        now + 1,
                    ) by {
                    if texts(next@).contains(x) {
                        let q = choose|q: Seq<char>|
                            edge_before.contains(q) && #[trigger] self.edge(q, x);
                        assert(self.within(m, q, now));
                    }
                    if self.within(m, x, now + 1) && !self.within(m, x, now) {
                        let q = choose|q: Seq<char>|
                            self.within(m, q, now) && #[trigger] self.edge(q, x);
                        if visited_before.contains(q) {
                            assert(self.within(m, q, (now - 1) as nat));
                            assert(self.within(m, x, now));
                        }
                    }
                }
            }
            if next.len() == 0 {
                proof {
                    assert(texts(next@).len() == 0);
                    assert forall|x: Seq<char>| #[trigger] visited@.contains(x) == self.within(
                        m,
                        x,
                        last as nat,
                    ) by {
                        assert forall|z: Seq<char>| self.within(m, z, now + 1)
                            == #[trigger] self.within(m, z, now) by {
                            assert(!texts(next@).contains(z));
                        }
                        self.lemma_stays(m, x, now, last as nat);
                    }
                }
                ended = true;
            }
            frontier = next;
            level = level + 1;
            assert(level as nat == now + 1);
        }
        proof {
            assert forall|x: Seq<char>| #[trigger] visited@.contains(x) == self.reached(
                m,
                nested_depth as nat,
            ).contains(x) by {
                assert(self.reached(m, nested_depth as nat).contains(x) == self.within(
                    m,
                    x,
                    last as nat,
                ));
            }
            assert(visited@ =~= self.reached(m, nested_depth as nat));
        }
        listed(names)
    }

    proof fn lemma_stays(self, m: Seq<char>, x: Seq<char>, from: nat, to: nat)
        requires
            from <= to,
            forall|z: Seq<char>|
                self.within(m, z, from + 1) == #[trigger] self.within(m, z, from),
        ensures
            self.within(m, x, to) == self.within(m, x, from),
        decreases to - from,
    {
        if to > from {
            self.lemma_stays(m, x, from, (to - 1) as nat);
            if self.within(m, x, to) && !self.within(m, x, (to - 1) as nat) {
                let q = choose|q: Seq<char>|
                    self.within(m, q, (to - 1) as nat) && #[trigger] self.edge(q, x);
                self.lemma_stays(m, q, from, (to - 1) as nat);
                assert(self.within(m, x, from + 1));
            }
        }
    }
}

/// What a sequence holds after a push.
pub proof fn lemma_pushed(s: Seq<Seq<char>>, x: Seq<char>)
    ensures
        forall|y: Seq<char>| #[trigger] s.push(x).contains(y) == (s.contains(y) || y == x),
{
    assert forall|y: Seq<char>| #[trigger] s.push(x).contains(y) == (s.contains(y) || y == x) by {
        if s.contains(y) {
            let k = choose|k: int| 0 <= k < s.len() && s[k] == y;
            assert(s.push(x)[k] == y);
        }
        if y == x {
            assert(s.push(x)[s.len() as int] == y);
        }
        if s.push(x).contains(y) {
            let k = choose|k: int| 0 <= k < s.push(x).len() && s.push(x)[k] == y;
            if k < s.len() {
                assert(s[k] == y);
            }
        }
    }
}

/// Texts in order, each once.
pub fn listed(v: Vec<String>) -> (r: Vec<String>)
    ensures
        in_order(texts(r@)),
        texts(r@).no_duplicates(),
        forall|y: Seq<char>| #[trigger] texts(r@).contains(y) == texts(v@).contains(y),
{
    let mut out = v;
    let ghost all = texts(v@);
    sort_unique_texts(&mut out);
    proof {
        let sorted = stable_sorted(all);
        lemma_stable_sorted(all);
        assert forall|a: Seq<char>, b: Seq<char>|
            a.no_later(b) && b.no_later(a) implies a == b by {
            crate::text::lemma_text_order_antisymmetric(a, b);
        }
        lemma_without_repeats(sorted);
        assert forall|y: Seq<char>| #[trigger] texts(out@).contains(y) == all.contains(y) by {
            assert(without_repeats(sorted).to_set().contains(y) == sorted.to_set().contains(y));
            vstd::seq_lib::to_multiset_contains(all, y);
            vstd::seq_lib::to_multiset_contains(sorted, y);
        }
    }
    out
}

} // verus!
