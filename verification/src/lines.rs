//! Lines, fields and words of a text, and texts in order.

use vstd::prelude::*;
use vstd::string::*;
use vstd::utf8::*;

use crate::sort::{lemma_sorted_map, stable_sort, stable_sorted, without_repeats, Ranked, Sortable};
use crate::text::{
    before, chars_of, first_place, is_line_break, is_text_no_later, is_whitespace, lemma_before,
    lemma_text_order_total, lemma_text_order_transitive, occurs_in, push_text, same_text,
    slice_text, stays_on_line, text_no_later, texts, trimmed_start, whitespace,
};

verus! {

/// What [`String::from_utf8_lossy`] makes of some bytes.
pub uninterp spec fn utf8_lossy(bytes: Seq<u8>) -> Seq<char>;

/// Calls [`String::from_utf8_lossy`]: its result is [`utf8_lossy`] of the bytes, which is the
/// text itself where they are its UTF-8 form.
#[verifier::external_body]
pub(crate) fn lossy_text(bytes: &[u8]) -> (r: String)
    ensures
        r@ == utf8_lossy(bytes@),
        valid_utf8(bytes@) ==> r@ == decode_utf8(bytes@),
{
    String::from_utf8_lossy(bytes).into_owned()
}

/// Calls [`String::from_utf8`]: the text whose UTF-8 form the bytes are, where they are one.
#[verifier::external_body]
pub(crate) fn utf8_text(bytes: Vec<u8>) -> (r: Option<String>)
    ensures
        r is Some <==> valid_utf8(bytes@),
        r matches Some(s) ==> s@ == decode_utf8(bytes@),
{
    String::from_utf8(bytes).ok()
}

/// A text without a carriage return at its end.
pub open spec fn without_return(s: Seq<char>) -> Seq<char> {
    if s.len() > 0 && s.last() == '\r' {
        s.drop_last()
    } else {
        s
    }
}

/// The lines of a text, without their line endings.
pub open spec fn lines_of(s: Seq<char>) -> Seq<Seq<char>>
    decreases s.len(),
{
    if s.len() == 0 {
        Seq::empty()
    } else if first_place(s, '\n') >= s.len() {
        seq![s]
    } else {
        seq![without_return(before(s, '\n'))] + lines_of(s.skip(first_place(s, '\n') + 1))
    }
}

/// The parts of a text between separators.
pub open spec fn fields_of(s: Seq<char>, separator: char) -> Seq<Seq<char>>
    decreases s.len(),
{
    if first_place(s, separator) >= s.len() {
        seq![s]
    } else {
        seq![before(s, separator)] + fields_of(s.skip(first_place(s, separator) + 1), separator)
    }
}

/// The lines of a text.
pub fn lines(s: &str) -> (r: Vec<String>)
    ensures
        texts(r@) == lines_of(s@),
{
    let chars = chars_of(s);
    let mut out: Vec<String> = Vec::new();
    let mut start: usize = 0;
    let mut i: usize = 0;
    assert(chars@.skip(0) =~= s@);
    assert(texts(out@) + lines_of(s@) =~= lines_of(s@));
    while i < chars.len()
        invariant
            start <= i <= chars@.len(),
            chars@ == s@,
            forall|k: int| start <= k < i ==> chars@[k] != '\n',
            texts(out@) + lines_of(chars@.skip(start as int)) == lines_of(s@),
        decreases chars@.len() - i,
    {
        if chars[i] == '\n' {
            let ghost rest = chars@.skip(start as int);
            proof {
                lemma_before(rest, '\n', i - start);
                assert(rest.take(i - start) =~= chars@.subrange(start as int, i as int));
                assert(rest.skip(i - start + 1) =~= chars@.skip(i + 1));
            }
            let end: usize = if i > start && chars[i - 1] == '\r' {
                i - 1
            } else {
                i
            };
            let ghost done = texts(out@);
            push_text(&mut out, slice_text(chars.as_slice(), start, end));
            proof {
                let line = chars@.subrange(start as int, i as int);
                assert(chars@.subrange(start as int, end as int) =~= without_return(line));
                assert(texts(out@) + lines_of(chars@.skip(i + 1)) =~= done + (seq![
                    without_return(line),
                ] + lines_of(chars@.skip(i + 1))));
            }
            start = i + 1;
        }
        i = i + 1;
    }
    let ghost rest = chars@.skip(start as int);
    if start < chars.len() {
        proof {
            lemma_before(rest, '\n', rest.len() as int);
            assert(rest =~= chars@.subrange(start as int, chars@.len() as int));
        }
        let ghost done = texts(out@);
        push_text(&mut out, slice_text(chars.as_slice(), start, chars.len()));
        assert(texts(out@) =~= done + seq![rest]);
    } else {
        assert(texts(out@) + Seq::<Seq<char>>::empty() =~= texts(out@));
    }
    out
}

/// The parts of a text between separators.
pub fn split_on(s: &str, separator: char) -> (r: Vec<String>)
    ensures
        texts(r@) == fields_of(s@, separator),
{
    let chars = chars_of(s);
    let mut out: Vec<String> = Vec::new();
    let mut start: usize = 0;
    let mut i: usize = 0;
    assert(chars@.skip(0) =~= s@);
    assert(texts(out@) + fields_of(s@, separator) =~= fields_of(s@, separator));
    while i < chars.len()
        invariant
            start <= i <= chars@.len(),
            chars@ == s@,
            forall|k: int| start <= k < i ==> chars@[k] != separator,
            texts(out@) + fields_of(chars@.skip(start as int), separator) == fields_of(
                s@,
                separator,
            ),
        decreases chars@.len() - i,
    {
        if chars[i] == separator {
            let ghost rest = chars@.skip(start as int);
            proof {
                lemma_before(rest, separator, i - start);
                assert(rest.take(i - start) =~= chars@.subrange(start as int, i as int));
                assert(rest.skip(i - start + 1) =~= chars@.skip(i + 1));
            }
            let ghost done = texts(out@);
            push_text(&mut out, slice_text(chars.as_slice(), start, i));
            proof {
                let field = chars@.subrange(start as int, i as int);
                assert(texts(out@) + fields_of(chars@.skip(i + 1), separator) =~= done + (seq![
                    field,
                ] + fields_of(chars@.skip(i + 1), separator)));
            }
            start = i + 1;
        }
        i = i + 1;
    }
    let ghost rest = chars@.skip(start as int);
    proof {
        lemma_before(rest, separator, rest.len() as int);
        assert(rest =~= chars@.subrange(start as int, chars@.len() as int));
    }
    let ghost done = texts(out@);
    push_text(&mut out, slice_text(chars.as_slice(), start, chars.len()));
    assert(texts(out@) =~= done + seq![rest]);
    out
}

/// The part of a text before its first whitespace.
pub open spec fn until_whitespace(s: Seq<char>) -> Seq<char>
    decreases s.len(),
{
    if s.len() == 0 || whitespace(s[0]) {
        Seq::empty()
    } else {
        seq![s[0]] + until_whitespace(s.drop_first())
    }
}

/// The first word of a text; empty where it has none.
pub open spec fn first_word_of(s: Seq<char>) -> Seq<char> {
    until_whitespace(trimmed_start(s))
}

/// The first word of a text.
pub fn first_word(s: &str) -> (r: String)
    ensures
        r@ == first_word_of(s@),
{
    let chars = chars_of(s);
    let mut from: usize = 0;
    assert(chars@.skip(0) =~= s@);
    while from < chars.len() && is_whitespace(chars[from])
        invariant
            from <= chars@.len(),
            chars@ == s@,
            trimmed_start(chars@.skip(from as int)) == trimmed_start(s@),
        decreases chars@.len() - from,
    {
        assert(chars@.skip(from as int).drop_first() =~= chars@.skip(from + 1));
        from = from + 1;
    }
    let ghost rest = chars@.skip(from as int);
    assert(rest == trimmed_start(s@)) by {
        if from < chars@.len() {
            assert(rest[0] == chars@[from as int]);
        }
    }
    let mut to: usize = from;
    assert(chars@.subrange(from as int, to as int) =~= Seq::<char>::empty());
    assert(Seq::<char>::empty() + until_whitespace(rest) =~= until_whitespace(rest));
    while to < chars.len() && !is_whitespace(chars[to])
        invariant
            from <= to <= chars@.len(),
            chars@ == s@,
            chars@.subrange(from as int, to as int) + until_whitespace(chars@.skip(to as int))
                == until_whitespace(rest),
        decreases chars@.len() - to,
    {
        let ghost t = chars@.skip(to as int);
        assert(t.drop_first() =~= chars@.skip(to + 1));
        assert(chars@.subrange(from as int, to + 1) =~= chars@.subrange(from as int, to as int)
            + seq![t[0]]);
        assert(chars@.subrange(from as int, to + 1) + until_whitespace(chars@.skip(to + 1))
            =~= chars@.subrange(from as int, to as int) + until_whitespace(t));
        to = to + 1;
    }
    proof {
        let t = chars@.skip(to as int);
        if to < chars@.len() {
            assert(t[0] == chars@[to as int]);
        }
        assert(until_whitespace(t) =~= Seq::<char>::empty());
        assert(chars@.subrange(from as int, to as int) + Seq::<char>::empty() =~= chars@.subrange(
            from as int,
            to as int,
        ));
    }
    slice_text(chars.as_slice(), from, to)
}

/// Whether a text ends with another.
pub open spec fn is_suffix(suffix: Seq<char>, s: Seq<char>) -> bool {
    s.len() >= suffix.len() && s.skip(s.len() - suffix.len()) == suffix
}

/// Whether a text ends with another.
pub fn ends_with(s: &str, suffix: &str) -> (r: bool)
    ensures
        r == is_suffix(suffix@, s@),
{
    let a = chars_of(s);
    let b = chars_of(suffix);
    if b.len() > a.len() {
        return false;
    }
    let tail = slice_text(a.as_slice(), a.len() - b.len(), a.len());
    assert(tail@ =~= s@.skip(s@.len() - suffix@.len()));
    same_text(tail.as_str(), suffix)
}

/// Whether a text occurs in another.
pub fn contains_text(s: &str, part: &str) -> (r: bool)
    ensures
        r == occurs_in(part@, s@),
{
    let a = chars_of(s);
    let b = chars_of(part);
    if b.len() > a.len() {
        return false;
    }
    let total = a.len();
    let width = b.len();
    let last = total - width;
    let mut i: usize = 0;
    loop
        invariant
            total == a@.len(),
            width == b@.len(),
            a@ == s@,
            b@ == part@,
            b@.len() <= a@.len(),
            last == a@.len() - b@.len(),
            i <= last,
            forall|k: int| 0 <= k < i ==> #[trigger] s@.subrange(k, k + part@.len()) != part@,
        decreases last - i,
    {
        let piece = slice_text(a.as_slice(), i, i + width);
        if same_text(piece.as_str(), part) {
            assert(s@.subrange(i as int, i + part@.len()) == part@);
            return true;
        }
        if i == last {
            return false;
        }
        i = i + 1;
    }
}

impl Ranked for Seq<char> {
    open spec fn no_later(self, other: Self) -> bool {
        text_no_later(self, other)
    }

    proof fn lemma_total(a: Self, b: Self) {
        lemma_text_order_total(a, b);
    }

    proof fn lemma_transitive(a: Self, b: Self, c: Self) {
        lemma_text_order_transitive(a, b, c);
    }
}

impl Ranked for String {
    open spec fn no_later(self, other: Self) -> bool {
        text_no_later(self@, other@)
    }

    proof fn lemma_total(a: Self, b: Self) {
        lemma_text_order_total(a@, b@);
    }

    proof fn lemma_transitive(a: Self, b: Self, c: Self) {
        lemma_text_order_transitive(a@, b@, c@);
    }
}

impl Sortable for String {
    fn is_no_later(&self, other: &Self) -> bool {
        is_text_no_later(self.as_str(), other.as_str())
    }
}

/// Puts texts in order.
pub fn sort_texts(v: &mut Vec<String>)
    ensures
        texts(final(v)@) == stable_sorted(texts(old(v)@)),
{
    proof {
        lemma_sorted_map(v@, |s: String| s@);
    }
    stable_sort(v);
}

/// Texts in order, one of each.
pub open spec fn sorted_unique(s: Seq<Seq<char>>) -> Seq<Seq<char>> {
    without_repeats(stable_sorted(s))
}

/// Whether a text is among some texts.
pub fn holds_text(v: &[String], s: &str) -> (r: bool)
    ensures
        r == texts(v@).contains(s@),
{
    let mut i: usize = 0;
    while i < v.len()
        invariant
            i <= v@.len(),
            forall|k: int| 0 <= k < i ==> texts(v@)[k] != s@,
        decreases v@.len() - i,
    {
        if same_text(v[i].as_str(), s) {
            assert(texts(v@)[i as int] == s@);
            return true;
        }
        i = i + 1;
    }
    false
}

/// Puts texts in order and keeps one of each.
pub fn sort_unique_texts(v: &mut Vec<String>)
    ensures
        texts(final(v)@) == without_repeats(stable_sorted(texts(old(v)@))),
{
    sort_texts(v);
    let ghost all = texts(v@);
    let mut kept: Vec<String> = Vec::new();
    let mut i: usize = 0;
    assert(all.take(0) =~= Seq::<Seq<char>>::empty());
    assert(texts(kept@) =~= Seq::<Seq<char>>::empty());
    while i < v.len()
        invariant
            i <= v@.len(),
            texts(v@) == all,
            texts(kept@) == without_repeats(all.take(i as int)),
        decreases v@.len() - i,
    {
        let ghost next = all.take(i + 1);
        assert(next.drop_last() =~= all.take(i as int));
        assert(next.last() == v@[i as int]@);
        if i == 0 || !same_text(v[i - 1].as_str(), v[i].as_str()) {
            assert(i > 0 ==> next[i - 1] == v@[i - 1]@);
            push_text(&mut kept, v[i].clone());
        } else {
            assert(next[i - 1] == v@[i - 1]@);
        }
        assert(texts(kept@) =~= without_repeats(next));
        i = i + 1;
    }
    assert(all.take(i as int) =~= all);
    *v = kept;
}

/// Some lines as a text, each ended by a line feed.
pub open spec fn terminated(lines: Seq<Seq<char>>) -> Seq<char>
    decreases lines.len(),
{
    if lines.len() == 0 {
        Seq::empty()
    } else {
        lines[0] + seq!['\n'] + terminated(lines.drop_first())
    }
}

/// Lines behind lines are text behind text.
pub proof fn lemma_terminated_add(a: Seq<Seq<char>>, b: Seq<Seq<char>>)
    ensures
        terminated(a + b) == terminated(a) + terminated(b),
    decreases a.len(),
{
    if a.len() == 0 {
        assert(a + b =~= b);
        assert(terminated(a) + terminated(b) =~= terminated(b));
    } else {
        lemma_terminated_add(a.drop_first(), b);
        assert((a + b).drop_first() =~= a.drop_first() + b);
        assert(terminated(a + b) =~= terminated(a) + terminated(b));
    }
}

/// One more line is its text and a line feed more.
pub proof fn lemma_terminated_push(lines: Seq<Seq<char>>, line: Seq<char>)
    ensures
        terminated(lines.push(line)) == terminated(lines) + line + seq!['\n'],
{
    let one = seq![line];
    assert(lines.push(line) =~= lines + one);
    lemma_terminated_add(lines, one);
    assert(one.drop_first() =~= Seq::<Seq<char>>::empty());
    assert(terminated(one.drop_first()) =~= Seq::<char>::empty());
    assert(terminated(one) =~= line + seq!['\n']);
    assert(terminated(lines.push(line)) =~= terminated(lines) + line + seq!['\n']);
}

/// The lines of a text are those that it was put together from.
pub proof fn lemma_lines_of_terminated(lines: Seq<Seq<char>>)
    requires
        forall|i: int| 0 <= i < lines.len() ==> stays_on_line(#[trigger] lines[i]),
    ensures
        lines_of(terminated(lines)) == lines,
    decreases lines.len(),
{
    if lines.len() > 0 {
        let rest = lines.drop_first();
        assert forall|i: int| 0 <= i < rest.len() implies stays_on_line(#[trigger] rest[i]) by {
            assert(rest[i] == lines[i + 1]);
        }
        lemma_lines_of_terminated(rest);
        let first = lines[0];
        let s = terminated(lines);
        let n = first.len() as int;
        assert forall|k: int| 0 <= k < n implies s[k] != '\n' by {
            assert(s[k] == first[k]);
            assert(!is_line_break(first[k]));
        }
        assert(s[n] == '\n');
        lemma_before(s, '\n', n);
        assert(s.take(n) =~= first);
        assert(s.skip(n + 1) =~= terminated(rest));
        if n > 0 {
            assert(!is_line_break(first[n - 1]));
        }
        assert(seq![first] + rest =~= lines);
    } else {
        assert(lines =~= Seq::<Seq<char>>::empty());
    }
}

} // verus!
