//! What the handling of texts promises.

use vstd::prelude::*;

use crate::json::member_of;
use crate::lines::{fields_of, first_word_of, lines_of};
use crate::text::{
    ascii_lowered, before, first_place, hex, hex_digit, joined, lemma_before, lemma_first_place,
    one_line, trimmed, trimmed_end, trimmed_start, whitespace,
};
use crate::urls::without_end_slashes;

verus! {

/// Whether every character of a text is whitespace.
pub open spec fn is_blank(s: Seq<char>) -> bool {
    forall|i: int| 0 <= i < s.len() ==> whitespace(#[trigger] s[i])
}

proof fn lemma_start(a: Seq<char>, s: Seq<char>)
    requires
        is_blank(a),
        s.len() > 0 ==> !whitespace(s[0]),
    ensures
        trimmed_start(a + s) == s,
    decreases a.len(),
{
    if a.len() == 0 {
        assert(a + s =~= s);
    } else {
        let rest = a.drop_first();
        assert((a + s).drop_first() =~= rest + s);
        assert(whitespace(a[0]) && (a + s)[0] == a[0]);
        assert forall|i: int| 0 <= i < rest.len() implies whitespace(#[trigger] rest[i]) by {
            assert(whitespace(a[i + 1]));
        }
        lemma_start(rest, s);
    }
}

proof fn lemma_end(s: Seq<char>, b: Seq<char>)
    requires
        is_blank(b),
        s.len() > 0 ==> !whitespace(s.last()),
    ensures
        trimmed_end(s + b) == s,
    decreases b.len(),
{
    if b.len() == 0 {
        assert(s + b =~= s);
    } else {
        let rest = b.drop_last();
        assert((s + b).drop_last() =~= s + rest);
        assert(whitespace(b[b.len() - 1]) && (s + b).last() == b[b.len() - 1]);
        assert forall|i: int| 0 <= i < rest.len() implies whitespace(#[trigger] rest[i]) by {
            assert(whitespace(b[i]));
        }
        lemma_end(s, rest);
    }
}

/// Blanks around a text are taken off, and nothing else is.
pub proof fn law_blanks_are_taken_off(a: Seq<char>, core: Seq<char>, b: Seq<char>)
    requires
        is_blank(a),
        is_blank(b),
        core.len() > 0 ==> !whitespace(core[0]) && !whitespace(core.last()),
    ensures
        trimmed(a + core + b) == core,
{
    if core.len() == 0 {
        let none = Seq::<char>::empty();
        let all = a + b;
        assert(a + core + b =~= all + none);
        assert forall|i: int| 0 <= i < all.len() implies whitespace(#[trigger] all[i]) by {
            if i < a.len() {
                assert(whitespace(a[i]));
            } else {
                assert(whitespace(b[i - a.len()]));
            }
        }
        lemma_start(all, none);
        assert(core =~= none);
    } else {
        assert(a + core + b =~= a + (core + b));
        assert((core + b)[0] == core[0]);
        lemma_start(a, core + b);
        lemma_end(core, b);
    }
}

/// The first word of a text is what follows the blanks at its beginning, up to the next one.
pub proof fn law_first_words_end_at_a_blank(a: Seq<char>, word: Seq<char>, rest: Seq<char>)
    requires
        is_blank(a),
        forall|i: int| 0 <= i < word.len() ==> !whitespace(#[trigger] word[i]),
        word.len() > 0,
        rest.len() > 0 ==> whitespace(rest[0]),
    ensures
        first_word_of(a + word + rest) == word,
{
    assert(a + word + rest =~= a + (word + rest));
    assert((word + rest)[0] == word[0]);
    lemma_start(a, word + rest);
    lemma_until(word, rest);
}

proof fn lemma_until(word: Seq<char>, rest: Seq<char>)
    requires
        forall|i: int| 0 <= i < word.len() ==> !whitespace(#[trigger] word[i]),
        rest.len() > 0 ==> whitespace(rest[0]),
    ensures
        crate::lines::until_whitespace(word + rest) == word,
    decreases word.len(),
{
    if word.len() == 0 {
        assert(word + rest =~= rest);
        assert(crate::lines::until_whitespace(rest) =~= word);
    } else {
        let less = word.drop_first();
        assert((word + rest).drop_first() =~= less + rest);
        assert(!whitespace(word[0]) && (word + rest)[0] == word[0]);
        assert forall|i: int| 0 <= i < less.len() implies !whitespace(#[trigger] less[i]) by {
            assert(!whitespace(word[i + 1]));
        }
        lemma_until(less, rest);
        assert(seq![word[0]] + less =~= word);
    }
}

/// A text is split at every separator and nowhere else: put together again with it, the fields are
/// the text, and none of them holds it.
pub proof fn law_fields_are_split_at_separators(s: Seq<char>, separator: char)
    ensures
        fields_of(s, separator).len() > 0,
        forall|i: int|
            0 <= i < fields_of(s, separator).len() ==> !(#[trigger] fields_of(
                s,
                separator,
            )[i]).contains(separator),
        put_together(fields_of(s, separator), separator) == s,
    decreases s.len(),
{
    lemma_first_place(s, separator);
    let fields = fields_of(s, separator);
    if first_place(s, separator) >= s.len() {
        assert(!s.contains(separator));
        assert(fields[0] == s);
        assert(fields.drop_first() =~= Seq::<Seq<char>>::empty());
    } else {
        let n = first_place(s, separator);
        let rest = s.skip(n + 1);
        law_fields_are_split_at_separators(rest, separator);
        assert(fields.drop_first() =~= fields_of(rest, separator));
        assert(fields[0] == before(s, separator));
        lemma_before(s, separator, n);
        assert(s.take(n) + seq![separator] + rest =~= s);
        assert forall|i: int| 0 <= i < fields.len() implies !(#[trigger] fields[i]).contains(
            separator,
        ) by {
            if i > 0 {
                assert(fields[i] == fields_of(rest, separator)[i - 1]);
            } else {
                let first = s.take(n);
                if first.contains(separator) {
                    let k = choose|k: int| 0 <= k < first.len() && first[k] == separator;
                    assert(s[k] == separator);
                }
            }
        }
    }
}

/// Fields with a separator between them.
pub open spec fn put_together(fields: Seq<Seq<char>>, separator: char) -> Seq<char>
    decreases fields.len(),
{
    if fields.len() == 0 {
        Seq::empty()
    } else if fields.len() == 1 {
        fields[0]
    } else {
        fields[0] + seq![separator] + put_together(fields.drop_first(), separator)
    }
}

/// A line ends at a line feed, which is not part of it, nor is a carriage return before it.
pub proof fn law_lines_end_at_line_feeds(line: Seq<char>, rest: Seq<char>)
    requires
        !line.contains('\n'),
    ensures
        line.len() == 0 || line.last() != '\r' ==> lines_of(line + seq!['\n'] + rest) == seq![line]
            + lines_of(rest),
        lines_of(line + seq!['\r'] + seq!['\n'] + rest) == seq![line] + lines_of(rest),
        line.len() > 0 ==> lines_of(line) == seq![line],
        lines_of(Seq::<char>::empty()).len() == 0,
{
    lemma_line(line, rest);
    let returned = line.push('\r');
    assert(!returned.contains('\n')) by {
        if returned.contains('\n') {
            let i = choose|i: int| 0 <= i < returned.len() && returned[i] == '\n';
            assert(line[i] == '\n');
        }
    }
    lemma_line(returned, rest);
    assert(line + seq!['\r'] + seq!['\n'] + rest =~= returned + seq!['\n'] + rest);
    assert(returned.drop_last() =~= line);
    lemma_first_place(line, '\n');
}

proof fn lemma_line(line: Seq<char>, rest: Seq<char>)
    requires
        !line.contains('\n'),
    ensures
        lines_of(line + seq!['\n'] + rest) == seq![crate::lines::without_return(line)] + lines_of(
            rest,
        ),
{
    let s = line + seq!['\n'] + rest;
    lemma_first_place(s, '\n');
    assert(s[line.len() as int] == '\n');
    assert(s.contains('\n'));
    let n = first_place(s, '\n');
    if n < line.len() {
        assert(s[n] == line[n]);
        assert(line.contains('\n'));
    }
    assert(n == line.len());
    lemma_before(s, '\n', n);
    assert(s.take(n) =~= line);
    assert(s.skip(n + 1) =~= rest);
}

/// Of letters, the capital ones become small ones, and all else stays.
pub proof fn law_capitals_become_small(s: Seq<char>, i: int)
    requires
        0 <= i < s.len(),
    ensures
        ascii_lowered(s).len() == s.len(),
        'A' <= s[i] && s[i] <= 'Z' ==> ascii_lowered(s)[i] as int == s[i] as int + 32,
        s[i] < 'A' || 'Z' < s[i] ==> ascii_lowered(s)[i] == s[i],
{
}

/// Every byte is two hexadecimal digits, the higher one first.
pub proof fn law_bytes_are_two_digits(bytes: Seq<u8>, i: int)
    requires
        0 <= i < bytes.len(),
    ensures
        hex(bytes).len() == 2 * bytes.len(),
        hex(bytes)[2 * i] == hex_digit(bytes[i] as nat / 16),
        hex(bytes)[2 * i + 1] == hex_digit(bytes[i] as nat % 16),
    decreases bytes.len(),
{
    let less = bytes.drop_last();
    let most = hex(less);
    if less.len() > 0 {
        law_bytes_are_two_digits(less, 0);
    }
    assert(most.len() == 2 * less.len());
    let more = most.push(hex_digit(bytes.last() as nat / 16));
    assert(hex(bytes) == more.push(hex_digit(bytes.last() as nat % 16)));
    if i < less.len() {
        law_bytes_are_two_digits(less, i);
    }
}

/// Hexadecimal digits are the ten digits and the letters from a to f, in their order.
pub proof fn law_hexadecimal_digits_are_in_order(d: nat)
    requires
        d < 16,
    ensures
        d < 10 ==> hex_digit(d) as int == '0' as int + d,
        d >= 10 ==> hex_digit(d) as int == 'a' as int + d - 10,
{
}

/// Line breaks are left out of a text, wherever they are, and nothing else is.
pub proof fn law_line_breaks_are_left_out(a: Seq<char>, c: char)
    ensures
        c == '\n' || c == '\r' ==> one_line(a.push(c)) == one_line(a),
        c != '\n' && c != '\r' ==> one_line(a.push(c)) == one_line(a).push(c),
        one_line(Seq::<char>::empty()).len() == 0,
{
    assert(a.push(c).drop_last() =~= a);
}

/// Parts are joined with the separator between them.
pub proof fn law_parts_are_joined(parts: Seq<Seq<char>>, part: Seq<char>, separator: Seq<char>)
    ensures
        joined(Seq::<Seq<char>>::empty(), separator).len() == 0,
        joined(seq![part], separator) == part,
        parts.len() > 0 ==> joined(parts.push(part), separator) == joined(parts, separator)
            + separator + part,
{
    assert(parts.push(part).drop_last() =~= parts);
}

/// The member of an object is the first one with the name.
pub proof fn law_members_are_found_by_name(
    members: Seq<(Seq<char>, Seq<char>)>,
    key: Seq<char>,
    i: int,
)
    ensures
        0 <= i < members.len() && members[i].0 == key && (forall|k: int|
            0 <= k < i ==> (#[trigger] members[k]).0 != key) ==> member_of(members, key) == Some(
            members[i].1,
        ),
        (forall|k: int| 0 <= k < members.len() ==> (#[trigger] members[k]).0 != key) ==> member_of(
            members,
            key,
        ) is None,
    decreases members.len(),
{
    if members.len() > 0 {
        let rest = members.drop_first();
        law_members_are_found_by_name(rest, key, i - 1);
        if 0 < i < members.len() && members[i].0 == key && (forall|k: int|
            0 <= k < i ==> (#[trigger] members[k]).0 != key) {
            assert(members[0].0 != key);
            assert forall|k: int| 0 <= k < i - 1 implies (#[trigger] rest[k]).0 != key by {
                assert(members[k + 1].0 != key);
            }
            assert(rest[i - 1] == members[i]);
        }
        if forall|k: int| 0 <= k < members.len() ==> (#[trigger] members[k]).0 != key {
            assert(members[0].0 != key);
            assert forall|k: int| 0 <= k < rest.len() implies (#[trigger] rest[k]).0 != key by {
                assert(members[k + 1].0 != key);
            }
        }
    }
}

/// The slashes at the end of an address are taken off.
pub proof fn law_slashes_are_taken_off(s: Seq<char>)
    ensures
        without_end_slashes(s.push('/')) == without_end_slashes(s),
        s.len() == 0 || s.last() != '/' ==> without_end_slashes(s) == s,
{
    assert(s.push('/').drop_last() =~= s);
}

} // verus!
