//! JSON as the library writes it: compact, with fields in a fixed order.

use vstd::prelude::*;
use vstd::string::*;

use crate::text::{decimal, decimal_text, hex_digit, join, joined, push_text, texts};

verus! {

/// How a character stands in a JSON string: quotation marks, backslashes and control characters
/// are escaped, the latter by a letter where there is one, else by their number.
pub open spec fn json_char(c: char) -> Seq<char> {
    if c == '"' {
        seq!['\\', '"']
    } else if c == '\\' {
        seq!['\\', '\\']
    } else if c == '\u{8}' {
        seq!['\\', 'b']
    } else if c == '\u{c}' {
        seq!['\\', 'f']
    } else if c == '\n' {
        seq!['\\', 'n']
    } else if c == '\r' {
        seq!['\\', 'r']
    } else if c == '\t' {
        seq!['\\', 't']
    } else if c <= '\u{1f}' {
        seq!['\\', 'u', '0', '0', hex_digit(c as nat / 16), hex_digit(c as nat % 16)]
    } else {
        seq![c]
    }
}

/// How the characters of a text stand in a JSON string.
pub open spec fn json_chars(s: Seq<char>) -> Seq<char>
    decreases s.len(),
{
    if s.len() == 0 {
        Seq::empty()
    } else {
        json_char(s[0]) + json_chars(s.drop_first())
    }
}

/// A text as a JSON string: in quotation marks, escaped.
pub open spec fn json_quoted(s: Seq<char>) -> Seq<char> {
    seq!['"'] + json_chars(s) + seq!['"']
}

/// Calls `serde_json` to write a string value: its result is [`json_quoted`] of the text.
#[verifier::external_body]
pub(crate) fn json_string(s: &str) -> (r: String)
    ensures
        r@ == json_quoted(s@),
{
    serde_json::Value::from(s).to_string()
}

/// The numeral of an optional number in JSON: `null` where there is none.
pub open spec fn json_opt_number(n: Option<u16>) -> Seq<char> {
    match n {
        Some(v) => decimal(v as nat),
        None => "null"@,
    }
}

/// The numeral of an optional number in JSON.
pub fn json_optional(n: Option<u16>) -> (r: String)
    ensures
        r@ == json_opt_number(n),
{
    match n {
        Some(v) => decimal_text(v as u64),
        None => String::from_str("null"),
    }
}

/// Some texts as a JSON array.
pub open spec fn json_array(items: Seq<Seq<char>>) -> Seq<char> {
    "["@ + joined(items, ","@) + "]"@
}

/// Each of some texts as a JSON string.
pub open spec fn all_quoted(items: Seq<Seq<char>>) -> Seq<Seq<char>> {
    items.map_values(|s: Seq<char>| json_quoted(s))
}

/// Each of some texts as a JSON string.
pub fn quote_all(items: &[String]) -> (r: Vec<String>)
    ensures
        texts(r@) == all_quoted(texts(items@)),
{
    let mut out: Vec<String> = Vec::new();
    let mut i: usize = 0;
    let ghost goal = all_quoted(texts(items@));
    while i < items.len()
        invariant
            i <= items@.len(),
            goal == all_quoted(texts(items@)),
            texts(out@) =~= goal.take(i as int),
        decreases items@.len() - i,
    {
        push_text(&mut out, json_string(items[i].as_str()));
        assert(goal.take(i + 1) =~= goal.take(i as int).push(goal[i as int]));
        i = i + 1;
    }
    assert(goal.take(i as int) =~= goal);
    out
}

/// Appends a JSON array of values that are already written.
pub fn append_array(out: &mut String, items: &[String])
    ensures
        final(out)@ == old(out)@ + json_array(texts(items@)),
{
    out.append("[");
    out.append(join(items, ",").as_str());
    out.append("]");
    assert(out@ =~= old(out)@ + json_array(texts(items@)));
}

/// What `serde_json` makes of a document when it reads and writes it again, compactly and with
/// the members of objects in order; or what its error says.
pub uninterp spec fn json_canonical(bytes: Seq<u8>) -> Result<Seq<char>, Seq<char>>;

/// The members of the JSON object in a text, by key, each value written compactly.
pub uninterp spec fn json_members(s: Seq<char>) -> Option<Seq<(Seq<char>, Seq<char>)>>;

/// The items of the JSON array in a text, each written compactly.
pub uninterp spec fn json_items(s: Seq<char>) -> Option<Seq<Seq<char>>>;

/// A result with the contents of its text and of its error.
pub open spec fn text_result(r: Result<String, String>) -> Result<Seq<char>, Seq<char>> {
    match r {
        Ok(v) => Ok(v@),
        Err(e) => Err(e@),
    }
}

/// The keys and values of some members.
pub open spec fn pair_texts(v: Seq<(String, String)>) -> Seq<(Seq<char>, Seq<char>)> {
    v.map_values(|p: (String, String)| (p.0@, p.1@))
}

/// Calls `serde_json::from_slice` and writes the value again: [`json_canonical`] of the bytes.
#[verifier::external_body]
pub(crate) fn canonical_json(bytes: &[u8]) -> (r: Result<String, String>)
    ensures
        text_result(r) == json_canonical(bytes@),
{
    match serde_json::from_slice::<serde_json::Value>(bytes) {
        Ok(value) => Ok(value.to_string()),
        Err(error) => Err(error.to_string()),
    }
}

/// Calls `serde_json::from_str` for an object: [`json_members`] of the text.
#[verifier::external_body]
pub(crate) fn object_members(s: &str) -> (r: Option<Vec<(String, String)>>)
    ensures
        match r {
            Some(v) => json_members(s@) == Some(pair_texts(v@)),
            None => json_members(s@) is None,
        },
{
    let members: Option<std::collections::BTreeMap<String, serde_json::Value>> =
        serde_json::from_str(s).ok();
    members.map(|m| m.into_iter().map(|(key, value)| (key, value.to_string())).collect())
}

/// Calls `serde_json::from_str` for an array: [`json_items`] of the text.
#[verifier::external_body]
pub(crate) fn array_items(s: &str) -> (r: Option<Vec<String>>)
    ensures
        match r {
            Some(v) => json_items(s@) == Some(texts(v@)),
            None => json_items(s@) is None,
        },
{
    let items: Option<Vec<serde_json::Value>> = serde_json::from_str(s).ok();
    items.map(|list| list.into_iter().map(|value| value.to_string()).collect())
}

/// The text that a JSON string stands for, or why a text is not one.
pub uninterp spec fn json_text(s: Seq<char>) -> Result<Seq<char>, Seq<char>>;

/// Calls `serde_json::from_str` for a string: [`json_text`] of the text.
#[verifier::external_body]
pub(crate) fn read_json_text(s: &str) -> (r: Result<String, String>)
    ensures
        text_result(r) == json_text(s@),
{
    match serde_json::from_str::<String>(s) {
        Ok(value) => Ok(value),
        Err(error) => Err(error.to_string()),
    }
}

/// The number that a JSON number stands for, or why a text is not one of 32 bits without a sign.
pub uninterp spec fn json_number(s: Seq<char>) -> Result<u32, Seq<char>>;

/// Calls `serde_json::from_str` for an unsigned number of 32 bits: [`json_number`] of the text.
#[verifier::external_body]
pub(crate) fn read_json_number(s: &str) -> (r: Result<u32, String>)
    ensures
        match r {
            Ok(n) => json_number(s@) == Ok::<u32, Seq<char>>(n),
            Err(e) => json_number(s@) == Err::<u32, Seq<char>>(e@),
        },
{
    match serde_json::from_str::<u32>(s) {
        Ok(value) => Ok(value),
        Err(error) => Err(error.to_string()),
    }
}

/// The text that a JSON string stands for.
pub open spec fn json_unquoted(s: Seq<char>) -> Option<Seq<char>> {
    match json_text(s) {
        Ok(text) => Some(text),
        Err(_) => None,
    }
}

/// The text that a JSON string stands for.
pub(crate) fn string_value(s: &str) -> (r: Option<String>)
    ensures
        match r {
            Some(v) => json_unquoted(s@) == Some(v@),
            None => json_unquoted(s@) is None,
        },
{
    match read_json_text(s) {
        Ok(text) => Some(text),
        Err(_) => None,
    }
}

/// The value of the member with a key, where there is one.
pub open spec fn member_of(members: Seq<(Seq<char>, Seq<char>)>, key: Seq<char>) -> Option<Seq<char>>
    decreases members.len(),
{
    if members.len() == 0 {
        None
    } else if members[0].0 == key {
        Some(members[0].1)
    } else {
        member_of(members.drop_first(), key)
    }
}

/// The text of a string member of the JSON object in a text.
pub open spec fn string_member_of(s: Seq<char>, key: Seq<char>) -> Option<Seq<char>> {
    match json_members(s) {
        None => None,
        Some(members) => match member_of(members, key) {
            None => None,
            Some(value) => json_unquoted(value),
        },
    }
}

/// The text of a string member of the JSON object in a text.
pub fn string_member(s: &str, key: &str) -> (r: Option<String>)
    ensures
        match r {
            Some(v) => string_member_of(s@, key@) == Some(v@),
            None => string_member_of(s@, key@) is None,
        },
{
    match object_members(s) {
        None => None,
        Some(members) => find_string(members.as_slice(), key),
    }
}

/// The text of the string member with a key among some members.
pub fn find_string(members: &[(String, String)], key: &str) -> (r: Option<String>)
    ensures
        match r {
            Some(v) => member_of(pair_texts(members@), key@) matches Some(m) && json_unquoted(m)
                == Some(v@),
            None => member_of(pair_texts(members@), key@) matches Some(m) ==> json_unquoted(
                m,
            ) is None,
        },
{
    let ghost all = pair_texts(members@);
    let mut i: usize = 0;
    assert(all.skip(0) =~= all);
    while i < members.len()
        invariant
            i <= members@.len(),
            all == pair_texts(members@),
            member_of(all, key@) == member_of(all.skip(i as int), key@),
        decreases members@.len() - i,
    {
        assert(all.skip(i as int)[0] == (members@[i as int].0@, members@[i as int].1@));
        if crate::text::same_text(members[i].0.as_str(), key) {
            return string_value(members[i].1.as_str());
        }
        assert(all.skip(i as int).drop_first() =~= all.skip(i + 1));
        i = i + 1;
    }
    None
}

} // verus!
