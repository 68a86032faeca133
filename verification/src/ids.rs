//! Identifiers: 128-bit numbers written as hyphenated UUIDs.

use std::collections::BTreeSet;

use vstd::arithmetic::power::pow;
use vstd::prelude::*;

use crate::sets::insert_id;
use crate::text::hex_digit;

verus! {

/// An identifier. Identifiers are ordered as their UUID bytes are, most significant first.
pub type Uuid = u128;

/// How many of the 32 hexadecimal digits stand before place `i` of a hyphenated UUID.
pub open spec fn digits_before(i: int) -> int {
    if i < 9 {
        i
    } else if i < 14 {
        i - 1
    } else if i < 19 {
        i - 2
    } else if i < 24 {
        i - 3
    } else {
        i - 4
    }
}

/// The hyphenated text of an identifier: 32 lower-case hexadecimal digits in groups of
/// eight, four, four, four and twelve.
pub open spec fn uuid_text(id: u128) -> Seq<char> {
    Seq::new(
        36,
        |i: int|
            if i == 8 || i == 13 || i == 18 || i == 23 {
                '-'
            } else {
                hex_digit(((id as int / pow(16, (31 - digits_before(i)) as nat)) % 16) as nat)
            },
    )
}

/// The digits of an identifier without hyphens.
pub open spec fn uuid_digits(id: u128) -> Seq<char> {
    Seq::new(32, |i: int| hex_digit(((id as int / pow(16, (31 - i) as nat)) % 16) as nat))
}

/// Calls `uuid::Uuid::simple` for its text: the 32 digits without hyphens.
#[verifier::external_body]
pub(crate) fn render_simple(id: Uuid) -> (r: String)
    ensures
        r@ == uuid_digits(id),
{
    uuid::Uuid::from_u128(id).simple().to_string()
}

/// What `uuid::Uuid::parse_str` makes of a text: the identifier, or what its error says.
pub uninterp spec fn uuid_parsed(s: Seq<char>) -> Result<u128, Seq<char>>;

/// A result with the contents of its error.
pub open spec fn result_text<T>(r: Result<T, String>) -> Result<T, Seq<char>> {
    match r {
        Ok(v) => Ok(v),
        Err(e) => Err(e@),
    }
}

/// Calls `uuid::Uuid::to_string`: the hyphenated lower-case form.
#[verifier::external_body]
pub(crate) fn render_uuid(id: Uuid) -> (r: String)
    ensures
        r@ == uuid_text(id),
{
    uuid::Uuid::from_u128(id).to_string()
}

/// Calls `uuid::Uuid::parse_str`: its result is [`uuid_parsed`] of the text, and the
/// hyphenated text of an identifier is read back as that identifier.
#[verifier::external_body]
pub(crate) fn read_uuid(s: &str) -> (r: Result<Uuid, String>)
    ensures
        result_text(r) == uuid_parsed(s@),
        forall|id: u128| s@ == #[trigger] uuid_text(id) ==> r is Ok && r->Ok_0 == id,
{
    match uuid::Uuid::parse_str(s) {
        Ok(id) => Ok(id.as_u128()),
        Err(error) => Err(error.to_string()),
    }
}

/// The hyphenated text of an identifier.
pub fn uuid_to_text(id: Uuid) -> (r: String)
    ensures
        r@ == uuid_text(id),
{
    render_uuid(id)
}

/// The identifier that a text stands for, or why it stands for none.
pub fn parse_uuid_text(s: &str) -> (r: Result<Uuid, String>)
    ensures
        result_text(r) == uuid_parsed(s@),
        forall|id: u128| s@ == #[trigger] uuid_text(id) ==> r is Ok && r->Ok_0 == id,
{
    read_uuid(s)
}

/// The set of the identifiers in a sequence.
pub fn id_set(ids: &[Uuid]) -> (r: BTreeSet<Uuid>)
    ensures
        r@ == ids@.to_set(),
{
    let mut out: BTreeSet<Uuid> = BTreeSet::new();
    let mut i: usize = 0;
    assert(ids@.take(0).to_set() =~= Set::<u128>::empty());
    while i < ids.len()
        invariant
            i <= ids@.len(),
            out@ == ids@.take(i as int).to_set(),
        decreases ids@.len() - i,
    {
        insert_id(&mut out, ids[i]);
        proof {
            let before = ids@.take(i as int);
            let after = ids@.take(i + 1);
            assert(after =~= before.push(ids@[i as int]));
            assert forall|x: u128| after.to_set().contains(x) == before.to_set().insert(
                ids@[i as int],
            ).contains(x) by {
                if after.contains(x) {
                    let k = choose|k: int| 0 <= k < after.len() && after[k] == x;
                    if k < before.len() {
                        assert(before[k] == x);
                    }
                }
                if before.contains(x) {
                    let k = choose|k: int| 0 <= k < before.len() && before[k] == x;
                    assert(after[k] == x);
                }
                assert(after[before.len() as int] == ids@[i as int]);
            }
            assert(after.to_set() =~= before.to_set().insert(ids@[i as int]));
        }
        i = i + 1;
    }
    assert(ids@.take(i as int) =~= ids@);
    out
}

/// Identifiers of its own, the same as some.
pub fn copy_ids(ids: &[Uuid]) -> (r: Vec<Uuid>)
    ensures
        r@ == ids@,
{
    let mut out: Vec<Uuid> = Vec::new();
    let mut i: usize = 0;
    while i < ids.len()
        invariant
            i <= ids@.len(),
            out@ =~= ids@.take(i as int),
        decreases ids@.len() - i,
    {
        out.push(ids[i]);
        i = i + 1;
    }
    out
}

} // verus!
