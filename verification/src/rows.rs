//! Values as they stand in the rows of the database.

use vstd::prelude::*;
use vstd::string::*;

use crate::error::{internal, internal_error, ApiError, ErrorView};
use crate::ids::{parse_uuid_text, uuid_parsed, uuid_text, Uuid};
use crate::ipv4::{address_parsed, network_parsed, parse_address, Ipv4Addr, Ipv4Net};
use crate::text::{decimal, decimal_text, texts};

verus! {

/// What is wrong with an id in a row: nothing, where it is a UUID.
pub open spec fn id_fault(s: Seq<char>) -> Option<ErrorView> {
    match uuid_parsed(s) {
        Ok(_) => None,
        Err(message) => Some(internal(message)),
    }
}

/// The id in a row.
pub fn stored_id(s: &str) -> (r: Result<Uuid, ApiError>)
    ensures
        match r {
            Ok(id) => uuid_parsed(s@) == Ok::<Uuid, Seq<char>>(id),
            Err(e) => id_fault(s@) == Some(e@),
        },
        forall|id: u128| s@ == #[trigger] uuid_text(id) ==> r is Ok && r->Ok_0 == id,
{
    match parse_uuid_text(s) {
        Ok(id) => Ok(id),
        Err(message) => Err(internal_error(message.as_str())),
    }
}

/// What is wrong with an id of something in a row: nothing, where it is a UUID.
pub open spec fn named_id_fault(s: Seq<char>, field: Seq<char>) -> Option<ErrorView> {
    match uuid_parsed(s) {
        Ok(_) => None,
        Err(message) => Some(internal("invalid "@ + field + " UUID: "@ + message)),
    }
}

/// The id of something in a row.
pub fn named_id(s: &str, field: &str) -> (r: Result<Uuid, ApiError>)
    ensures
        match r {
            Ok(id) => uuid_parsed(s@) == Ok::<Uuid, Seq<char>>(id),
            Err(e) => named_id_fault(s@, field@) == Some(e@),
        },
        forall|id: u128| s@ == #[trigger] uuid_text(id) ==> r is Ok && r->Ok_0 == id,
{
    match parse_uuid_text(s) {
        Ok(id) => Ok(id),
        Err(message) => Err(
            internal_error(
                String::from_str("invalid ").concat(field).concat(" UUID: ").concat(
                    message.as_str(),
                ).as_str(),
            ),
        ),
    }
}

/// What is wrong with an id in a row: nothing, where it is a UUID.
pub open spec fn plain_id_fault(s: Seq<char>) -> Option<ErrorView> {
    match uuid_parsed(s) {
        Ok(_) => None,
        Err(message) => Some(internal("invalid UUID: "@ + message)),
    }
}

/// The id in a row.
pub fn plain_id(s: &str) -> (r: Result<Uuid, ApiError>)
    ensures
        match r {
            Ok(id) => uuid_parsed(s@) == Ok::<Uuid, Seq<char>>(id),
            Err(e) => plain_id_fault(s@) == Some(e@),
        },
        forall|id: u128| s@ == #[trigger] uuid_text(id) ==> r is Ok && r->Ok_0 == id,
{
    match parse_uuid_text(s) {
        Ok(id) => Ok(id),
        Err(message) => Err(
            internal_error(String::from_str("invalid UUID: ").concat(message.as_str()).as_str()),
        ),
    }
}

/// An optional text of a row.
pub open spec fn opt_str(s: Option<&str>) -> Option<Seq<char>> {
    match s {
        Some(v) => Some(v@),
        None => None,
    }
}

/// The first of two faults.
pub open spec fn or_fault(first: Option<ErrorView>, second: Option<ErrorView>) -> Option<ErrorView> {
    match first {
        Some(e) => Some(e),
        None => second,
    }
}

/// A fault, where a condition fails.
pub open spec fn unless(holds: bool, fault: ErrorView) -> Option<ErrorView> {
    if holds {
        None
    } else {
        Some(fault)
    }
}

/// What is wrong with an id of something in the database.
pub open spec fn db_id_fault(s: Seq<char>, field: Seq<char>) -> Option<ErrorView> {
    match uuid_parsed(s) {
        Ok(_) => None,
        Err(message) => Some(internal("invalid "@ + field + " UUID in database: "@ + message)),
    }
}

/// The id of something in the database.
pub fn db_id(s: &str, field: &str) -> (r: Result<Uuid, ApiError>)
    ensures
        match r {
            Ok(id) => uuid_parsed(s@) == Ok::<Uuid, Seq<char>>(id),
            Err(e) => db_id_fault(s@, field@) == Some(e@),
        },
        forall|id: u128| s@ == #[trigger] uuid_text(id) ==> r is Ok && r->Ok_0 == id,
{
    match parse_uuid_text(s) {
        Ok(id) => Ok(id),
        Err(message) => Err(
            internal_error(
                String::from_str("invalid ").concat(field).concat(" UUID in database: ").concat(
                    message.as_str(),
                ).as_str(),
            ),
        ),
    }
}

/// What is wrong with an address of something in the database.
pub open spec fn db_address_fault(s: Seq<char>, field: Seq<char>) -> Option<ErrorView> {
    unless(
        address_parsed(s) is Some,
        internal("invalid "@ + field + " address in database: invalid IPv4 address syntax"@),
    )
}

/// The address of something in the database.
pub fn db_address(s: &str, field: &str) -> (r: Result<Ipv4Addr, ApiError>)
    ensures
        match r {
            Ok(address) => address_parsed(s@) == Some(address),
            Err(e) => db_address_fault(s@, field@) == Some(e@),
        },
{
    match parse_address(s) {
        Some(address) => Ok(address),
        None => Err(
            internal_error(
                String::from_str("invalid ").concat(field).concat(
                    " address in database: invalid IPv4 address syntax",
                ).as_str(),
            ),
        ),
    }
}

/// The network that a text writes.
pub open spec fn net_of(s: Seq<char>) -> Ipv4Net {
    match network_parsed(s) {
        Some((base, bits)) => Ipv4Net::of(base, bits),
        None => Ipv4Net::of(0, 0),
    }
}

/// The network that a text writes.
pub fn read_net(s: &str) -> (r: Option<Ipv4Net>)
    ensures
        match r {
            Some(net) => network_parsed(s@) is Some && net == net_of(s@) && net.wf(),
            None => network_parsed(s@) is None,
        },
{
    match Ipv4Net::parse(s) {
        Some(net) => {
            proof {
                Ipv4Net::lemma_of(net.base(), net.bits());
                net.lemma_equal(Ipv4Net::of(net.base(), net.bits()));
            }
            Some(net)
        },
        None => None,
    }
}

/// What is wrong with a network of something in the database.
pub open spec fn db_net_fault(s: Seq<char>, field: Seq<char>) -> Option<ErrorView> {
    unless(
        network_parsed(s) is Some,
        internal("invalid "@ + field + " network in database: invalid IP address syntax"@),
    )
}

/// The network of something in the database.
pub fn db_net(s: &str, field: &str) -> (r: Result<Ipv4Net, ApiError>)
    ensures
        match r {
            Ok(net) => network_parsed(s@) is Some && net == net_of(s@) && net.wf(),
            Err(e) => db_net_fault(s@, field@) == Some(e@),
        },
{
    match read_net(s) {
        Some(net) => Ok(net),
        None => Err(
            internal_error(
                String::from_str("invalid ").concat(field).concat(
                    " network in database: invalid IP address syntax",
                ).as_str(),
            ),
        ),
    }
}

/// What is wrong with the first of some ids that something is wrong with.
pub open spec fn db_ids_fault(values: Seq<Seq<char>>, field: Seq<char>) -> Option<ErrorView>
    decreases values.len(),
{
    if values.len() == 0 {
        None
    } else {
        or_fault(db_ids_fault(values.drop_last(), field), db_id_fault(values.last(), field))
    }
}

/// The ids in some rows.
pub open spec fn db_ids_of(values: Seq<Seq<char>>) -> Seq<Uuid> {
    values.map_values(|s: Seq<char>| uuid_parsed(s)->Ok_0)
}

proof fn lemma_db_ids_fault(values: Seq<Seq<char>>, field: Seq<char>, i: int)
    requires
        0 <= i <= values.len(),
        db_ids_fault(values.take(i), field) is Some,
    ensures
        db_ids_fault(values, field) == db_ids_fault(values.take(i), field),
    decreases values.len(),
{
    if i == values.len() {
        assert(values.take(i) =~= values);
    } else {
        assert(values.drop_last().take(i) =~= values.take(i));
        lemma_db_ids_fault(values.drop_last(), field, i);
    }
}

/// The ids in some rows.
pub fn db_ids(values: &[String], field: &str) -> (r: Result<Vec<Uuid>, ApiError>)
    ensures
        match r {
            Ok(v) => db_ids_fault(texts(values@), field@) is None && v@ == db_ids_of(texts(values@)),
            Err(e) => db_ids_fault(texts(values@), field@) == Some(e@),
        },
{
    let ghost all = texts(values@);
    let ghost goal = db_ids_of(all);
    let mut out: Vec<Uuid> = Vec::new();
    let mut i: usize = 0;
    assert(out@ =~= goal.take(0));
    while i < values.len()
        invariant
            i <= values@.len(),
            all == texts(values@),
            goal == db_ids_of(all),
            db_ids_fault(all.take(i as int), field@) is None,
            out@ =~= goal.take(i as int),
        decreases values@.len() - i,
    {
        let ghost next = all.take(i + 1);
        proof {
            assert(next.drop_last() =~= all.take(i as int));
            assert(next.last() == values@[i as int]@);
        }
        match db_id(values[i].as_str(), field) {
            Ok(value) => {
                out.push(value);
                assert(goal.take(i + 1) =~= goal.take(i as int).push(goal[i as int]));
            },
            Err(e) => {
                proof {
                    lemma_db_ids_fault(all, field@, i + 1);
                }
                return Err(e);
            },
        }
        i = i + 1;
    }
    assert(all.take(i as int) =~= all);
    assert(goal.take(i as int) =~= goal);
    Ok(out)
}

/// What is wrong with the first of some addresses that something is wrong with.
pub open spec fn db_addresses_fault(values: Seq<Seq<char>>, field: Seq<char>) -> Option<ErrorView>
    decreases values.len(),
{
    if values.len() == 0 {
        None
    } else {
        or_fault(db_addresses_fault(values.drop_last(), field), db_address_fault(values.last(), field))
    }
}

/// The addresses in some rows.
pub open spec fn db_addresses_of(values: Seq<Seq<char>>) -> Seq<Ipv4Addr> {
    values.map_values(|s: Seq<char>| address_parsed(s)->0)
}

proof fn lemma_db_addresses_fault(values: Seq<Seq<char>>, field: Seq<char>, i: int)
    requires
        0 <= i <= values.len(),
        db_addresses_fault(values.take(i), field) is Some,
    ensures
        db_addresses_fault(values, field) == db_addresses_fault(values.take(i), field),
    decreases values.len(),
{
    if i == values.len() {
        assert(values.take(i) =~= values);
    } else {
        assert(values.drop_last().take(i) =~= values.take(i));
        lemma_db_addresses_fault(values.drop_last(), field, i);
    }
}

/// The addresses in some rows.
pub fn db_addresses(values: &[String], field: &str) -> (r: Result<Vec<Ipv4Addr>, ApiError>)
    ensures
        match r {
            Ok(v) => db_addresses_fault(texts(values@), field@) is None && v@ == db_addresses_of(texts(values@)),
            Err(e) => db_addresses_fault(texts(values@), field@) == Some(e@),
        },
{
    let ghost all = texts(values@);
    let ghost goal = db_addresses_of(all);
    let mut out: Vec<Ipv4Addr> = Vec::new();
    let mut i: usize = 0;
    assert(out@ =~= goal.take(0));
    while i < values.len()
        invariant
            i <= values@.len(),
            all == texts(values@),
            goal == db_addresses_of(all),
            db_addresses_fault(all.take(i as int), field@) is None,
            out@ =~= goal.take(i as int),
        decreases values@.len() - i,
    {
        let ghost next = all.take(i + 1);
        proof {
            assert(next.drop_last() =~= all.take(i as int));
            assert(next.last() == values@[i as int]@);
        }
        match db_address(values[i].as_str(), field) {
            Ok(value) => {
                out.push(value);
                assert(goal.take(i + 1) =~= goal.take(i as int).push(goal[i as int]));
            },
            Err(e) => {
                proof {
                    lemma_db_addresses_fault(all, field@, i + 1);
                }
                return Err(e);
            },
        }
        i = i + 1;
    }
    assert(all.take(i as int) =~= all);
    assert(goal.take(i as int) =~= goal);
    Ok(out)
}

/// What is wrong with the first of some networks that something is wrong with.
pub open spec fn db_nets_fault(values: Seq<Seq<char>>, field: Seq<char>) -> Option<ErrorView>
    decreases values.len(),
{
    if values.len() == 0 {
        None
    } else {
        or_fault(db_nets_fault(values.drop_last(), field), db_net_fault(values.last(), field))
    }
}

/// The networks in some rows.
pub open spec fn db_nets_of(values: Seq<Seq<char>>) -> Seq<Ipv4Net> {
    values.map_values(|s: Seq<char>| net_of(s))
}

proof fn lemma_db_nets_fault(values: Seq<Seq<char>>, field: Seq<char>, i: int)
    requires
        0 <= i <= values.len(),
        db_nets_fault(values.take(i), field) is Some,
    ensures
        db_nets_fault(values, field) == db_nets_fault(values.take(i), field),
    decreases values.len(),
{
    if i == values.len() {
        assert(values.take(i) =~= values);
    } else {
        assert(values.drop_last().take(i) =~= values.take(i));
        lemma_db_nets_fault(values.drop_last(), field, i);
    }
}

/// The networks in some rows.
pub fn db_nets(values: &[String], field: &str) -> (r: Result<Vec<Ipv4Net>, ApiError>)
    ensures
        match r {
            Ok(v) => db_nets_fault(texts(values@), field@) is None && v@ == db_nets_of(texts(values@)),
            Err(e) => db_nets_fault(texts(values@), field@) == Some(e@),
        },
{
    let ghost all = texts(values@);
    let ghost goal = db_nets_of(all);
    let mut out: Vec<Ipv4Net> = Vec::new();
    let mut i: usize = 0;
    assert(out@ =~= goal.take(0));
    while i < values.len()
        invariant
            i <= values@.len(),
            all == texts(values@),
            goal == db_nets_of(all),
            db_nets_fault(all.take(i as int), field@) is None,
            out@ =~= goal.take(i as int),
        decreases values@.len() - i,
    {
        let ghost next = all.take(i + 1);
        proof {
            assert(next.drop_last() =~= all.take(i as int));
            assert(next.last() == values@[i as int]@);
        }
        match db_net(values[i].as_str(), field) {
            Ok(value) => {
                out.push(value);
                assert(goal.take(i + 1) =~= goal.take(i as int).push(goal[i as int]));
            },
            Err(e) => {
                proof {
                    lemma_db_nets_fault(all, field@, i + 1);
                }
                return Err(e);
            },
        }
        i = i + 1;
    }
    assert(all.take(i as int) =~= all);
    assert(goal.take(i as int) =~= goal);
    Ok(out)
}

/// An integer in decimal.
pub open spec fn signed_decimal(n: int) -> Seq<char> {
    if n < 0 {
        "-"@ + decimal((-n) as nat)
    } else {
        decimal(n as nat)
    }
}

/// An integer in decimal.
pub fn signed_text(n: i64) -> (r: String)
    ensures
        r@ == signed_decimal(n as int),
{
    if n < 0 {
        let size: u64 = if n == i64::MIN {
            0x8000_0000_0000_0000u64
        } else {
            (-n) as u64
        };
        String::from_str("-").concat(decimal_text(size).as_str())
    } else {
        decimal_text(n as u64)
    }
}

} // verus!
