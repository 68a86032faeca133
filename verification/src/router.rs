//! What RouterOS answers, and what follows from it.

use vstd::prelude::*;
use vstd::string::*;

use crate::agent::DriverError;
use crate::crypto::{fingerprint_text, text_fingerprint};
use crate::ids::{uuid_text, uuid_to_text, Uuid};
use crate::ipv4::{address_text, address_to_text, Ipv4Addr};
use crate::json::{
    append_array, array_items, canonical_json, json_array, json_canonical, json_items, json_members,
    object_members, string_member, string_member_of,
};
use crate::lines::{lossy_text, sort_texts, utf8_lossy};
use crate::scrub::{scrub, steady_json, word_texts, JSON_DEPTH};
use crate::sort::stable_sorted;
use crate::text::{before, push_text, same_text, split_once, starts_with, texts, trim, trimmed};
use crate::urls::{parse_url, url_parsed, UrlParts, UrlView};

verus! {

/// What is wrong with the address of a router, if anything.
pub open spec fn target_problem(
    gateway_id: Uuid,
    url: UrlView,
    username: Seq<char>,
    password: Seq<char>,
) -> Option<Seq<char>> {
    if url.scheme != "https"@ {
        Some("RouterOS URL for "@ + uuid_text(gateway_id) + " must use HTTPS"@)
    } else if !url.has_host || !(url.path.len() == 0 || url.path == "/"@) || url.query is Some
        || url.fragment is Some {
        Some("RouterOS base URL must not include /rest, a query, or a fragment"@)
    } else if trimmed(username).len() == 0 || password.len() == 0 {
        Some("RouterOS username and password are required"@)
    } else {
        None
    }
}

/// Checks the address of a router and the login for it.
pub fn check_target(gateway_id: Uuid, url: &UrlParts, username: &str, password: &str) -> (r: Result<
    (),
    DriverError,
>)
    ensures
        match target_problem(gateway_id, url@, username@, password@) {
            None => r is Ok,
            Some(message) => r matches Err(DriverError::Invalid(m)) && m@ == message,
        },
{
    if !same_text(url.scheme.as_str(), "https") {
        let mut out = String::from_str("RouterOS URL for ");
        out.append(uuid_to_text(gateway_id).as_str());
        out.append(" must use HTTPS");
        return Err(DriverError::Invalid(out));
    }
    if !url.has_host || !(url.path.as_str().is_empty() || same_text(url.path.as_str(), "/"))
        || url.query.is_some() || url.fragment.is_some() {
        return Err(
            DriverError::Invalid(
                String::from_str(
                    "RouterOS base URL must not include /rest, a query, or a fragment",
                ),
            ),
        );
    }
    if trim(username).as_str().is_empty() || password.is_empty() {
        return Err(
            DriverError::Invalid(String::from_str("RouterOS username and password are required")),
        );
    }
    Ok(())
}

/// What is wrong with the connection material for a router, if anything.
pub open spec fn credential_problem(
    gateway_id: Uuid,
    backend: Seq<char>,
    base_url: Seq<char>,
    username: Seq<char>,
    password: Seq<char>,
) -> Option<Seq<char>> {
    if backend != "mikrotik"@ {
        Some(
            "gateway "@ + uuid_text(gateway_id) + " received "@ + backend
                + " credentials on a MikroTik agent"@,
        )
    } else {
        match url_parsed(base_url) {
            Err(error) => Some("invalid RouterOS URL: "@ + error),
            Ok(url) => target_problem(gateway_id, url, username, password),
        }
    }
}

/// Checks the connection material for a router and gives its address.
pub fn check_credential(
    gateway_id: Uuid,
    backend: &str,
    base_url: &str,
    username: &str,
    password: &str,
) -> (r: Result<UrlParts, DriverError>)
    ensures
        match credential_problem(gateway_id, backend@, base_url@, username@, password@) {
            None => r matches Ok(url) && url_parsed(base_url@) == Ok::<UrlView, Seq<char>>(url@),
            Some(message) => r matches Err(DriverError::Invalid(m)) && m@ == message,
        },
{
    if !same_text(backend, "mikrotik") {
        let mut out = String::from_str("gateway ");
        out.append(uuid_to_text(gateway_id).as_str());
        out.append(" received ");
        out.append(backend);
        out.append(" credentials on a MikroTik agent");
        return Err(DriverError::Invalid(out));
    }
    match parse_url(base_url) {
        Err(error) => Err(
            DriverError::Invalid(String::from_str("invalid RouterOS URL: ").concat(error.as_str())),
        ),
        Ok(url) => match check_target(gateway_id, &url, username, password) {
            Ok(_) => Ok(url),
            Err(error) => Err(error),
        },
    }
}

/// What is made of an answer: the document in it, `null` where it is empty.
pub open spec fn answer_document(
    success: bool,
    path: Seq<char>,
    status: Seq<char>,
    bytes: Seq<u8>,
) -> Result<Seq<char>, Seq<char>> {
    if !success {
        Err("RouterOS "@ + path + " returned "@ + status + ": "@ + utf8_lossy(bytes))
    } else if bytes.len() == 0 {
        Ok("null"@)
    } else {
        match json_canonical(bytes) {
            Ok(text) => Ok(text),
            Err(error) => Err("decode RouterOS response: "@ + error),
        }
    }
}

/// What is made of an answer.
pub fn decode_answer(success: bool, path: &str, status: &str, bytes: &[u8]) -> (r: Result<
    String,
    DriverError,
>)
    ensures
        match answer_document(success, path@, status@, bytes@) {
            Ok(text) => r matches Ok(s) && s@ == text,
            Err(message) => r matches Err(DriverError::Apply(m)) && m@ == message,
        },
{
    if !success {
        let mut out = String::from_str("RouterOS ");
        out.append(path);
        out.append(" returned ");
        out.append(status);
        out.append(": ");
        out.append(lossy_text(bytes).as_str());
        return Err(DriverError::Apply(out));
    }
    if bytes.len() == 0 {
        return Ok(String::from_str("null"));
    }
    match canonical_json(bytes) {
        Ok(text) => Ok(text),
        Err(error) => Err(
            DriverError::Apply(
                String::from_str("decode RouterOS response: ").concat(error.as_str()),
            ),
        ),
    }
}

/// The records in an answer to a listing.
pub fn listed_records(document: &str, resource: &str) -> (r: Result<Vec<String>, DriverError>)
    ensures
        match json_items(document@) {
            Some(items) => r matches Ok(v) && texts(v@) == items,
            None => r matches Err(DriverError::Apply(m)) && m@ == "RouterOS "@ + resource@
                + " response was not a list"@,
        },
{
    match array_items(document) {
        Some(items) => Ok(items),
        None => {
            let mut out = String::from_str("RouterOS ");
            out.append(resource);
            out.append(" response was not a list");
            Err(DriverError::Apply(out))
        },
    }
}

/// The record in an answer that holds one, by itself or as the first of a list.
pub open spec fn only_record(document: Seq<char>) -> Option<Seq<char>> {
    if json_members(document) is Some {
        Some(document)
    } else {
        match json_items(document) {
            Some(items) => if items.len() > 0 {
                Some(items[0])
            } else {
                None
            },
            None => None,
        }
    }
}

/// The record in an answer that holds one.
pub fn single_record(document: &str, resource: &str) -> (r: Result<String, DriverError>)
    ensures
        match only_record(document@) {
            Some(record) => r matches Ok(s) && s@ == record,
            None => r matches Err(DriverError::Apply(m)) && m@ == "RouterOS "@ + resource@
                + " response was empty"@,
        },
{
    if object_members(document).is_some() {
        return Ok(document.to_owned());
    }
    match array_items(document) {
        Some(items) => {
            if items.len() > 0 {
                assert(texts(items@)[0] == items@[0]@);
                return Ok(items[0].clone());
            }
        },
        None => {},
    }
    let mut out = String::from_str("RouterOS ");
    out.append(resource);
    out.append(" response was empty");
    Err(DriverError::Apply(out))
}

/// Which records a reconciliation is about.
pub enum RecordFilter<'a> {
    /// Those on an interface.
    OnInterface(&'a str),
    /// Those whose comment begins with a prefix.
    Managed(&'a str),
}

/// Whether a record is one of those.
pub open spec fn selects(filter: RecordFilter, record: Seq<char>) -> bool {
    match filter {
        RecordFilter::OnInterface(name) => string_member_of(record, "interface"@) == Some(name@),
        RecordFilter::Managed(prefix) => string_member_of(record, "comment"@) matches Some(comment)
            && prefix@.is_prefix_of(comment),
    }
}

fn is_selected(filter: &RecordFilter, record: &str) -> (r: bool)
    ensures
        r == selects(*filter, record@),
{
    match filter {
        RecordFilter::OnInterface(name) => match string_member(record, "interface") {
            Some(value) => same_text(value.as_str(), name),
            None => false,
        },
        RecordFilter::Managed(prefix) => match string_member(record, "comment") {
            Some(comment) => starts_with(comment.as_str(), prefix),
            None => false,
        },
    }
}

/// The selected ones of some records.
pub open spec fn selected(filter: RecordFilter, records: Seq<Seq<char>>) -> Seq<Seq<char>>
    decreases records.len(),
{
    if records.len() == 0 {
        Seq::empty()
    } else if selects(filter, records.last()) {
        selected(filter, records.drop_last()).push(records.last())
    } else {
        selected(filter, records.drop_last())
    }
}

/// The identifiers of some records, of those that have one.
pub open spec fn record_ids(records: Seq<Seq<char>>) -> Seq<Seq<char>>
    decreases records.len(),
{
    if records.len() == 0 {
        Seq::empty()
    } else {
        match string_member_of(records.last(), ".id"@) {
            Some(id) => record_ids(records.drop_last()).push(id),
            None => record_ids(records.drop_last()),
        }
    }
}

/// The selected ones of some records.
pub fn select_records(filter: &RecordFilter, records: &[String]) -> (r: Vec<String>)
    ensures
        texts(r@) == selected(*filter, texts(records@)),
{
    let ghost all = texts(records@);
    let mut out: Vec<String> = Vec::new();
    let mut i: usize = 0;
    assert(all.take(0) =~= Seq::<Seq<char>>::empty());
    assert(texts(out@) =~= Seq::<Seq<char>>::empty());
    while i < records.len()
        invariant
            i <= records@.len(),
            all == texts(records@),
            texts(out@) == selected(*filter, all.take(i as int)),
        decreases records@.len() - i,
    {
        let ghost next = all.take(i + 1);
        assert(next.drop_last() =~= all.take(i as int));
        assert(next.last() == records@[i as int]@);
        if is_selected(filter, records[i].as_str()) {
            push_text(&mut out, records[i].clone());
        }
        i = i + 1;
    }
    assert(all.take(i as int) =~= all);
    out
}

/// The identifiers of some records.
pub fn ids_of_records(records: &[String]) -> (r: Vec<String>)
    ensures
        texts(r@) == record_ids(texts(records@)),
{
    let ghost all = texts(records@);
    let mut out: Vec<String> = Vec::new();
    let mut i: usize = 0;
    assert(all.take(0) =~= Seq::<Seq<char>>::empty());
    assert(texts(out@) =~= Seq::<Seq<char>>::empty());
    while i < records.len()
        invariant
            i <= records@.len(),
            all == texts(records@),
            texts(out@) == record_ids(all.take(i as int)),
        decreases records@.len() - i,
    {
        let ghost next = all.take(i + 1);
        assert(next.drop_last() =~= all.take(i as int));
        assert(next.last() == records@[i as int]@);
        match string_member(records[i].as_str(), ".id") {
            Some(id) => push_text(&mut out, id),
            None => {},
        }
        i = i + 1;
    }
    assert(all.take(i as int) =~= all);
    out
}

/// The identifiers of the records that have to be removed: those of the selected ones.
pub fn records_to_remove(filter: &RecordFilter, records: &[String]) -> (r: Vec<String>)
    ensures
        texts(r@) == record_ids(selected(*filter, texts(records@))),
{
    let chosen = select_records(filter, records);
    ids_of_records(chosen.as_slice())
}

/// Nothing is removed that is not selected: records on other interfaces and records without the
/// prefix stay.
pub proof fn law_only_selected_records_are_removed(
    filter: RecordFilter,
    records: Seq<Seq<char>>,
    k: int,
)
    requires
        0 <= k < selected(filter, records).len(),
    ensures
        selects(filter, selected(filter, records)[k]),
        records.contains(selected(filter, records)[k]),
    decreases records.len(),
{
    let rest = records.drop_last();
    let chosen = selected(filter, rest);
    if k < chosen.len() {
        law_only_selected_records_are_removed(filter, rest, k);
        let m = choose|m: int| 0 <= m < rest.len() && rest[m] == chosen[k];
        assert(records[m] == chosen[k]);
    } else {
        assert(records[records.len() - 1] == records.last());
    }
}

/// The first record with a name.
pub open spec fn record_named(records: Seq<Seq<char>>, name: Seq<char>) -> Option<Seq<char>>
    decreases records.len(),
{
    if records.len() == 0 {
        None
    } else if string_member_of(records[0], "name"@) == Some(name) {
        Some(records[0])
    } else {
        record_named(records.drop_first(), name)
    }
}

/// The first record with a name.
pub fn find_interface(records: &[String], name: &str) -> (r: Option<String>)
    ensures
        match r {
            Some(record) => record_named(texts(records@), name@) == Some(record@),
            None => record_named(texts(records@), name@) is None,
        },
{
    let ghost all = texts(records@);
    let mut i: usize = 0;
    assert(all.skip(0) =~= all);
    while i < records.len()
        invariant
            i <= records@.len(),
            all == texts(records@),
            record_named(all, name@) == record_named(all.skip(i as int), name@),
        decreases records@.len() - i,
    {
        assert(all.skip(i as int)[0] == records@[i as int]@);
        match string_member(records[i].as_str(), "name") {
            Some(value) => {
                if same_text(value.as_str(), name) {
                    return Some(records[i].clone());
                }
            },
            None => {},
        }
        assert(all.skip(i as int).drop_first() =~= all.skip(i + 1));
        i = i + 1;
    }
    None
}

/// Whether a connection comes from one of some addresses: what stands before the first colon of
/// its source is one of them.
pub open spec fn comes_from(record: Seq<char>, sources: Seq<Ipv4Addr>) -> bool {
    string_member_of(record, "src-address"@) matches Some(source) && exists|i: int|
        0 <= i < sources.len() && #[trigger] address_text(sources[i]) == before(source, ':')
}

/// Whether a connection comes from one of some addresses.
pub fn is_from(record: &str, sources: &[Ipv4Addr]) -> (r: bool)
    ensures
        r == comes_from(record@, sources@),
{
    let source = match string_member(record, "src-address") {
        Some(source) => source,
        None => return false,
    };
    let address = match split_once(source.as_str(), ':') {
        Some((address, _)) => address,
        None => {
            proof {
                crate::text::lemma_first_place(source@, ':');
                crate::text::lemma_before(source@, ':', source@.len() as int);
                assert(source@.take(source@.len() as int) =~= source@);
            }
            source.clone()
        },
    };
    assert(address@ == before(source@, ':'));
    let mut i: usize = 0;
    while i < sources.len()
        invariant
            i <= sources@.len(),
            string_member_of(record@, "src-address"@) == Some(source@),
            address@ == before(source@, ':'),
            forall|k: int| 0 <= k < i ==> #[trigger] address_text(sources@[k]) != address@,
        decreases sources@.len() - i,
    {
        if same_text(address_to_text(sources[i]).as_str(), address.as_str()) {
            assert(address_text(sources@[i as int]) == address@);
            return true;
        }
        i = i + 1;
    }
    false
}

/// The members of a record that change by themselves or must not be kept.
pub open spec fn volatile_members() -> Seq<Seq<char>> {
    seq![
        ".id"@,
        "private-key"@,
        "last-handshake"@,
        "rx"@,
        "tx"@,
        "current-endpoint-address"@,
        "current-endpoint-port"@,
        "dynamic"@,
        "running"@,
        "packets"@,
        "bytes"@,
    ]
}

/// A record without what changes by itself.
pub open spec fn steady_record(record: Seq<char>) -> Seq<char> {
    steady_json(record, volatile_members(), JSON_DEPTH as nat)
}

/// Some records without what changes by itself.
pub open spec fn steady_records(records: Seq<Seq<char>>) -> Seq<Seq<char>> {
    records.map_values(|record: Seq<char>| steady_record(record))
}

fn scrub_record(record: &str) -> (r: String)
    ensures
        r@ == steady_record(record@),
{
    let volatile: Vec<&str> = vec![
        ".id",
        "private-key",
        "last-handshake",
        "rx",
        "tx",
        "current-endpoint-address",
        "current-endpoint-port",
        "dynamic",
        "running",
        "packets",
        "bytes",
    ];
    assert(word_texts(volatile@) =~= volatile_members());
    scrub(record, volatile.as_slice(), JSON_DEPTH)
}

fn scrub_records(records: &[String]) -> (r: Vec<String>)
    ensures
        texts(r@) == steady_records(texts(records@)),
{
    let ghost goal = steady_records(texts(records@));
    let mut out: Vec<String> = Vec::new();
    let mut i: usize = 0;
    while i < records.len()
        invariant
            i <= records@.len(),
            goal == steady_records(texts(records@)),
            texts(out@) =~= goal.take(i as int),
        decreases records@.len() - i,
    {
        push_text(&mut out, scrub_record(records[i].as_str()));
        assert(goal.take(i + 1) =~= goal.take(i as int).push(goal[i as int]));
        i = i + 1;
    }
    assert(goal.take(i as int) =~= goal);
    out
}

/// What a router is, as far as a gateway is concerned.
pub struct RouterState {
    pub interface: String,
    pub peers: Vec<String>,
    pub routes: Vec<String>,
    pub addresses: Vec<String>,
    pub filters: Vec<String>,
    pub address_lists: Vec<String>,
}

/// A router's state in JSON, without what changes by itself; everything but the filters, whose
/// order matters, is put in order.
pub open spec fn router_json(state: RouterState) -> Seq<char> {
    "{\"address_lists\":"@ + json_array(stable_sorted(steady_records(texts(state.address_lists@))))
        + ",\"addresses\":"@ + json_array(stable_sorted(steady_records(texts(state.addresses@))))
        + ",\"filters\":"@ + json_array(steady_records(texts(state.filters@))) + ",\"interface\":"@
        + steady_record(state.interface@) + ",\"peers\":"@ + json_array(
        stable_sorted(steady_records(texts(state.peers@))),
    ) + ",\"routes\":"@ + json_array(stable_sorted(steady_records(texts(state.routes@)))) + "}"@
}

fn append_sorted(out: &mut String, records: &[String])
    ensures
        final(out)@ == old(out)@ + json_array(stable_sorted(steady_records(texts(records@)))),
{
    let mut list = scrub_records(records);
    sort_texts(&mut list);
    append_array(out, list.as_slice());
}

/// The digest of what a router is.
pub fn router_state_hash(state: &RouterState) -> (r: String)
    ensures
        r@ == text_fingerprint(router_json(*state)),
{
    let mut out = String::from_str("{\"address_lists\":");
    append_sorted(&mut out, state.address_lists.as_slice());
    out.append(",\"addresses\":");
    append_sorted(&mut out, state.addresses.as_slice());
    out.append(",\"filters\":");
    append_array(&mut out, scrub_records(state.filters.as_slice()).as_slice());
    out.append(",\"interface\":");
    out.append(scrub_record(state.interface.as_str()).as_str());
    out.append(",\"peers\":");
    append_sorted(&mut out, state.peers.as_slice());
    out.append(",\"routes\":");
    append_sorted(&mut out, state.routes.as_slice());
    out.append("}");
    assert(out@ =~= router_json(*state));
    fingerprint_text(out.as_str())
}

/// What has to be done about the interface: an existing one is changed, a missing one created.
#[derive(Debug, Clone, PartialEq, Eq)]
pub enum InterfaceStep {
    Update { id: String },
    Create,
}

/// Decides on the interface by what a listing showed.
pub fn interface_step(found: Option<String>) -> (r: Result<InterfaceStep, DriverError>)
    ensures
        match found {
            None => r matches Ok(InterfaceStep::Create),
            Some(record) => match string_member_of(record@, ".id"@) {
                Some(id) => r matches Ok(InterfaceStep::Update { id: i }) && i@ == id,
                None => r matches Err(DriverError::Apply(m)) && m@
                    == "RouterOS interface has no .id"@,
            },
        },
{
    match found {
        None => Ok(InterfaceStep::Create),
        Some(record) => match string_member(record.as_str(), ".id") {
            Some(id) => Ok(InterfaceStep::Update { id }),
            None => Err(DriverError::Apply(String::from_str("RouterOS interface has no .id"))),
        },
    }
}

/// The identifier of an interface that was just created: from the answer, or else from a new
/// listing.
pub fn created_interface(answer: &str, found_after: Option<String>) -> (r: Result<
    String,
    DriverError,
>)
    ensures
        match string_member_of(answer@, ".id"@) {
            Some(id) => r matches Ok(i) && i@ == id,
            None => match found_after {
                Some(record) => match string_member_of(record@, ".id"@) {
                    Some(id) => r matches Ok(i) && i@ == id,
                    None => r matches Err(DriverError::Apply(m)) && m@
                        == "created interface cannot be found"@,
                },
                None => r matches Err(DriverError::Apply(m)) && m@
                    == "created interface cannot be found"@,
            },
        },
{
    match string_member(answer, ".id") {
        Some(id) => Ok(id),
        None => {
            let id = match found_after {
                Some(record) => string_member(record.as_str(), ".id"),
                None => None,
            };
            match id {
                Some(id) => Ok(id),
                None => Err(
                    DriverError::Apply(String::from_str("created interface cannot be found")),
                ),
            }
        },
    }
}

/// The public key in an interface's record.
pub fn reported_key(record: &str) -> (r: Result<String, DriverError>)
    ensures
        match string_member_of(record@, "public-key"@) {
            Some(key) => r matches Ok(k) && k@ == key,
            None => r matches Err(DriverError::Apply(m)) && m@
                == "RouterOS did not report a WireGuard public key"@,
        },
{
    match string_member(record, "public-key") {
        Some(key) => Ok(key),
        None => Err(
            DriverError::Apply(
                String::from_str("RouterOS did not report a WireGuard public key"),
            ),
        ),
    }
}

} // verus!
