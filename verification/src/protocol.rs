//! Gateway states as messages, and messages as gateway states.

use vstd::prelude::*;
use vstd::string::*;

use crate::acl::{AclAction, AclRule, AclSubjects, IpProtocol, PortRange};
use crate::config::{address_texts, addresses_to_texts, network_texts, networks_to_texts};
use crate::ids::{id_set, parse_uuid_text, uuid_parsed, uuid_text, uuid_to_text, Uuid};
use crate::ipv4::{
    address_parsed, address_text, address_to_text, network_parsed, parse_address, Ipv4Addr, Ipv4Net,
};
use crate::sets::{ascending, lemma_ascending, listable, sorted_ids};
use crate::state::{canonical, DesiredGatewayState, DesiredPeer, PeerView, RuleView, StateView};
use crate::text::{push_text, same_text, texts};
use crate::wire::{
    DesiredSnapshot, SnapshotView, WirePeer, WirePeerView, WireRule, WireRuleView,
};

verus! {

/// Why a message is refused: which field is wrong, and how.
#[derive(Debug, Clone, PartialEq, Eq)]
pub enum ProtocolError {
    Invalid { field: &'static str, message: String },
}

/// The contents of a [`ProtocolError`].
#[verifier::ext_equal]
pub struct FieldError {
    pub field: Seq<char>,
    pub message: Seq<char>,
}

impl View for ProtocolError {
    type V = FieldError;

    open spec fn view(&self) -> FieldError {
        match self {
            ProtocolError::Invalid { field, message } => FieldError {
                field: field@,
                message: message@,
            },
        }
    }
}

impl ProtocolError {
    /// What the error says.
    pub fn message(&self) -> (r: String)
        ensures
            r@ == "invalid "@ + self@.field + ": "@ + self@.message,
    {
        match self {
            ProtocolError::Invalid { field, message } => {
                let mut out = String::from_str("invalid ");
                out.append(field);
                out.append(": ");
                out.append(message.as_str());
                out
            },
        }
    }
}

/// A result with the contents of its error.
pub open spec fn field_result<T>(r: Result<T, ProtocolError>) -> Result<T, FieldError> {
    match r {
        Ok(v) => Ok(v),
        Err(e) => Err(e@),
    }
}

/// The error of a field.
pub fn invalid(field: &'static str, message: String) -> (r: ProtocolError)
    ensures
        r@ == (FieldError { field: field@, message: message@ }),
{
    ProtocolError::Invalid { field, message }
}

/// The name of an action.
pub open spec fn action_text(action: AclAction) -> Seq<char> {
    match action {
        AclAction::Allow => "allow"@,
        AclAction::Deny => "deny"@,
    }
}

/// The name of an action.
pub fn action_name(action: AclAction) -> (r: &'static str)
    ensures
        r@ == action_text(action),
{
    match action {
        AclAction::Allow => "allow",
        AclAction::Deny => "deny",
    }
}

/// The name of a protocol.
pub open spec fn protocol_text(protocol: IpProtocol) -> Seq<char> {
    match protocol {
        IpProtocol::Any => "any"@,
        IpProtocol::Tcp => "tcp"@,
        IpProtocol::Udp => "udp"@,
        IpProtocol::Icmp => "icmp"@,
    }
}

/// The name of a protocol.
pub fn protocol_name(protocol: IpProtocol) -> (r: &'static str)
    ensures
        r@ == protocol_text(protocol),
{
    match protocol {
        IpProtocol::Any => "any",
        IpProtocol::Tcp => "tcp",
        IpProtocol::Udp => "udp",
        IpProtocol::Icmp => "icmp",
    }
}

/// Actions and protocols with the same name are the same.
pub proof fn lemma_names_differ()
    ensures
        forall|a: AclAction, b: AclAction| #[trigger]
            action_text(a) == #[trigger] action_text(b) ==> a == b,
        forall|a: IpProtocol, b: IpProtocol| #[trigger]
            protocol_text(a) == #[trigger] protocol_text(b) ==> a == b,
{
    reveal_strlit("allow");
    reveal_strlit("deny");
    reveal_strlit("any");
    reveal_strlit("tcp");
    reveal_strlit("udp");
    reveal_strlit("icmp");
    assert("allow"@.len() == 5 && "deny"@.len() == 4);
    assert("any"@[0] == 'a' && "tcp"@[0] == 't' && "udp"@[0] == 'u' && "icmp"@[0] == 'i');
}

/// The action of a name.
pub open spec fn action_named(s: Seq<char>) -> Option<AclAction> {
    if s == "allow"@ {
        Some(AclAction::Allow)
    } else if s == "deny"@ {
        Some(AclAction::Deny)
    } else {
        None
    }
}

/// The protocol of a name.
pub open spec fn protocol_named(s: Seq<char>) -> Option<IpProtocol> {
    if s == "any"@ {
        Some(IpProtocol::Any)
    } else if s == "tcp"@ {
        Some(IpProtocol::Tcp)
    } else if s == "udp"@ {
        Some(IpProtocol::Udp)
    } else if s == "icmp"@ {
        Some(IpProtocol::Icmp)
    } else {
        None
    }
}

/// The action of a name.
pub fn find_action(s: &str) -> (r: Option<AclAction>)
    ensures
        r == action_named(s@),
        forall|a: AclAction| s@ == #[trigger] action_text(a) ==> r == Some(a),
{
    proof {
        lemma_names_differ();
        assert(action_text(AclAction::Allow) == "allow"@);
        assert(action_text(AclAction::Deny) == "deny"@);
    }
    if same_text(s, "allow") {
        Some(AclAction::Allow)
    } else if same_text(s, "deny") {
        Some(AclAction::Deny)
    } else {
        None
    }
}

/// The protocol of a name.
pub fn find_protocol(s: &str) -> (r: Option<IpProtocol>)
    ensures
        r == protocol_named(s@),
        forall|p: IpProtocol| s@ == #[trigger] protocol_text(p) ==> r == Some(p),
{
    proof {
        lemma_names_differ();
        assert(protocol_text(IpProtocol::Any) == "any"@);
        assert(protocol_text(IpProtocol::Tcp) == "tcp"@);
        assert(protocol_text(IpProtocol::Udp) == "udp"@);
        assert(protocol_text(IpProtocol::Icmp) == "icmp"@);
    }
    if same_text(s, "any") {
        Some(IpProtocol::Any)
    } else if same_text(s, "tcp") {
        Some(IpProtocol::Tcp)
    } else if same_text(s, "udp") {
        Some(IpProtocol::Udp)
    } else if same_text(s, "icmp") {
        Some(IpProtocol::Icmp)
    } else {
        None
    }
}

/// The action that a field names.
pub open spec fn read_action(s: Seq<char>, field: Seq<char>) -> Result<AclAction, FieldError> {
    match action_named(s) {
        Some(a) => Ok(a),
        None => Err(FieldError { field, message: "expected allow or deny"@ }),
    }
}

/// The protocol that a rule names.
pub open spec fn read_protocol(s: Seq<char>) -> Result<IpProtocol, FieldError> {
    match protocol_named(s) {
        Some(p) => Ok(p),
        None => Err(FieldError { field: "acl.protocol"@, message: "unsupported protocol"@ }),
    }
}

/// The identifier in a field.
pub open spec fn read_id(s: Seq<char>, field: Seq<char>) -> Result<Uuid, FieldError> {
    match uuid_parsed(s) {
        Ok(id) => Ok(id),
        Err(message) => Err(FieldError { field, message }),
    }
}

/// The address in a field.
pub open spec fn read_address(s: Seq<char>, field: Seq<char>) -> Result<Ipv4Addr, FieldError> {
    match address_parsed(s) {
        Some(a) => Ok(a),
        None => Err(FieldError { field, message: "invalid IPv4 address syntax"@ }),
    }
}

/// The network in a field.
pub open spec fn read_network(s: Seq<char>, field: Seq<char>) -> Result<Ipv4Net, FieldError> {
    match network_parsed(s) {
        Some((addr, prefix_len)) => Ok(Ipv4Net::of(addr, prefix_len)),
        None => Err(FieldError { field, message: "invalid IP address syntax"@ }),
    }
}

/// The 16-bit number in a field.
pub open spec fn read_number(n: u32, field: Seq<char>) -> Result<u16, FieldError> {
    if n <= 0xffff {
        Ok(n as u16)
    } else {
        Err(FieldError { field, message: "out of range integral type conversion attempted"@ })
    }
}

/// The action that a field names.
pub fn action(value: &str, field: &'static str) -> (r: Result<AclAction, ProtocolError>)
    ensures
        field_result(r) == read_action(value@, field@),
        forall|a: AclAction| value@ == #[trigger] action_text(a) ==> r is Ok && r->Ok_0 == a,
{
    match find_action(value) {
        Some(a) => Ok(a),
        None => Err(invalid(field, String::from_str("expected allow or deny"))),
    }
}

/// The protocol that a rule names.
pub fn protocol(value: &str) -> (r: Result<IpProtocol, ProtocolError>)
    ensures
        field_result(r) == read_protocol(value@),
        forall|p: IpProtocol| value@ == #[trigger] protocol_text(p) ==> r is Ok && r->Ok_0 == p,
{
    match find_protocol(value) {
        Some(p) => Ok(p),
        None => Err(invalid("acl.protocol", String::from_str("unsupported protocol"))),
    }
}

/// The identifier in a field.
pub fn uuid(value: &str, field: &'static str) -> (r: Result<Uuid, ProtocolError>)
    ensures
        field_result(r) == read_id(value@, field@),
        forall|id: Uuid| value@ == #[trigger] uuid_text(id) ==> r is Ok && r->Ok_0 == id,
{
    match parse_uuid_text(value) {
        Ok(id) => Ok(id),
        Err(error) => Err(invalid(field, error)),
    }
}

/// The address in a field.
pub fn ipv4(value: &str, field: &'static str) -> (r: Result<Ipv4Addr, ProtocolError>)
    ensures
        field_result(r) == read_address(value@, field@),
        forall|a: Ipv4Addr| value@ == #[trigger] address_text(a) ==> r is Ok && r->Ok_0 == a,
{
    match parse_address(value) {
        Some(a) => Ok(a),
        None => Err(invalid(field, String::from_str("invalid IPv4 address syntax"))),
    }
}

/// The network in a field.
pub fn ipv4_net(value: &str, field: &'static str) -> (r: Result<Ipv4Net, ProtocolError>)
    ensures
        field_result(r) == read_network(value@, field@),
        forall|net: Ipv4Net|
            net.wf() && value@ == #[trigger] net.text() ==> r is Ok && r->Ok_0 == net,
{
    match Ipv4Net::parse(value) {
        Some(net) => {
            proof {
                Ipv4Net::lemma_of(net.base(), net.bits());
                net.lemma_equal(Ipv4Net::of(net.base(), net.bits()));
            }
            Ok(net)
        },
        None => Err(invalid(field, String::from_str("invalid IP address syntax"))),
    }
}

/// The 16-bit number in a field.
pub fn number_u16(value: u32, field: &'static str) -> (r: Result<u16, ProtocolError>)
    ensures
        field_result(r) == read_number(value, field@),
{
    if value <= 0xffff {
        Ok(value as u16)
    } else {
        Err(
            invalid(
                field,
                String::from_str("out of range integral type conversion attempted"),
            ),
        )
    }
}

/// All of the values, or the first error.
pub open spec fn all_or_first_error<T>(items: Seq<Result<T, FieldError>>) -> Result<
    Seq<T>,
    FieldError,
>
    decreases items.len(),
{
    if items.len() == 0 {
        Ok(Seq::empty())
    } else {
        match all_or_first_error(items.drop_last()) {
            Err(e) => Err(e),
            Ok(values) => match items.last() {
                Err(e) => Err(e),
                Ok(value) => Ok(values.push(value)),
            },
        }
    }
}

/// One more item after a run of good ones.
proof fn lemma_collect_step<T>(items: Seq<Result<T, FieldError>>, n: int)
    requires
        0 <= n < items.len(),
        all_or_first_error(items.take(n)) is Ok,
    ensures
        items[n] matches Ok(v) ==> all_or_first_error(items.take(n + 1)) == Ok::<
            Seq<T>,
            FieldError,
        >(all_or_first_error(items.take(n))->Ok_0.push(v)),
        items[n] matches Err(e) ==> all_or_first_error(items) == Err::<Seq<T>, FieldError>(e),
{
    let next = items.take(n + 1);
    assert(next.drop_last() =~= items.take(n));
    assert(next.last() == items[n]);
    if items[n] is Err {
        lemma_error_stays(items, n + 1);
    }
}

proof fn lemma_error_stays<T>(items: Seq<Result<T, FieldError>>, n: int)
    requires
        0 <= n <= items.len(),
        all_or_first_error(items.take(n)) is Err,
    ensures
        all_or_first_error(items) == all_or_first_error(items.take(n)),
    decreases items.len() - n,
{
    if n < items.len() {
        assert(items.take(n + 1).drop_last() =~= items.take(n));
        lemma_error_stays(items, n + 1);
    } else {
        assert(items.take(n) =~= items);
    }
}

/// The identifiers in a repeated field.
pub open spec fn read_ids(items: Seq<Seq<char>>, field: Seq<char>) -> Result<
    Seq<Uuid>,
    FieldError,
> {
    all_or_first_error(items.map_values(|s: Seq<char>| read_id(s, field)))
}

/// The texts of some identifiers.
pub open spec fn id_texts(ids: Seq<Uuid>) -> Seq<Seq<char>> {
    ids.map_values(|id: Uuid| uuid_text(id))
}

/// The contents of a vector in a result.
pub open spec fn seq_result<T>(r: Result<Vec<T>, ProtocolError>) -> Result<Seq<T>, FieldError> {
    match r {
        Ok(v) => Ok(v@),
        Err(e) => Err(e@),
    }
}

fn uuid_list(items: &[String], field: &'static str) -> (r: Result<Vec<Uuid>, ProtocolError>)
    ensures
        seq_result(r) == read_ids(texts(items@), field@),
        forall|ids: Seq<Uuid>|
            texts(items@) == #[trigger] id_texts(ids) ==> r is Ok && r->Ok_0@ == ids,
{
    let ghost all = texts(items@).map_values(|s: Seq<char>| read_id(s, field@));
    let mut out: Vec<Uuid> = Vec::new();
    let mut i: usize = 0;
    assert(all.take(0) =~= Seq::<Result<Uuid, FieldError>>::empty());
    while i < items.len()
        invariant
            i <= items@.len(),
            all == texts(items@).map_values(|s: Seq<char>| read_id(s, field@)),
            all_or_first_error(all.take(i as int)) == Ok::<Seq<Uuid>, FieldError>(out@),
            out@.len() == i,
            forall|ids: Seq<Uuid>|
                texts(items@) == #[trigger] id_texts(ids) ==> ids.take(i as int) == out@,
        decreases items@.len() - i,
    {
        proof {
            lemma_collect_step(all, i as int);
            assert(texts(items@)[i as int] == items@[i as int]@);
        }
        match uuid(items[i].as_str(), field) {
            Ok(id) => {
                proof {
                    assert forall|ids: Seq<Uuid>|
                        texts(items@) == #[trigger] id_texts(ids) implies ids.take(i + 1)
                        == out@.push(id) by {
                        assert(ids.len() == items@.len()) by {
                            assert(id_texts(ids).len() == texts(items@).len());
                        }
                        assert(id_texts(ids)[i as int] == uuid_text(ids[i as int]));
                        assert(ids.take(i + 1) =~= ids.take(i as int).push(ids[i as int]));
                    }
                }
                out.push(id);
            },
            Err(error) => {
                proof {
                    assert forall|ids: Seq<Uuid>| texts(items@) != #[trigger] id_texts(ids) by {
                        if texts(items@) == id_texts(ids) {
                            assert(id_texts(ids).len() == texts(items@).len());
                            assert(id_texts(ids)[i as int] == uuid_text(ids[i as int]));
                        }
                    }
                }
                return Err(error);
            },
        }
        i = i + 1;
    }
    proof {
        assert(all.take(i as int) =~= all);
        assert forall|ids: Seq<Uuid>| texts(items@) == #[trigger] id_texts(ids) implies ids
            == out@ by {
            assert(id_texts(ids).len() == texts(items@).len());
            assert(ids.take(i as int) =~= ids);
        }
    }
    Ok(out)
}

/// The addresses in a repeated field.
pub open spec fn read_addresses(items: Seq<Seq<char>>, field: Seq<char>) -> Result<
    Seq<Ipv4Addr>,
    FieldError,
> {
    all_or_first_error(items.map_values(|s: Seq<char>| read_address(s, field)))
}

fn address_list(items: &[String], field: &'static str) -> (r: Result<Vec<Ipv4Addr>, ProtocolError>)
    ensures
        seq_result(r) == read_addresses(texts(items@), field@),
        forall|list: Seq<Ipv4Addr>|
            texts(items@) == #[trigger] address_texts(list) ==> r is Ok && r->Ok_0@ == list,
{
    let ghost all = texts(items@).map_values(|s: Seq<char>| read_address(s, field@));
    let mut out: Vec<Ipv4Addr> = Vec::new();
    let mut i: usize = 0;
    assert(all.take(0) =~= Seq::<Result<Ipv4Addr, FieldError>>::empty());
    while i < items.len()
        invariant
            i <= items@.len(),
            all == texts(items@).map_values(|s: Seq<char>| read_address(s, field@)),
            all_or_first_error(all.take(i as int)) == Ok::<Seq<Ipv4Addr>, FieldError>(out@),
            out@.len() == i,
            forall|list: Seq<Ipv4Addr>|
                texts(items@) == #[trigger] address_texts(list) ==> list.take(i as int) == out@,
        decreases items@.len() - i,
    {
        proof {
            lemma_collect_step(all, i as int);
            assert(texts(items@)[i as int] == items@[i as int]@);
        }
        match ipv4(items[i].as_str(), field) {
            Ok(address) => {
                proof {
                    assert forall|list: Seq<Ipv4Addr>|
                        texts(items@) == #[trigger] address_texts(list) implies list.take(i + 1)
                        == out@.push(address) by {
                        assert(address_texts(list).len() == texts(items@).len());
                        assert(address_texts(list)[i as int] == address_text(list[i as int]));
                        assert(list.take(i + 1) =~= list.take(i as int).push(list[i as int]));
                    }
                }
                out.push(address);
            },
            Err(error) => {
                proof {
                    assert forall|list: Seq<Ipv4Addr>| texts(items@) != #[trigger] address_texts(
                        list,
                    ) by {
                        if texts(items@) == address_texts(list) {
                            assert(address_texts(list).len() == texts(items@).len());
                            assert(address_texts(list)[i as int] == address_text(list[i as int]));
                        }
                    }
                }
                return Err(error);
            },
        }
        i = i + 1;
    }
    proof {
        assert(all.take(i as int) =~= all);
        assert forall|list: Seq<Ipv4Addr>| texts(items@) == #[trigger] address_texts(
            list,
        ) implies list == out@ by {
            assert(address_texts(list).len() == texts(items@).len());
            assert(list.take(i as int) =~= list);
        }
    }
    Ok(out)
}

/// The networks in a repeated field.
pub open spec fn read_networks(items: Seq<Seq<char>>, field: Seq<char>) -> Result<
    Seq<Ipv4Net>,
    FieldError,
> {
    all_or_first_error(items.map_values(|s: Seq<char>| read_network(s, field)))
}

/// Every network has a prefix length that a network can have.
pub open spec fn networks_wf(nets: Seq<Ipv4Net>) -> bool {
    forall|i: int| 0 <= i < nets.len() ==> (#[trigger] nets[i]).wf()
}

fn network_list(items: &[String], field: &'static str) -> (r: Result<Vec<Ipv4Net>, ProtocolError>)
    ensures
        seq_result(r) == read_networks(texts(items@), field@),
        forall|list: Seq<Ipv4Net>|
            networks_wf(list) && texts(items@) == #[trigger] network_texts(list) ==> r is Ok
                && r->Ok_0@ == list,
{
    let ghost all = texts(items@).map_values(|s: Seq<char>| read_network(s, field@));
    let mut out: Vec<Ipv4Net> = Vec::new();
    let mut i: usize = 0;
    assert(all.take(0) =~= Seq::<Result<Ipv4Net, FieldError>>::empty());
    while i < items.len()
        invariant
            i <= items@.len(),
            all == texts(items@).map_values(|s: Seq<char>| read_network(s, field@)),
            all_or_first_error(all.take(i as int)) == Ok::<Seq<Ipv4Net>, FieldError>(out@),
            out@.len() == i,
            forall|list: Seq<Ipv4Net>|
                networks_wf(list) && texts(items@) == #[trigger] network_texts(list) ==> list.take(
                    i as int,
                ) == out@,
        decreases items@.len() - i,
    {
        proof {
            lemma_collect_step(all, i as int);
            assert(texts(items@)[i as int] == items@[i as int]@);
        }
        match ipv4_net(items[i].as_str(), field) {
            Ok(net) => {
                proof {
                    assert forall|list: Seq<Ipv4Net>|
                        networks_wf(list) && texts(items@) == #[trigger] network_texts(
                            list,
                        ) implies list.take(i + 1) == out@.push(net) by {
                        assert(network_texts(list).len() == texts(items@).len());
                        assert(network_texts(list)[i as int] == list[i as int].text());
                        assert(list[i as int].wf());
                        assert(list.take(i + 1) =~= list.take(i as int).push(list[i as int]));
                    }
                }
                out.push(net);
            },
            Err(error) => {
                proof {
                    assert forall|list: Seq<Ipv4Net>| networks_wf(list) implies texts(items@)
                        != #[trigger] network_texts(list) by {
                        if texts(items@) == network_texts(list) {
                            assert(network_texts(list).len() == texts(items@).len());
                            assert(network_texts(list)[i as int] == list[i as int].text());
                            assert(list[i as int].wf());
                        }
                    }
                }
                return Err(error);
            },
        }
        i = i + 1;
    }
    proof {
        assert(all.take(i as int) =~= all);
        assert forall|list: Seq<Ipv4Net>|
            networks_wf(list) && texts(items@) == #[trigger] network_texts(list) implies list
            == out@ by {
            assert(network_texts(list).len() == texts(items@).len());
            assert(list.take(i as int) =~= list);
        }
    }
    Ok(out)
}

/// The device that a message describes.
pub open spec fn read_peer(peer: WirePeerView) -> Result<PeerView, FieldError> {
    match read_id(peer.device_id, "peer.device_id"@) {
        Err(e) => Err(e),
        Ok(device_id) => match read_id(peer.user_id, "peer.user_id"@) {
            Err(e) => Err(e),
            Ok(user_id) => match read_address(peer.allowed_address, "peer.allowed_address"@) {
                Err(e) => Err(e),
                Ok(allowed_address) => match read_ids(peer.group_ids, "peer.group_ids"@) {
                    Err(e) => Err(e),
                    Ok(group_ids) => Ok(
                        PeerView {
                            device_id,
                            user_id,
                            public_key: peer.public_key,
                            allowed_address,
                            group_ids: group_ids.to_set(),
                        },
                    ),
                },
            },
        },
    }
}

/// The message about a device.
pub open spec fn peer_message(peer: PeerView) -> WirePeerView {
    WirePeerView {
        device_id: uuid_text(peer.device_id),
        user_id: uuid_text(peer.user_id),
        public_key: peer.public_key,
        allowed_address: address_text(peer.allowed_address),
        group_ids: id_texts(ascending(peer.group_ids)),
    }
}

/// A result with the contents of its value and of its error.
pub open spec fn view_result<T: View>(r: Result<T, ProtocolError>) -> Result<T::V, FieldError> {
    match r {
        Ok(v) => Ok(v@),
        Err(e) => Err(e@),
    }
}

fn peer_from_message(peer: &WirePeer) -> (r: Result<DesiredPeer, ProtocolError>)
    ensures
        view_result(r) == read_peer(peer@),
        forall|p: PeerView|
            listable(p.group_ids) && peer@ == #[trigger] peer_message(p) ==> r is Ok && r->Ok_0@
                == p,
{
    let device_id = match uuid(peer.device_id.as_str(), "peer.device_id") {
        Ok(id) => id,
        Err(error) => return Err(error),
    };
    let user_id = match uuid(peer.user_id.as_str(), "peer.user_id") {
        Ok(id) => id,
        Err(error) => return Err(error),
    };
    let allowed_address = match ipv4(peer.allowed_address.as_str(), "peer.allowed_address") {
        Ok(address) => address,
        Err(error) => return Err(error),
    };
    let group_ids = match uuid_list(peer.group_ids.as_slice(), "peer.group_ids") {
        Ok(ids) => ids,
        Err(error) => return Err(error),
    };
    let r = DesiredPeer {
        device_id,
        user_id,
        public_key: peer.public_key.clone(),
        allowed_address,
        group_ids: id_set(group_ids.as_slice()),
    };
    proof {
        assert forall|p: PeerView|
            listable(p.group_ids) && peer@ == #[trigger] peer_message(p) implies r@ == p by {
            lemma_ascending(p.group_ids);
            assert(r@ =~= p);
        }
    }
    Ok(r)
}

/// The port range that two optional bounds give.
pub open spec fn read_ports(start: Option<u32>, end: Option<u32>) -> Result<
    Option<PortRange>,
    FieldError,
> {
    match (start, end) {
        (None, None) => Ok(None),
        (Some(start), Some(end)) => match read_number(start, "acl.port_start"@) {
            Err(e) => Err(e),
            Ok(start) => match read_number(end, "acl.port_end"@) {
                Err(e) => Err(e),
                Ok(end) => if start > end {
                    Err(FieldError { field: "acl.ports"@, message: "start exceeds end"@ })
                } else {
                    Ok(Some(PortRange { start, end }))
                },
            },
        },
        _ => Err(FieldError { field: "acl.ports"@, message: "both bounds are required"@ }),
    }
}

fn ports_from_message(start: Option<u32>, end: Option<u32>) -> (r: Result<
    Option<PortRange>,
    ProtocolError,
>)
    ensures
        field_result(r) == read_ports(start, end),
{
    match (start, end) {
        (None, None) => Ok(None),
        (Some(start), Some(end)) => {
            let start = match number_u16(start, "acl.port_start") {
                Ok(n) => n,
                Err(error) => return Err(error),
            };
            let end = match number_u16(end, "acl.port_end") {
                Ok(n) => n,
                Err(error) => return Err(error),
            };
            if start > end {
                return Err(invalid("acl.ports", String::from_str("start exceeds end")));
            }
            Ok(Some(PortRange { start, end }))
        },
        _ => Err(invalid("acl.ports", String::from_str("both bounds are required"))),
    }
}

/// The rule that a message describes.
pub open spec fn read_rule(rule: WireRuleView) -> Result<RuleView, FieldError> {
    match read_ports(rule.port_start, rule.port_end) {
        Err(e) => Err(e),
        Ok(destination_ports) => match read_id(rule.id, "acl.id"@) {
            Err(e) => Err(e),
            Ok(id) => match read_action(rule.action, "acl.action"@) {
                Err(e) => Err(e),
                Ok(action) => match read_network(rule.destination, "acl.destination"@) {
                    Err(e) => Err(e),
                    Ok(destination) => match read_protocol(rule.protocol) {
                        Err(e) => Err(e),
                        Ok(protocol) => match read_ids(rule.user_ids, "acl.user_ids"@) {
                            Err(e) => Err(e),
                            Ok(users) => match read_ids(rule.group_ids, "acl.group_ids"@) {
                                Err(e) => Err(e),
                                Ok(groups) => Ok(
                                    RuleView {
                                        id,
                                        position: rule.position,
                                        action,
                                        destination,
                                        protocol,
                                        destination_ports,
                                        users: users.to_set(),
                                        groups: groups.to_set(),
                                        enabled: rule.enabled,
                                    },
                                ),
                            },
                        },
                    },
                },
            },
        },
    }
}

/// The message about a rule.
pub open spec fn rule_message(rule: RuleView) -> WireRuleView {
    WireRuleView {
        id: uuid_text(rule.id),
        position: rule.position,
        action: action_text(rule.action),
        destination: rule.destination.text(),
        protocol: protocol_text(rule.protocol),
        port_start: match rule.destination_ports {
            Some(ports) => Some(ports.start as u32),
            None => None,
        },
        port_end: match rule.destination_ports {
            Some(ports) => Some(ports.end as u32),
            None => None,
        },
        user_ids: id_texts(ascending(rule.users)),
        group_ids: id_texts(ascending(rule.groups)),
        enabled: rule.enabled,
    }
}

/// A port range, where there is one, is not reversed.
pub open spec fn ports_in_order(ports: Option<PortRange>) -> bool {
    ports matches Some(range) ==> range.start <= range.end
}

/// A rule that a message can carry: its port range, where it has one, is not reversed.
pub open spec fn rule_wf(rule: RuleView) -> bool {
    &&& rule.destination.wf()
    &&& listable(rule.users)
    &&& listable(rule.groups)
    &&& ports_in_order(rule.destination_ports)
}

fn rule_from_message(rule: &WireRule) -> (r: Result<AclRule, ProtocolError>)
    ensures
        view_result(r) == read_rule(rule@),
        forall|v: RuleView|
            rule_wf(v) && rule@ == #[trigger] rule_message(v) ==> r is Ok && r->Ok_0@ == v,
{
    let destination_ports = match ports_from_message(rule.port_start, rule.port_end) {
        Ok(ports) => ports,
        Err(error) => return Err(error),
    };
    let id = match uuid(rule.id.as_str(), "acl.id") {
        Ok(id) => id,
        Err(error) => return Err(error),
    };
    let action = match action(rule.action.as_str(), "acl.action") {
        Ok(action) => action,
        Err(error) => return Err(error),
    };
    let destination = match ipv4_net(rule.destination.as_str(), "acl.destination") {
        Ok(net) => net,
        Err(error) => return Err(error),
    };
    let protocol = match protocol(rule.protocol.as_str()) {
        Ok(protocol) => protocol,
        Err(error) => return Err(error),
    };
    let users = match uuid_list(rule.user_ids.as_slice(), "acl.user_ids") {
        Ok(ids) => ids,
        Err(error) => return Err(error),
    };
    let groups = match uuid_list(rule.group_ids.as_slice(), "acl.group_ids") {
        Ok(ids) => ids,
        Err(error) => return Err(error),
    };
    let r = AclRule {
        id,
        position: rule.position,
        action,
        destination,
        protocol,
        destination_ports,
        subjects: AclSubjects {
            users: id_set(users.as_slice()),
            groups: id_set(groups.as_slice()),
        },
        enabled: rule.enabled,
    };
    proof {
        assert forall|v: RuleView| rule_wf(v) && rule@ == #[trigger] rule_message(v) implies r@
            == v by {
            lemma_ascending(v.users);
            lemma_ascending(v.groups);
            assert(r@ =~= v);
        }
    }
    Ok(r)
}

/// The contents of some devices.
pub open spec fn peer_contents(peers: Seq<DesiredPeer>) -> Seq<PeerView> {
    peers.map_values(|p: DesiredPeer| p@)
}

/// The contents of some rules.
pub open spec fn rule_contents(rules: Seq<AclRule>) -> Seq<RuleView> {
    rules.map_values(|r: AclRule| r@)
}

/// The messages about some devices.
pub open spec fn peer_messages(peers: Seq<PeerView>) -> Seq<WirePeerView> {
    peers.map_values(|p: PeerView| peer_message(p))
}

/// The messages about some rules.
pub open spec fn rule_messages(rules: Seq<RuleView>) -> Seq<WireRuleView> {
    rules.map_values(|r: RuleView| rule_message(r))
}

/// Every device's groups can be listed.
pub open spec fn peers_wf(peers: Seq<PeerView>) -> bool {
    forall|i: int| 0 <= i < peers.len() ==> listable((#[trigger] peers[i]).group_ids)
}

/// Every rule can be carried by a message.
pub open spec fn rules_wf(rules: Seq<RuleView>) -> bool {
    forall|i: int| 0 <= i < rules.len() ==> rule_wf(#[trigger] rules[i])
}

fn peer_list(items: &[WirePeer]) -> (r: Result<Vec<DesiredPeer>, ProtocolError>)
    ensures
        match r {
            Ok(v) => Ok::<Seq<PeerView>, FieldError>(peer_contents(v@)),
            Err(e) => Err(e@),
        } == all_or_first_error(items@.map_values(|p: WirePeer| read_peer(p@))),
        forall|list: Seq<PeerView>|
            peers_wf(list) && items@.map_values(|p: WirePeer| p@) == #[trigger] peer_messages(list)
                ==> r is Ok && peer_contents(r->Ok_0@) == list,
{
    let ghost sent = items@.map_values(|p: WirePeer| p@);
    let ghost all = items@.map_values(|p: WirePeer| read_peer(p@));
    let mut out: Vec<DesiredPeer> = Vec::new();
    let mut i: usize = 0;
    assert(all.take(0) =~= Seq::<Result<PeerView, FieldError>>::empty());
    assert(peer_contents(out@) =~= Seq::<PeerView>::empty());
    while i < items.len()
        invariant
            i <= items@.len(),
            sent == items@.map_values(|p: WirePeer| p@),
            all == items@.map_values(|p: WirePeer| read_peer(p@)),
            all_or_first_error(all.take(i as int)) == Ok::<Seq<PeerView>, FieldError>(
                peer_contents(out@),
            ),
            out@.len() == i,
            forall|list: Seq<PeerView>|
                peers_wf(list) && sent == #[trigger] peer_messages(list) ==> list.take(i as int)
                    == peer_contents(out@),
        decreases items@.len() - i,
    {
        proof {
            lemma_collect_step(all, i as int);
            assert(sent[i as int] == items@[i as int]@);
        }
        match peer_from_message(&items[i]) {
            Ok(peer) => {
                let ghost before = peer_contents(out@);
                let ghost one = peer@;
                out.push(peer);
                proof {
                    assert(peer_contents(out@) =~= before.push(one));
                    assert forall|list: Seq<PeerView>|
                        peers_wf(list) && sent == #[trigger] peer_messages(list) implies list.take(
                        i + 1,
                    ) == peer_contents(out@) by {
                        assert(peer_messages(list).len() == sent.len());
                        assert(peer_messages(list)[i as int] == peer_message(list[i as int]));
                        assert(listable(list[i as int].group_ids));
                        assert(list.take(i + 1) =~= list.take(i as int).push(list[i as int]));
                    }
                }
            },
            Err(error) => {
                proof {
                    assert forall|list: Seq<PeerView>| peers_wf(list) implies sent
                        != #[trigger] peer_messages(list) by {
                        if sent == peer_messages(list) {
                            assert(peer_messages(list).len() == sent.len());
                            assert(peer_messages(list)[i as int] == peer_message(list[i as int]));
                            assert(listable(list[i as int].group_ids));
                        }
                    }
                }
                return Err(error);
            },
        }
        i = i + 1;
    }
    proof {
        assert(all.take(i as int) =~= all);
        assert forall|list: Seq<PeerView>|
            peers_wf(list) && sent == #[trigger] peer_messages(list) implies list == peer_contents(
            out@,
        ) by {
            assert(peer_messages(list).len() == sent.len());
            assert(list.take(i as int) =~= list);
        }
    }
    Ok(out)
}

fn rule_list(items: &[WireRule]) -> (r: Result<Vec<AclRule>, ProtocolError>)
    ensures
        match r {
            Ok(v) => Ok::<Seq<RuleView>, FieldError>(rule_contents(v@)),
            Err(e) => Err(e@),
        } == all_or_first_error(items@.map_values(|p: WireRule| read_rule(p@))),
        forall|list: Seq<RuleView>|
            rules_wf(list) && items@.map_values(|p: WireRule| p@) == #[trigger] rule_messages(list)
                ==> r is Ok && rule_contents(r->Ok_0@) == list,
{
    let ghost sent = items@.map_values(|p: WireRule| p@);
    let ghost all = items@.map_values(|p: WireRule| read_rule(p@));
    let mut out: Vec<AclRule> = Vec::new();
    let mut i: usize = 0;
    assert(all.take(0) =~= Seq::<Result<RuleView, FieldError>>::empty());
    assert(rule_contents(out@) =~= Seq::<RuleView>::empty());
    while i < items.len()
        invariant
            i <= items@.len(),
            sent == items@.map_values(|p: WireRule| p@),
            all == items@.map_values(|p: WireRule| read_rule(p@)),
            all_or_first_error(all.take(i as int)) == Ok::<Seq<RuleView>, FieldError>(
                rule_contents(out@),
            ),
            out@.len() == i,
            forall|list: Seq<RuleView>|
                rules_wf(list) && sent == #[trigger] rule_messages(list) ==> list.take(i as int)
                    == rule_contents(out@),
        decreases items@.len() - i,
    {
        proof {
            lemma_collect_step(all, i as int);
            assert(sent[i as int] == items@[i as int]@);
        }
        match rule_from_message(&items[i]) {
            Ok(rule) => {
                let ghost before = rule_contents(out@);
                let ghost one = rule@;
                out.push(rule);
                proof {
                    assert(rule_contents(out@) =~= before.push(one));
                    assert forall|list: Seq<RuleView>|
                        rules_wf(list) && sent == #[trigger] rule_messages(list) implies list.take(
                        i + 1,
                    ) == rule_contents(out@) by {
                        assert(rule_messages(list).len() == sent.len());
                        assert(rule_messages(list)[i as int] == rule_message(list[i as int]));
                        assert(rule_wf(list[i as int]));
                        assert(list.take(i + 1) =~= list.take(i as int).push(list[i as int]));
                    }
                }
            },
            Err(error) => {
                proof {
                    assert forall|list: Seq<RuleView>| rules_wf(list) implies sent
                        != #[trigger] rule_messages(list) by {
                        if sent == rule_messages(list) {
                            assert(rule_messages(list).len() == sent.len());
                            assert(rule_messages(list)[i as int] == rule_message(list[i as int]));
                            assert(rule_wf(list[i as int]));
                        }
                    }
                }
                return Err(error);
            },
        }
        i = i + 1;
    }
    proof {
        assert(all.take(i as int) =~= all);
        assert forall|list: Seq<RuleView>|
            rules_wf(list) && sent == #[trigger] rule_messages(list) implies list == rule_contents(
            out@,
        ) by {
            assert(rule_messages(list).len() == sent.len());
            assert(list.take(i as int) =~= list);
        }
    }
    Ok(out)
}

/// The optional number in a field.
pub open spec fn read_opt_number(n: Option<u32>, field: Seq<char>) -> Result<
    Option<u16>,
    FieldError,
> {
    match n {
        None => Ok(None),
        Some(n) => match read_number(n, field) {
            Ok(n) => Ok(Some(n)),
            Err(e) => Err(e),
        },
    }
}

/// The optional address in a field.
pub open spec fn read_opt_address(s: Option<Seq<char>>, field: Seq<char>) -> Result<
    Option<Ipv4Addr>,
    FieldError,
> {
    match s {
        None => Ok(None),
        Some(s) => match read_address(s, field) {
            Ok(a) => Ok(Some(a)),
            Err(e) => Err(e),
        },
    }
}

/// The state that a message describes, its parts in the order in which they were sent. Where
/// several fields are wrong, the first of them in this order is reported.
pub open spec fn read_snapshot(v: SnapshotView) -> Result<StateView, FieldError> {
    match read_id(v.gateway_id, "gateway_id"@) {
        Err(e) => Err(e),
        Ok(gateway_id) => match read_number(v.listen_port, "listen_port"@) {
            Err(e) => Err(e),
            Ok(listen_port) => match read_opt_number(v.mtu, "mtu"@) {
                Err(e) => Err(e),
                Ok(mtu) => match read_opt_address(
                    v.compatibility_address,
                    "compatibility_address"@,
                ) {
                    Err(e) => Err(e),
                    Ok(compatibility_address) => match read_networks(v.routes, "routes"@) {
                        Err(e) => Err(e),
                        Ok(routes) => match all_or_first_error(
                            v.peers.map_values(|p: WirePeerView| read_peer(p)),
                        ) {
                            Err(e) => Err(e),
                            Ok(peers) => match read_action(v.acl_default, "acl_default"@) {
                                Err(e) => Err(e),
                                Ok(acl_default) => match all_or_first_error(
                                    v.acl_rules.map_values(|r: WireRuleView| read_rule(r)),
                                ) {
                                    Err(e) => Err(e),
                                    Ok(acl_rules) => match read_addresses(
                                        v.terminate_sources,
                                        "terminate_sources"@,
                                    ) {
                                        Err(e) => Err(e),
                                        Ok(terminate_sources) => Ok(
                                            StateView {
                                                gateway_id,
                                                revision: v.revision,
                                                interface_name: v.interface_name,
                                                listen_port,
                                                mtu,
                                                compatibility_address,
                                                routes,
                                                peers,
                                                acl_default,
                                                acl_rules,
                                                terminate_sources,
                                            },
                                        ),
                                    },
                                },
                            },
                        },
                    },
                },
            },
        },
    }
}

/// The message about a state; it carries no credential.
pub open spec fn snapshot_message(state: StateView) -> SnapshotView {
    SnapshotView {
        gateway_id: uuid_text(state.gateway_id),
        revision: state.revision,
        interface_name: state.interface_name,
        listen_port: state.listen_port as u32,
        mtu: match state.mtu {
            Some(n) => Some(n as u32),
            None => None,
        },
        compatibility_address: match state.compatibility_address {
            Some(a) => Some(address_text(a)),
            None => None,
        },
        routes: network_texts(state.routes),
        peers: peer_messages(state.peers),
        acl_default: action_text(state.acl_default),
        acl_rules: rule_messages(state.acl_rules),
        terminate_sources: address_texts(state.terminate_sources),
        credential_envelope: Seq::empty(),
    }
}

/// A state that a message can carry: no rule of it has a reversed port range.
pub open spec fn state_wf(state: StateView) -> bool {
    networks_wf(state.routes) && peers_wf(state.peers) && rules_wf(state.acl_rules)
}

/// The state that a message describes, in canonical order, or the first field that is wrong.
/// The message about a state is read back as that state in canonical order.
#[verifier::rlimit(40)]
pub fn desired_from_proto(value: DesiredSnapshot) -> (r: Result<DesiredGatewayState, ProtocolError>)
    ensures
        view_result(r) == (match read_snapshot(value@) {
            Ok(state) => Ok::<StateView, FieldError>(canonical(state)),
            Err(e) => Err(e),
        }),
        forall|state: StateView|
            state_wf(state) && value@ == #[trigger] snapshot_message(state) ==> r is Ok && r->Ok_0@
                == canonical(state),
{
    let ghost sent = value@;
    proof {
        assert(value.peers@.map_values(|p: WirePeer| read_peer(p@)) =~= sent.peers.map_values(
            |p: WirePeerView| read_peer(p),
        ));
        assert(value.acl_rules@.map_values(|p: WireRule| read_rule(p@))
            =~= sent.acl_rules.map_values(|r: WireRuleView| read_rule(r)));
    }
    let gateway_id = match uuid(value.gateway_id.as_str(), "gateway_id") {
        Ok(id) => id,
        Err(error) => return Err(error),
    };
    let listen_port = match number_u16(value.listen_port, "listen_port") {
        Ok(n) => n,
        Err(error) => return Err(error),
    };
    let mtu = match value.mtu {
        None => None,
        Some(n) => match number_u16(n, "mtu") {
            Ok(n) => Some(n),
            Err(error) => return Err(error),
        },
    };
    let compatibility_address = match &value.compatibility_address {
        None => None,
        Some(address) => match ipv4(address.as_str(), "compatibility_address") {
            Ok(a) => Some(a),
            Err(error) => return Err(error),
        },
    };
    let routes = match network_list(value.routes.as_slice(), "routes") {
        Ok(list) => list,
        Err(error) => return Err(error),
    };
    let peers = match peer_list(value.peers.as_slice()) {
        Ok(list) => list,
        Err(error) => return Err(error),
    };
    let acl_default = match action(value.acl_default.as_str(), "acl_default") {
        Ok(action) => action,
        Err(error) => return Err(error),
    };
    let acl_rules = match rule_list(value.acl_rules.as_slice()) {
        Ok(list) => list,
        Err(error) => return Err(error),
    };
    let terminate_sources = match address_list(
        value.terminate_sources.as_slice(),
        "terminate_sources",
    ) {
        Ok(list) => list,
        Err(error) => return Err(error),
    };
    let mut state = DesiredGatewayState {
        gateway_id,
        revision: value.revision,
        interface_name: value.interface_name,
        listen_port,
        mtu,
        compatibility_address,
        routes,
        peers,
        acl_default,
        acl_rules,
        terminate_sources,
    };
    proof {
        assert forall|s: StateView| state_wf(s) && sent == #[trigger] snapshot_message(s) implies s
            == state@ by {
            assert(state@ =~= s);
        }
    }
    state.canonicalize();
    Ok(state)
}

/// The texts of some identifiers.
pub fn ids_to_texts(ids: &[Uuid]) -> (r: Vec<String>)
    ensures
        texts(r@) == id_texts(ids@),
{
    let mut out: Vec<String> = Vec::new();
    let mut i: usize = 0;
    while i < ids.len()
        invariant
            i <= ids@.len(),
            texts(out@) =~= id_texts(ids@).take(i as int),
        decreases ids@.len() - i,
    {
        push_text(&mut out, uuid_to_text(ids[i]));
        assert(id_texts(ids@).take(i + 1) =~= id_texts(ids@).take(i as int).push(
            uuid_text(ids@[i as int]),
        ));
        i = i + 1;
    }
    out
}

fn peer_to_message(peer: &DesiredPeer) -> (r: WirePeer)
    ensures
        r@ == peer_message(peer@),
        listable(peer.group_ids@),
{
    let groups = sorted_ids(&peer.group_ids);
    let r = WirePeer {
        device_id: uuid_to_text(peer.device_id),
        user_id: uuid_to_text(peer.user_id),
        public_key: peer.public_key.clone(),
        allowed_address: address_to_text(peer.allowed_address),
        group_ids: ids_to_texts(groups.as_slice()),
    };
    assert(r@ =~= peer_message(peer@));
    r
}

fn rule_to_message(rule: &AclRule) -> (r: WireRule)
    ensures
        r@ == rule_message(rule@),
        ports_in_order(rule.destination_ports) ==> rule_wf(rule@),
{
    let users = sorted_ids(&rule.subjects.users);
    let groups = sorted_ids(&rule.subjects.groups);
    let (port_start, port_end) = match &rule.destination_ports {
        Some(ports) => (Some(ports.start as u32), Some(ports.end as u32)),
        None => (None, None),
    };
    let r = WireRule {
        id: uuid_to_text(rule.id),
        position: rule.position,
        action: action_name(rule.action).to_owned(),
        destination: rule.destination.to_text(),
        protocol: protocol_name(rule.protocol).to_owned(),
        port_start,
        port_end,
        user_ids: ids_to_texts(users.as_slice()),
        group_ids: ids_to_texts(groups.as_slice()),
        enabled: rule.enabled,
    };
    assert(r@ =~= rule_message(rule@));
    r
}

/// The message about a state. Every state whose rules have no reversed port range can be read
/// back from its message.
pub fn desired_to_proto(value: &DesiredGatewayState) -> (r: DesiredSnapshot)
    ensures
        r@ == snapshot_message(value@),
        (forall|i: int|
            0 <= i < value.acl_rules@.len() ==> ports_in_order(
                (#[trigger] value.acl_rules@[i]).destination_ports,
            )) ==> state_wf(value@),
{
    let mut peers: Vec<WirePeer> = Vec::new();
    let mut i: usize = 0;
    let ghost peer_goal = peer_messages(value@.peers);
    while i < value.peers.len()
        invariant
            i <= value.peers@.len(),
            peer_goal == peer_messages(value@.peers),
            peers@.map_values(|p: WirePeer| p@) =~= peer_goal.take(i as int),
            forall|k: int| 0 <= k < i ==> listable((#[trigger] value.peers@[k]).group_ids@),
        decreases value.peers@.len() - i,
    {
        let ghost before = peers@.map_values(|p: WirePeer| p@);
        let one = peer_to_message(&value.peers[i]);
        let ghost one_view = one@;
        peers.push(one);
        assert(peers@.map_values(|p: WirePeer| p@) =~= before.push(one_view));
        assert(peer_goal.take(i + 1) =~= peer_goal.take(i as int).push(peer_goal[i as int]));
        i = i + 1;
    }
    assert(peer_goal.take(i as int) =~= peer_goal);
    let mut rules: Vec<WireRule> = Vec::new();
    let mut j: usize = 0;
    let ghost rule_goal = rule_messages(value@.acl_rules);
    while j < value.acl_rules.len()
        invariant
            j <= value.acl_rules@.len(),
            rule_goal == rule_messages(value@.acl_rules),
            rules@.map_values(|r: WireRule| r@) =~= rule_goal.take(j as int),
            forall|k: int|
                0 <= k < j && ports_in_order((#[trigger] value.acl_rules@[k]).destination_ports)
                    ==> rule_wf(value.acl_rules@[k]@),
        decreases value.acl_rules@.len() - j,
    {
        let ghost before = rules@.map_values(|r: WireRule| r@);
        let one = rule_to_message(&value.acl_rules[j]);
        let ghost one_view = one@;
        rules.push(one);
        assert(rules@.map_values(|r: WireRule| r@) =~= before.push(one_view));
        assert(rule_goal.take(j + 1) =~= rule_goal.take(j as int).push(rule_goal[j as int]));
        j = j + 1;
    }
    assert(rule_goal.take(j as int) =~= rule_goal);
    let r = DesiredSnapshot {
        gateway_id: uuid_to_text(value.gateway_id),
        revision: value.revision,
        interface_name: value.interface_name.clone(),
        listen_port: value.listen_port as u32,
        mtu: match value.mtu {
            Some(n) => Some(n as u32),
            None => None,
        },
        compatibility_address: match value.compatibility_address {
            Some(a) => Some(address_to_text(a)),
            None => None,
        },
        routes: networks_to_texts(value.routes.as_slice()),
        peers,
        acl_default: action_name(value.acl_default).to_owned(),
        acl_rules: rules,
        terminate_sources: addresses_to_texts(value.terminate_sources.as_slice()),
        credential_envelope: Vec::new(),
    };
    assert(r@ =~= snapshot_message(value@));
    proof {
        assert(peers_wf(value@.peers));
        assert(networks_wf(value@.routes));
        assert forall|k: int| 0 <= k < value@.acl_rules.len() && ports_in_order(
            value.acl_rules@[k].destination_ports,
        ) implies rule_wf(#[trigger] value@.acl_rules[k]) by {
            assert(value@.acl_rules[k] == value.acl_rules@[k]@);
        }
    }
    r
}

} // verus!
