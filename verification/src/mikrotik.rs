//! The MikroTik backend: what RouterOS is asked for.

use vstd::prelude::*;
use vstd::string::*;

use crate::acl::{acl_outcome, AclAction, AclRule, IpProtocol, PacketContext, PortRange};
use crate::agent::DriverError;
use crate::config::{is_public_key, validate_wireguard_public_key};
use crate::ids::{render_simple, uuid_digits, uuid_text, uuid_to_text, Uuid};
use crate::ipv4::{address_text, address_to_text, Ipv4Addr, Ipv4Net};
use crate::json::pair_texts;
use crate::lines::{fields_of, first_word, first_word_of, split_on};
use crate::linux::{action_name, has_stray_ports, reports, verdict_text};
use crate::policy::{
    covered, distinct_addresses, has_address, in_turn, is_routed, law_policy_is_the_acl, policy_lines,
    policy_of, rules_in_turn, Candidate, PolicyLine,
};
use crate::protocol::{protocol_name, protocol_text};
use crate::state::{DesiredGatewayState, PeerView, RuleView, StateView};
use crate::text::{
    byte_count, byte_len, chars_of, decimal, decimal_text, is_digit, leading_number, lemma_decimal,
    lemma_decimal_injective, read_leading_number, slice_text, texts,
};

verus! {

/// The oldest RouterOS that is supported.
pub const MINIMUM_ROUTEROS_VERSION: &'static str = "7.15";

/// A record that RouterOS is asked to create: where, and the members of the record.
#[derive(Debug, Clone, PartialEq, Eq)]
pub struct RouterOperation {
    pub resource: String,
    pub body: Vec<(String, String)>,
}

/// The contents of a [`RouterOperation`].
#[verifier::ext_equal]
pub struct OperationView {
    pub resource: Seq<char>,
    pub body: Seq<(Seq<char>, Seq<char>)>,
}

impl View for RouterOperation {
    type V = OperationView;

    open spec fn view(&self) -> OperationView {
        OperationView { resource: self.resource@, body: pair_texts(self.body@) }
    }
}

/// The contents of some operations.
pub open spec fn operation_views(operations: Seq<RouterOperation>) -> Seq<OperationView> {
    operations.map_values(|o: RouterOperation| o@)
}

impl RouterOperation {
    /// The value of a member, where the record has it.
    pub fn get(&self, key: &str) -> (r: Option<&str>)
        ensures
            match r {
                Some(value) => exists|i: int|
                    0 <= i < self@.body.len() && #[trigger] self@.body[i] == (key@, value@) && (
                    forall|k: int| 0 <= k < i ==> (#[trigger] self@.body[k]).0 != key@),
                None => forall|i: int|
                    0 <= i < self@.body.len() ==> (#[trigger] self@.body[i]).0 != key@,
            },
    {
        let mut i: usize = 0;
        while i < self.body.len()
            invariant
                i <= self.body@.len(),
                forall|k: int| 0 <= k < i ==> (#[trigger] self@.body[k]).0 != key@,
            decreases self.body@.len() - i,
        {
            assert(self@.body[i as int] == (self.body@[i as int].0@, self.body@[i as int].1@));
            if crate::text::same_text(self.body[i].0.as_str(), key) {
                return Some(self.body[i].1.as_str());
            }
            i = i + 1;
        }
        None
    }
}

fn set(body: &mut Vec<(String, String)>, key: &str, value: &str)
    ensures
        pair_texts(final(body)@) == pair_texts(old(body)@).push((key@, value@)),
{
    body.push((key.to_owned(), value.to_owned()));
    assert(pair_texts(body@) =~= pair_texts(old(body)@).push((key@, value@)));
}

fn push_operation(operations: &mut Vec<RouterOperation>, operation: RouterOperation)
    ensures
        operation_views(final(operations)@) == operation_views(old(operations)@).push(operation@),
{
    operations.push(operation);
    assert(operation_views(operations@) =~= operation_views(old(operations)@).push(operation@));
}

/// What every comment of a gateway's records begins with.
pub open spec fn prefix_text(gateway_id: Uuid) -> Seq<char> {
    "wiremesh:"@ + uuid_text(gateway_id)
}

/// What every comment of a gateway's records begins with.
pub fn managed_prefix(gateway_id: Uuid) -> (r: String)
    ensures
        r@ == prefix_text(gateway_id),
{
    String::from_str("wiremesh:").concat(uuid_to_text(gateway_id).as_str())
}

/// A host route as RouterOS writes it.
pub open spec fn host_text(address: Ipv4Addr) -> Seq<char> {
    address_text(address) + "/32"@
}

fn host(address: Ipv4Addr) -> (r: String)
    ensures
        r@ == host_text(address),
{
    address_to_text(address).concat("/32")
}

fn tagged(prefix: &str, tag: &str, id: Uuid) -> (r: String)
    ensures
        r@ == prefix@ + tag@ + uuid_text(id),
{
    let mut out = prefix.to_owned();
    out.append(tag);
    out.append(uuid_to_text(id).as_str());
    out
}

/// The route of one device.
pub open spec fn route_record(state: StateView, peer: PeerView) -> OperationView {
    OperationView {
        resource: "/ip/route"@,
        body: seq![
            ("dst-address"@, host_text(peer.allowed_address)),
            ("gateway"@, state.interface_name),
            ("comment"@, prefix_text(state.gateway_id) + ":route:"@ + uuid_text(peer.device_id)),
        ],
    }
}

/// The record of one device.
pub open spec fn peer_record(state: StateView, peer: PeerView) -> OperationView {
    OperationView {
        resource: "/interface/wireguard/peers"@,
        body: seq![
            ("interface"@, state.interface_name),
            ("public-key"@, peer.public_key),
            ("allowed-address"@, host_text(peer.allowed_address)),
            ("comment"@, prefix_text(state.gateway_id) + ":peer:"@ + uuid_text(peer.device_id)),
        ],
    }
}

/// The routes of the devices.
pub fn route_operations(desired: &DesiredGatewayState) -> (r: Vec<RouterOperation>)
    ensures
        operation_views(r@) == desired@.peers.map_values(
            |p: PeerView| route_record(desired@, p),
        ),
{
    let prefix = managed_prefix(desired.gateway_id);
    let ghost goal = desired@.peers.map_values(|p: PeerView| route_record(desired@, p));
    let mut out: Vec<RouterOperation> = Vec::new();
    let mut i: usize = 0;
    while i < desired.peers.len()
        invariant
            i <= desired.peers@.len(),
            prefix@ == prefix_text(desired.gateway_id),
            goal == desired@.peers.map_values(|p: PeerView| route_record(desired@, p)),
            operation_views(out@) =~= goal.take(i as int),
        decreases desired.peers@.len() - i,
    {
        let peer = &desired.peers[i];
        let mut body: Vec<(String, String)> = Vec::new();
        set(&mut body, "dst-address", host(peer.allowed_address).as_str());
        set(&mut body, "gateway", desired.interface_name.as_str());
        set(&mut body, "comment", tagged(prefix.as_str(), ":route:", peer.device_id).as_str());
        let one = RouterOperation { resource: String::from_str("/ip/route"), body };
        assert(one@ =~= route_record(desired@, peer@));
        push_operation(&mut out, one);
        assert(goal[i as int] == route_record(desired@, peer@));
        assert(goal.take(i + 1) =~= goal.take(i as int).push(goal[i as int]));
        i = i + 1;
    }
    assert(goal.take(i as int) =~= goal);
    out
}

/// The records of the devices.
pub fn peer_operations(desired: &DesiredGatewayState) -> (r: Vec<RouterOperation>)
    ensures
        operation_views(r@) == desired@.peers.map_values(|p: PeerView| peer_record(desired@, p)),
{
    let prefix = managed_prefix(desired.gateway_id);
    let ghost goal = desired@.peers.map_values(|p: PeerView| peer_record(desired@, p));
    let mut out: Vec<RouterOperation> = Vec::new();
    let mut i: usize = 0;
    while i < desired.peers.len()
        invariant
            i <= desired.peers@.len(),
            prefix@ == prefix_text(desired.gateway_id),
            goal == desired@.peers.map_values(|p: PeerView| peer_record(desired@, p)),
            operation_views(out@) =~= goal.take(i as int),
        decreases desired.peers@.len() - i,
    {
        let peer = &desired.peers[i];
        let mut body: Vec<(String, String)> = Vec::new();
        set(&mut body, "interface", desired.interface_name.as_str());
        set(&mut body, "public-key", peer.public_key.as_str());
        set(&mut body, "allowed-address", host(peer.allowed_address).as_str());
        set(&mut body, "comment", tagged(prefix.as_str(), ":peer:", peer.device_id).as_str());
        let one = RouterOperation { resource: String::from_str("/interface/wireguard/peers"), body };
        assert(one@ =~= peer_record(desired@, peer@));
        push_operation(&mut out, one);
        assert(goal[i as int] == peer_record(desired@, peer@));
        assert(goal.take(i + 1) =~= goal.take(i as int).push(goal[i as int]));
        i = i + 1;
    }
    assert(goal.take(i as int) =~= goal);
    out
}

/// The record that numbers the interface, where the state asks for it.
pub fn address_operation(desired: &DesiredGatewayState) -> (r: Option<RouterOperation>)
    ensures
        match desired.compatibility_address {
            None => r is None,
            Some(address) => r matches Some(o) && o@ == (OperationView {
                resource: "/ip/address"@,
                body: seq![
                    ("address"@, host_text(address)),
                    ("interface"@, desired.interface_name@),
                    ("comment"@, prefix_text(desired.gateway_id) + ":compatibility-address"@),
                ],
            }),
        },
{
    match desired.compatibility_address {
        None => None,
        Some(address) => {
            let mut body: Vec<(String, String)> = Vec::new();
            set(&mut body, "address", host(address).as_str());
            set(&mut body, "interface", desired.interface_name.as_str());
            let comment = managed_prefix(desired.gateway_id).concat(":compatibility-address");
            set(&mut body, "comment", comment.as_str());
            let one = RouterOperation { resource: String::from_str("/ip/address"), body };
            assert(one@.body =~= seq![
                ("address"@, host_text(address)),
                ("interface"@, desired.interface_name@),
                ("comment"@, prefix_text(desired.gateway_id) + ":compatibility-address"@),
            ]);
            Some(one)
        },
    }
}

/// The members of the interface's record.
pub open spec fn interface_members(state: StateView) -> Seq<(Seq<char>, Seq<char>)> {
    seq![
        ("name"@, state.interface_name),
        ("listen-port"@, decimal(state.listen_port as nat)),
        (
            "mtu"@,
            decimal(
                (match state.mtu {
                    Some(mtu) => mtu,
                    None => 1420,
                }) as nat,
            ),
        ),
        ("comment"@, prefix_text(state.gateway_id) + ":exclusive-interface"@),
        ("disabled"@, "false"@),
    ]
}

/// The members of the interface's record.
pub fn interface_body(desired: &DesiredGatewayState) -> (r: Vec<(String, String)>)
    ensures
        pair_texts(r@) == interface_members(desired@),
{
    let mtu: u16 = match desired.mtu {
        Some(mtu) => mtu,
        None => 1420,
    };
    let mut body: Vec<(String, String)> = Vec::new();
    set(&mut body, "name", desired.interface_name.as_str());
    set(&mut body, "listen-port", decimal_text(desired.listen_port as u64).as_str());
    set(&mut body, "mtu", decimal_text(mtu as u64).as_str());
    let comment = managed_prefix(desired.gateway_id).concat(":exclusive-interface");
    set(&mut body, "comment", comment.as_str());
    set(&mut body, "disabled", "false");
    assert(pair_texts(body@) =~= interface_members(desired@));
    body
}

/// What is wrong with a state, if anything: the first problem in this order.
pub open spec fn router_problem(state: StateView) -> Option<Seq<char>> {
    if state.interface_name.len() == 0 || byte_count(state.interface_name) > 63 {
        Some("invalid RouterOS interface name"@)
    } else if state.listen_port == 0 || state.routes.len() == 0 {
        Some("listen port and protected routes are required"@)
    } else if exists|i: int|
        0 <= i < state.peers.len() && !is_public_key((#[trigger] state.peers[i]).public_key) {
        Some("public key must be base64-encoded 32 bytes"@)
    } else if exists|i: int|
        0 <= i < state.acl_rules.len() && has_stray_ports(#[trigger] state.acl_rules[i]) {
        Some("ACL ports require TCP or UDP"@)
    } else {
        None
    }
}

/// Checks that a state can be brought about on RouterOS.
pub fn validate_state(desired: &DesiredGatewayState) -> (r: Result<(), DriverError>)
    ensures
        reports(r, router_problem(desired@)),
{
    if desired.interface_name.as_str().is_empty() || byte_len(desired.interface_name.as_str()) > 63 {
        return Err(DriverError::Invalid(String::from_str("invalid RouterOS interface name")));
    }
    if desired.listen_port == 0 || desired.routes.len() == 0 {
        return Err(
            DriverError::Invalid(
                String::from_str("listen port and protected routes are required"),
            ),
        );
    }
    let mut i: usize = 0;
    while i < desired.peers.len()
        invariant
            i <= desired.peers@.len(),
            desired.interface_name@.len() > 0,
            byte_count(desired.interface_name@) <= 63,
            desired.listen_port != 0,
            desired.routes@.len() > 0,
            forall|k: int| 0 <= k < i ==> is_public_key((#[trigger] desired@.peers[k]).public_key),
        decreases desired.peers@.len() - i,
    {
        assert(desired@.peers[i as int] == desired.peers@[i as int]@);
        match validate_wireguard_public_key(desired.peers[i].public_key.as_str()) {
            Ok(_) => {},
            Err(error) => return Err(DriverError::Invalid(error.message())),
        }
        i = i + 1;
    }
    let mut j: usize = 0;
    while j < desired.acl_rules.len()
        invariant
            j <= desired.acl_rules@.len(),
            desired.interface_name@.len() > 0,
            byte_count(desired.interface_name@) <= 63,
            desired.listen_port != 0,
            desired.routes@.len() > 0,
            forall|k: int|
                0 <= k < desired@.peers.len() ==> is_public_key(
                    (#[trigger] desired@.peers[k]).public_key,
                ),
            forall|k: int| 0 <= k < j ==> !has_stray_ports(#[trigger] desired@.acl_rules[k]),
        decreases desired.acl_rules@.len() - j,
    {
        let rule = &desired.acl_rules[j];
        assert(desired@.acl_rules[j as int] == rule@);
        if rule.destination_ports.is_some() && rule.protocol != IpProtocol::Tcp && rule.protocol
            != IpProtocol::Udp {
            assert(has_stray_ports(desired@.acl_rules[j as int]));
            return Err(DriverError::Invalid(String::from_str("ACL ports require TCP or UDP")));
        }
        j = j + 1;
    }
    Ok(())
}

/// The numbers that some texts begin with.
pub open spec fn leading_numbers(parts: Seq<Seq<char>>) -> Seq<nat>
    decreases parts.len(),
{
    if parts.len() == 0 {
        Seq::empty()
    } else {
        match leading_number(parts.last()) {
            Some(n) => leading_numbers(parts.drop_last()).push(n),
            None => leading_numbers(parts.drop_last()),
        }
    }
}

/// The numbers of a version: those that the dotted parts of its first word begin with.
pub open spec fn version_numbers(version: Seq<char>) -> Seq<nat> {
    let word = first_word_of(version);
    leading_numbers(
        fields_of(
            if word.len() == 0 {
                version
            } else {
                word
            },
            '.',
        ),
    )
}

/// Whether a version is 7.15 or later.
pub open spec fn is_supported_version(version: Seq<char>) -> bool {
    let numbers = version_numbers(version);
    let major = if numbers.len() > 0 {
        numbers[0]
    } else {
        0
    };
    let minor = if numbers.len() > 1 {
        numbers[1]
    } else {
        0
    };
    major > 7 || (major == 7 && minor >= 15)
}

/// Whether a RouterOS version is supported.
pub fn supported_version(version: &str) -> (r: bool)
    ensures
        r == is_supported_version(version@),
{
    let word = first_word(version);
    let parts = if word.as_str().is_empty() {
        split_on(version, '.')
    } else {
        split_on(word.as_str(), '.')
    };
    let ghost views = texts(parts@);
    let mut numbers: Vec<u32> = Vec::new();
    let mut i: usize = 0;
    assert(views.take(0) =~= Seq::<Seq<char>>::empty());
    while i < parts.len()
        invariant
            i <= parts@.len(),
            views == texts(parts@),
            numbers@.map_values(|n: u32| n as nat) =~= leading_numbers(views.take(i as int)),
        decreases parts@.len() - i,
    {
        let ghost next = views.take(i + 1);
        assert(next.drop_last() =~= views.take(i as int));
        assert(next.last() == parts@[i as int]@);
        match read_leading_number(parts[i].as_str()) {
            Some(n) => {
                let ghost before = numbers@;
                numbers.push(n);
                assert(numbers@.map_values(|n: u32| n as nat) =~= before.map_values(
                    |n: u32| n as nat,
                ).push(n as nat));
            },
            None => {},
        }
        i = i + 1;
    }
    assert(views.take(i as int) =~= views);
    let ghost all = version_numbers(version@);
    assert(all =~= numbers@.map_values(|n: u32| n as nat));
    let major: u32 = if numbers.len() > 0 {
        assert(all[0] == numbers@[0]);
        numbers[0]
    } else {
        0
    };
    let minor: u32 = if numbers.len() > 1 {
        assert(all[1] == numbers@[1]);
        numbers[1]
    } else {
        0
    };
    major > 7 || (major == 7 && minor >= 15)
}

/// Decides on the version that RouterOS reported.
pub fn check_version(reported: Option<String>) -> (r: Result<String, DriverError>)
    ensures
        match reported {
            None => r matches Err(DriverError::Apply(m)) && m@
                == "RouterOS did not report its version"@,
            Some(version) => if is_supported_version(version@) {
                r matches Ok(v) && v@ == version@
            } else {
                r matches Err(DriverError::Invalid(m)) && m@ == "RouterOS "@ + version@
                    + " is unsupported; "@ + MINIMUM_ROUTEROS_VERSION@ + "+ is required"@
            },
        },
{
    match reported {
        None => Err(DriverError::Apply(String::from_str("RouterOS did not report its version"))),
        Some(version) => {
            if supported_version(version.as_str()) {
                Ok(version)
            } else {
                let mut out = String::from_str("RouterOS ");
                out.append(version.as_str());
                out.append(" is unsupported; ");
                out.append(MINIMUM_ROUTEROS_VERSION);
                out.append("+ is required");
                Err(DriverError::Invalid(out))
            }
        },
    }
}

/// The first eight digits of a gateway's identifier.
pub open spec fn short_text(gateway_id: Uuid) -> Seq<char> {
    uuid_digits(gateway_id).take(8)
}

fn short_name(gateway_id: Uuid) -> (r: String)
    ensures
        r@ == "wm_"@ + short_text(gateway_id),
{
    let compact = chars_of(render_simple(gateway_id).as_str());
    let mut out = String::from_str("wm_");
    out.append(slice_text(compact.as_slice(), 0, 8).as_str());
    assert(uuid_digits(gateway_id).subrange(0, 8) =~= uuid_digits(gateway_id).take(8));
    out
}

/// An entry of an address list.
pub open spec fn list_record(
    list: Seq<char>,
    address: Seq<char>,
    comment: Seq<char>,
) -> OperationView {
    OperationView {
        resource: "/ip/firewall/address-list"@,
        body: seq![("list"@, list), ("address"@, address), ("comment"@, comment)],
    }
}

/// A firewall rule.
pub open spec fn filter_record(body: Seq<(Seq<char>, Seq<char>)>) -> OperationView {
    OperationView { resource: "/ip/firewall/filter"@, body }
}

fn address_list(list: &str, address: &str, comment: &str) -> (r: RouterOperation)
    ensures
        r@ == list_record(list@, address@, comment@),
{
    let mut body: Vec<(String, String)> = Vec::new();
    set(&mut body, "list", list);
    set(&mut body, "address", address);
    set(&mut body, "comment", comment);
    let r = RouterOperation { resource: String::from_str("/ip/firewall/address-list"), body };
    assert(r@.body =~= seq![("list"@, list@), ("address"@, address@), ("comment"@, comment@)]);
    r
}

fn filter(body: Vec<(String, String)>) -> (r: RouterOperation)
    ensures
        r@ == filter_record(pair_texts(body@)),
{
    RouterOperation { resource: String::from_str("/ip/firewall/filter"), body }
}

/// The entries of the list of all devices.
pub open spec fn peer_sources(state: StateView) -> Seq<OperationView> {
    let name = "wm_"@ + short_text(state.gateway_id) + "_peers"@;
    state.peers.map_values(
        |p: PeerView|
            list_record(
                name,
                host_text(p.allowed_address),
                prefix_text(state.gateway_id) + ":peer-source:"@ + uuid_text(p.device_id),
            ),
    )
}

/// The entries of the list of all protected routes.
pub open spec fn protected_destinations(state: StateView) -> Seq<OperationView> {
    let name = "wm_"@ + short_text(state.gateway_id) + "_dst"@;
    state.routes.map_values(
        |n: Ipv4Net|
            list_record(
                name,
                n.text(),
                prefix_text(state.gateway_id) + ":destination:"@ + n.text(),
            ),
    )
}

/// What the chain begins with: the jump into it, the return traffic, and the two rules that
/// drop what does not come from a device or does not go to a protected route.
pub open spec fn chain_start(state: StateView) -> Seq<OperationView> {
    let chain = "wm_"@ + short_text(state.gateway_id);
    let prefix = prefix_text(state.gateway_id);
    seq![
        filter_record(
            seq![
                ("chain"@, "forward"@),
                ("in-interface"@, state.interface_name),
                ("action"@, "jump"@),
                ("jump-target"@, chain),
                ("comment"@, prefix + ":jump"@),
            ],
        ),
        filter_record(
            seq![
                ("chain"@, chain),
                ("connection-state"@, "established,related"@),
                ("action"@, "accept"@),
                ("comment"@, prefix + ":stateful-return"@),
            ],
        ),
        filter_record(
            seq![
                ("chain"@, chain),
                ("src-address-list"@, "!"@ + (chain + "_peers"@)),
                ("action"@, "drop"@),
                ("comment"@, prefix + ":anti-spoof"@),
            ],
        ),
        filter_record(
            seq![
                ("chain"@, chain),
                ("dst-address-list"@, "!"@ + (chain + "_dst"@)),
                ("action"@, "drop"@),
                ("comment"@, prefix + ":site-boundary"@),
            ],
        ),
    ]
}

/// How many of some lines have a position.
pub open spec fn lines_at(lines: Seq<PolicyLine>, position: u32) -> nat
    decreases lines.len(),
{
    if lines.len() == 0 {
        0
    } else {
        lines_at(lines.drop_last(), position) + if lines.last().rule.position == position {
            1nat
        } else {
            0
        }
    }
}

/// The name of the list of the devices of a line: the position of its rule, and behind the first
/// line of that position how many lines of it come before.
pub open spec fn list_text(chain: Seq<char>, position: u32, before: nat) -> Seq<char> {
    chain + "_r"@ + decimal(position as nat) + if before == 0 {
        Seq::empty()
    } else {
        "_"@ + decimal(before)
    }
}

/// The name of the list of the devices of line `i`.
pub open spec fn list_of(chain: Seq<char>, lines: Seq<PolicyLine>, i: int) -> Seq<char> {
    list_text(chain, lines[i].rule.position, lines_at(lines.take(i), lines[i].rule.position))
}

/// The entries of the list of the devices of a line.
pub open spec fn rule_sources(
    state: StateView,
    list: Seq<char>,
    rule: RuleView,
    sources: Seq<PeerView>,
) -> Seq<OperationView> {
    sources.map_values(
        |p: PeerView|
            list_record(
                list,
                host_text(p.allowed_address),
                prefix_text(state.gateway_id) + ":rule-source:"@ + uuid_text(rule.id) + ":"@
                    + uuid_text(p.device_id),
            ),
    )
}

/// The ports of a rule as RouterOS writes them.
pub open spec fn ports_text(ports: PortRange) -> Seq<char> {
    if ports.start == ports.end {
        decimal(ports.start as nat)
    } else {
        decimal(ports.start as nat) + "-"@ + decimal(ports.end as nat)
    }
}

/// The members of a rule's record.
pub open spec fn rule_members(state: StateView, list: Seq<char>, rule: RuleView) -> Seq<
    (Seq<char>, Seq<char>),
> {
    let chain = "wm_"@ + short_text(state.gateway_id);
    seq![
        ("chain"@, chain),
        ("src-address-list"@, list),
        ("dst-address"@, rule.destination.text()),
        ("action"@, verdict_text(rule.action)),
        ("comment"@, prefix_text(state.gateway_id) + ":rule:"@ + uuid_text(rule.id)),
    ] + (if rule.protocol == IpProtocol::Any {
        Seq::empty()
    } else {
        seq![("protocol"@, protocol_text(rule.protocol))]
    }) + (match rule.destination_ports {
        None => Seq::empty(),
        Some(ports) => seq![("dst-port"@, ports_text(ports))],
    })
}

/// The records of one line, given how many lines of its position come before.
pub open spec fn rule_records(state: StateView, line: PolicyLine, before: nat) -> Seq<OperationView> {
    let list = list_text("wm_"@ + short_text(state.gateway_id), line.rule.position, before);
    rule_sources(state, list, line.rule, line.sources).push(
        filter_record(rule_members(state, list, line.rule)),
    )
}

/// The records of some lines, one after another.
pub open spec fn all_rule_records(state: StateView, lines: Seq<PolicyLine>) -> Seq<OperationView>
    decreases lines.len(),
{
    if lines.len() == 0 {
        Seq::empty()
    } else {
        let before = lines.drop_last();
        all_rule_records(state, before) + rule_records(
            state,
            lines.last(),
            lines_at(before, lines.last().rule.position),
        )
    }
}

/// The record for what no rule speaks of.
pub open spec fn default_record(state: StateView) -> OperationView {
    filter_record(
        seq![
            ("chain"@, "wm_"@ + short_text(state.gateway_id)),
            ("action"@, verdict_text(state.acl_default)),
            ("comment"@, prefix_text(state.gateway_id) + ":default"@),
        ],
    )
}

/// The records of a gateway's firewall, in order.
pub open spec fn firewall_plan(state: StateView) -> Seq<OperationView> {
    (peer_sources(state) + protected_destinations(state) + chain_start(state) + all_rule_records(
        state,
        policy_of(state).lines,
    )).push(default_record(state))
}

/// Whether the record of line `i` speaks of a packet from an address: its list holds the address,
/// whichever line put it there, and its rule speaks of where the packet goes.
pub open spec fn record_matches(
    chain: Seq<char>,
    lines: Seq<PolicyLine>,
    i: int,
    source: Ipv4Addr,
    packet: PacketContext,
) -> bool {
    &&& exists|j: int|
        0 <= j < lines.len() && #[trigger] list_of(chain, lines, j) == list_of(chain, lines, i)
            && has_address(lines[j].sources, source)
    &&& lines[i].rule.aims_at(packet)
}

/// The lists of two lines have different names.
pub proof fn law_lists_are_not_shared(
    chain: Seq<char>,
    lines: Seq<PolicyLine>,
    i: int,
    j: int,
)
    requires
        0 <= i < j < lines.len(),
    ensures
        list_of(chain, lines, i) != list_of(chain, lines, j),
{
    if list_of(chain, lines, i) == list_of(chain, lines, j) {
        let a = lines[i].rule.position;
        let b = lines[j].rule.position;
        lemma_list_text(chain, a, lines_at(lines.take(i), a), b, lines_at(lines.take(j), b));
        lemma_lines_at_grows(lines, a, i, j);
    }
}

proof fn lemma_lines_at_grows(lines: Seq<PolicyLine>, position: u32, i: int, j: int)
    requires
        0 <= i < j <= lines.len(),
        lines[i].rule.position == position,
    ensures
        lines_at(lines.take(i), position) < lines_at(lines.take(j), position),
    decreases j,
{
    assert(lines.take(j).drop_last() =~= lines.take(j - 1));
    if i < j - 1 {
        lemma_lines_at_grows(lines, position, i, j - 1);
    }
}

proof fn lemma_list_text(chain: Seq<char>, a: u32, m: nat, b: u32, n: nat)
    requires
        list_text(chain, a, m) == list_text(chain, b, n),
    ensures
        a == b,
        m == n,
{
    reveal_strlit("_");
    lemma_decimal(a as nat);
    lemma_decimal(b as nat);
    let start = chain + "_r"@;
    let one = decimal(a as nat);
    let other = decimal(b as nat);
    let left = list_text(chain, a, m);
    let right = list_text(chain, b, n);
    let left_end = left.skip(start.len() as int);
    let right_end = right.skip(start.len() as int);
    let left_tail = if m == 0 { Seq::empty() } else { "_"@ + decimal(m) };
    let right_tail = if n == 0 { Seq::empty() } else { "_"@ + decimal(n) };
    assert(left_end =~= one + left_tail);
    assert(right_end =~= other + right_tail);
    if one.len() < other.len() {
        assert(is_digit(other[one.len() as int]));
        assert(right_end[one.len() as int] == other[one.len() as int]);
        assert(left_end[one.len() as int] == '_');
    }
    if other.len() < one.len() {
        assert(is_digit(one[other.len() as int]));
        assert(left_end[other.len() as int] == one[other.len() as int]);
        assert(right_end[other.len() as int] == '_');
    }
    assert(one =~= left_end.take(one.len() as int));
    assert(other =~= right_end.take(other.len() as int));
    lemma_decimal_injective(a as nat, b as nat);
    assert(left_tail =~= left_end.skip(one.len() as int));
    assert(right_tail =~= right_end.skip(other.len() as int));
    if m != 0 && n != 0 {
        assert(decimal(m) =~= left_tail.skip(1));
        assert(decimal(n) =~= right_tail.skip(1));
        lemma_decimal_injective(m, n);
    }
}

/// The records of a gateway's firewall say what the access rules say: the record of a line speaks
/// of a packet exactly where the line does, and with that a packet of a device to a protected
/// network meets with what the rules decide for the user of the device and its groups.
pub proof fn law_rendered_policy_is_the_acl(
    state: StateView,
    rules: Seq<AclRule>,
    packet: PacketContext,
    source: Ipv4Addr,
)
    requires
        distinct_addresses(state.peers),
        state.acl_rules == rules.map_values(|r: AclRule| r@),
    ensures
        forall|i: int|
            0 <= i < policy_of(state).lines.len() ==> #[trigger] record_matches(
                "wm_"@ + short_text(state.gateway_id),
                policy_of(state).lines,
                i,
                source,
                packet,
            ) == policy_of(state).lines[i].matches(source, packet),
        forall|peer: int, action: AclAction|
            {
                &&& 0 <= peer < state.peers.len()
                &&& (#[trigger] state.peers[peer]).allowed_address == source
                &&& packet.user_id == state.peers[peer].user_id
                &&& packet.group_ids@ == state.peers[peer].group_ids
                &&& is_routed(state.routes, packet.destination)
                &&& #[trigger] acl_outcome(rules, state.acl_default, packet, action)
            } ==> policy_of(state).verdict(source, packet) == action,
        !has_address(state.peers, source) || !is_routed(state.routes, packet.destination)
            ==> policy_of(state).verdict(source, packet) == AclAction::Deny,
{
    let chain = "wm_"@ + short_text(state.gateway_id);
    let lines = policy_of(state).lines;
    assert forall|i: int| 0 <= i < lines.len() implies #[trigger] record_matches(
        chain,
        lines,
        i,
        source,
        packet,
    ) == lines[i].matches(source, packet) by {
        assert forall|j: int|
            0 <= j < lines.len() && #[trigger] list_of(chain, lines, j) == list_of(
                chain,
                lines,
                i,
            ) implies j == i by {
            if j < i {
                law_lists_are_not_shared(chain, lines, j, i);
            }
            if i < j {
                law_lists_are_not_shared(chain, lines, i, j);
            }
        }
        if lines[i].matches(source, packet) {
            assert(list_of(chain, lines, i) == list_of(chain, lines, i));
        }
    }
    assert forall|peer: int, action: AclAction|
        {
            &&& 0 <= peer < state.peers.len()
            &&& (#[trigger] state.peers[peer]).allowed_address == source
            &&& packet.user_id == state.peers[peer].user_id
            &&& packet.group_ids@ == state.peers[peer].group_ids
            &&& is_routed(state.routes, packet.destination)
            &&& #[trigger] acl_outcome(rules, state.acl_default, packet, action)
        } implies policy_of(state).verdict(source, packet) == action by {
        law_policy_is_the_acl(state, rules, packet, peer, action);
    }
}

fn push_peer_sources(out: &mut Vec<RouterOperation>, desired: &DesiredGatewayState, chain: &str, prefix: &str)
    requires
        chain@ == "wm_"@ + short_text(desired.gateway_id),
        prefix@ == prefix_text(desired.gateway_id),
    ensures
        operation_views(final(out)@) == operation_views(old(out)@) + peer_sources(desired@),
{
    let list = chain.to_owned().concat("_peers");
    let ghost goal = peer_sources(desired@);
    let ghost before = operation_views(out@);
    let mut i: usize = 0;
    assert(before + goal.take(0) =~= before);
    while i < desired.peers.len()
        invariant
            i <= desired.peers@.len(),
            chain@ == "wm_"@ + short_text(desired.gateway_id),
            list@ == chain@ + "_peers"@,
            prefix@ == prefix_text(desired.gateway_id),
            goal == peer_sources(desired@),
            operation_views(out@) =~= before + goal.take(i as int),
        decreases desired.peers@.len() - i,
    {
        let peer = &desired.peers[i];
        push_operation(
            out,
            address_list(
                list.as_str(),
                host(peer.allowed_address).as_str(),
                tagged(prefix, ":peer-source:", peer.device_id).as_str(),
            ),
        );
        assert(desired@.peers[i as int] == peer@);
        assert(goal.take(i + 1) =~= goal.take(i as int).push(goal[i as int]));
        i = i + 1;
    }
    assert(goal.take(i as int) =~= goal);
}

fn push_destinations(out: &mut Vec<RouterOperation>, desired: &DesiredGatewayState, chain: &str, prefix: &str)
    requires
        chain@ == "wm_"@ + short_text(desired.gateway_id),
        prefix@ == prefix_text(desired.gateway_id),
    ensures
        operation_views(final(out)@) == operation_views(old(out)@) + protected_destinations(
            desired@,
        ),
{
    let list = chain.to_owned().concat("_dst");
    let ghost goal = protected_destinations(desired@);
    let ghost before = operation_views(out@);
    let mut i: usize = 0;
    assert(before + goal.take(0) =~= before);
    while i < desired.routes.len()
        invariant
            i <= desired.routes@.len(),
            chain@ == "wm_"@ + short_text(desired.gateway_id),
            list@ == chain@ + "_dst"@,
            prefix@ == prefix_text(desired.gateway_id),
            goal == protected_destinations(desired@),
            operation_views(out@) =~= before + goal.take(i as int),
        decreases desired.routes@.len() - i,
    {
        let text = desired.routes[i].to_text();
        let mut comment = prefix.to_owned();
        comment.append(":destination:");
        comment.append(text.as_str());
        push_operation(out, address_list(list.as_str(), text.as_str(), comment.as_str()));
        assert(goal.take(i + 1) =~= goal.take(i as int).push(goal[i as int]));
        i = i + 1;
    }
    assert(goal.take(i as int) =~= goal);
}

fn push_chain_start(out: &mut Vec<RouterOperation>, desired: &DesiredGatewayState, chain: &str, prefix: &str)
    requires
        chain@ == "wm_"@ + short_text(desired.gateway_id),
        prefix@ == prefix_text(desired.gateway_id),
    ensures
        operation_views(final(out)@) == operation_views(old(out)@) + chain_start(desired@),
{
    let ghost before = operation_views(out@);
    let ghost goal = chain_start(desired@);
    let mut jump: Vec<(String, String)> = Vec::new();
    set(&mut jump, "chain", "forward");
    set(&mut jump, "in-interface", desired.interface_name.as_str());
    set(&mut jump, "action", "jump");
    set(&mut jump, "jump-target", chain);
    set(&mut jump, "comment", prefix.to_owned().concat(":jump").as_str());
    assert(filter_record(pair_texts(jump@)) =~= goal[0]);
    push_operation(out, filter(jump));
    let mut back: Vec<(String, String)> = Vec::new();
    set(&mut back, "chain", chain);
    set(&mut back, "connection-state", "established,related");
    set(&mut back, "action", "accept");
    set(&mut back, "comment", prefix.to_owned().concat(":stateful-return").as_str());
    assert(filter_record(pair_texts(back@)) =~= goal[1]);
    push_operation(out, filter(back));
    let mut spoof: Vec<(String, String)> = Vec::new();
    set(&mut spoof, "chain", chain);
    let not_peers = String::from_str("!").concat(chain.to_owned().concat("_peers").as_str());
    set(&mut spoof, "src-address-list", not_peers.as_str());
    set(&mut spoof, "action", "drop");
    set(&mut spoof, "comment", prefix.to_owned().concat(":anti-spoof").as_str());
    assert(filter_record(pair_texts(spoof@)) =~= goal[2]);
    push_operation(out, filter(spoof));
    let mut boundary: Vec<(String, String)> = Vec::new();
    set(&mut boundary, "chain", chain);
    let not_routes = String::from_str("!").concat(chain.to_owned().concat("_dst").as_str());
    set(&mut boundary, "dst-address-list", not_routes.as_str());
    set(&mut boundary, "action", "drop");
    set(&mut boundary, "comment", prefix.to_owned().concat(":site-boundary").as_str());
    assert(filter_record(pair_texts(boundary@)) =~= goal[3]);
    push_operation(out, filter(boundary));
    assert(operation_views(out@) =~= before + goal);
}

fn ports_to_text(ports: &PortRange) -> (r: String)
    ensures
        r@ == ports_text(*ports),
{
    let mut out = decimal_text(ports.start as u64);
    if ports.start != ports.end {
        out.append("-");
        out.append(decimal_text(ports.end as u64).as_str());
    }
    out
}

/// How many of some positions are a given one.
fn count_position(positions: &Vec<u32>, position: u32, Ghost(lines): Ghost<Seq<PolicyLine>>) -> (r:
    usize)
    requires
        positions@ == lines.map_values(|l: PolicyLine| l.rule.position),
    ensures
        r == lines_at(lines, position),
{
    let mut count: usize = 0;
    let mut i: usize = 0;
    assert(lines.take(0) =~= Seq::<PolicyLine>::empty());
    while i < positions.len()
        invariant
            i <= positions@.len(),
            positions@ == lines.map_values(|l: PolicyLine| l.rule.position),
            count <= i,
            count == lines_at(lines.take(i as int), position),
        decreases positions@.len() - i,
    {
        let ghost next = lines.take(i + 1);
        assert(next.drop_last() =~= lines.take(i as int));
        assert(next.last().rule.position == positions@[i as int]);
        if positions[i] == position {
            count = count + 1;
        }
        i = i + 1;
    }
    assert(lines.take(i as int) =~= lines);
    count
}

fn list_name(chain: &str, position: u32, before: usize) -> (r: String)
    ensures
        r@ == list_text(chain@, position, before as nat),
{
    let mut list = chain.to_owned();
    list.append("_r");
    list.append(decimal_text(position as u64).as_str());
    if before != 0 {
        list.append("_");
        list.append(decimal_text(before as u64).as_str());
    }
    assert(list@ =~= list_text(chain@, position, before as nat));
    list
}

/// Adds the records of a rule, unless it speaks of no device.
fn push_rule(
    out: &mut Vec<RouterOperation>,
    desired: &DesiredGatewayState,
    rule: &AclRule,
    before: usize,
    chain: &str,
    prefix: &str,
) -> (added: bool)
    requires
        chain@ == "wm_"@ + short_text(desired.gateway_id),
        prefix@ == prefix_text(desired.gateway_id),
    ensures
        added == (covered(desired@.peers, rule@).len() > 0),
        operation_views(final(out)@) == operation_views(old(out)@) + if added {
            rule_records(
                desired@,
                (PolicyLine { rule: rule@, sources: covered(desired@.peers, rule@) }),
                before as nat,
            )
        } else {
            Seq::empty()
        },
{
    let ghost start = operation_views(out@);
    let ghost views = desired@.peers;
    let list = list_name(chain, rule.position, before);
    let mut any: bool = false;
    let mut i: usize = 0;
    assert(views.take(0) =~= Seq::<PeerView>::empty());
    assert(start + rule_sources(desired@, list@, rule@, covered(views.take(0), rule@)) =~= start);
    while i < desired.peers.len()
        invariant
            i <= desired.peers@.len(),
            views == desired@.peers,
            chain@ == "wm_"@ + short_text(desired.gateway_id),
            prefix@ == prefix_text(desired.gateway_id),
            any == (covered(views.take(i as int), rule@).len() > 0),
            operation_views(out@) == start + rule_sources(
                desired@,
                list@,
                rule@,
                covered(views.take(i as int), rule@),
            ),
        decreases desired.peers@.len() - i,
    {
        let peer = &desired.peers[i];
        let ghost next = views.take(i + 1);
        assert(next.drop_last() =~= views.take(i as int));
        assert(next.last() == peer@);
        if rule.subjects.matches(peer.user_id, &peer.group_ids) {
            any = true;
            let mut comment = tagged(prefix, ":rule-source:", rule.id);
            comment.append(":");
            comment.append(uuid_to_text(peer.device_id).as_str());
            push_operation(
                out,
                address_list(
                    list.as_str(),
                    host(peer.allowed_address).as_str(),
                    comment.as_str(),
                ),
            );
            assert(operation_views(out@) =~= start + rule_sources(
                desired@,
                list@,
                rule@,
                covered(next, rule@),
            ));
        }
        i = i + 1;
    }
    assert(views.take(i as int) =~= views);
    if !any {
        assert(operation_views(out@) =~= start);
        return false;
    }
    let mut body: Vec<(String, String)> = Vec::new();
    set(&mut body, "chain", chain);
    set(&mut body, "src-address-list", list.as_str());
    set(&mut body, "dst-address", rule.destination.to_text().as_str());
    set(&mut body, "action", action_name(rule.action));
    set(&mut body, "comment", tagged(prefix, ":rule:", rule.id).as_str());
    if rule.protocol != IpProtocol::Any {
        set(&mut body, "protocol", protocol_name(rule.protocol));
    }
    match &rule.destination_ports {
        Some(ports) => set(&mut body, "dst-port", ports_to_text(ports).as_str()),
        None => {},
    }
    assert(pair_texts(body@) =~= rule_members(desired@, list@, rule@));
    push_operation(out, filter(body));
    assert(operation_views(out@) =~= start + rule_records(
        desired@,
        PolicyLine { rule: rule@, sources: covered(views, rule@) },
        before as nat,
    ));
    true
}

/// The records of a gateway's firewall, in order.
pub fn firewall_operations(desired: &DesiredGatewayState) -> (r: Result<
    Vec<RouterOperation>,
    DriverError,
>)
    ensures
        match router_problem(desired@) {
            None => r matches Ok(list) && operation_views(list@) == firewall_plan(desired@),
            Some(message) => r matches Err(DriverError::Invalid(m)) && m@ == message,
        },
{
    match validate_state(desired) {
        Ok(_) => {},
        Err(error) => return Err(error),
    }
    let prefix = managed_prefix(desired.gateway_id);
    let chain = short_name(desired.gateway_id);
    let mut out: Vec<RouterOperation> = Vec::new();
    assert(operation_views(out@) =~= Seq::<OperationView>::empty());
    push_peer_sources(&mut out, desired, chain.as_str(), prefix.as_str());
    push_destinations(&mut out, desired, chain.as_str(), prefix.as_str());
    push_chain_start(&mut out, desired, chain.as_str(), prefix.as_str());
    let ghost head = operation_views(out@);
    assert(head =~= peer_sources(desired@) + protected_destinations(desired@) + chain_start(
        desired@,
    ));
    let rules = rules_in_turn(desired.acl_rules.as_slice());
    let ghost ordered = in_turn(desired@.acl_rules);
    let ghost views = desired@.peers;
    let mut positions: Vec<u32> = Vec::new();
    let mut i: usize = 0;
    assert(ordered.take(0) =~= Seq::<RuleView>::empty());
    assert(head =~= head + all_rule_records(desired@, policy_lines(ordered.take(0), views)));
    assert(positions@ =~= policy_lines(ordered.take(0), views).map_values(
        |l: PolicyLine| l.rule.position,
    ));
    while i < rules.len()
        invariant
            i <= rules@.len(),
            views == desired@.peers,
            chain@ == "wm_"@ + short_text(desired.gateway_id),
            prefix@ == prefix_text(desired.gateway_id),
            ordered == rules@.map_values(|c: Candidate| c.rule@),
            positions@ == policy_lines(ordered.take(i as int), views).map_values(
                |l: PolicyLine| l.rule.position,
            ),
            operation_views(out@) == head + all_rule_records(
                desired@,
                policy_lines(ordered.take(i as int), views),
            ),
        decreases rules@.len() - i,
    {
        let ghost next = ordered.take(i + 1);
        let ghost lines = policy_lines(ordered.take(i as int), views);
        assert(next.drop_last() =~= ordered.take(i as int));
        assert(next.last() == rules@[i as int].rule@);
        let rule = rules[i].rule;
        let before = count_position(&positions, rule.position, Ghost(lines));
        let added = push_rule(&mut out, desired, rule, before, chain.as_str(), prefix.as_str());
        let ghost now = policy_lines(next, views);
        if added {
            positions.push(rule.position);
            assert(now.drop_last() =~= lines);
            assert(positions@ =~= now.map_values(|l: PolicyLine| l.rule.position));
        }
        assert(operation_views(out@) =~= head + all_rule_records(desired@, now));
        i = i + 1;
    }
    assert(ordered.take(i as int) =~= ordered);
    let mut last: Vec<(String, String)> = Vec::new();
    set(&mut last, "chain", chain.as_str());
    set(&mut last, "action", action_name(desired.acl_default));
    set(&mut last, "comment", prefix.concat(":default").as_str());
    assert(filter_record(pair_texts(last@)) =~= default_record(desired@));
    push_operation(&mut out, filter(last));
    assert(operation_views(out@) =~= firewall_plan(desired@));
    Ok(out)
}

} // verus!
