//! The Linux backend: WireGuard, routes and nftables through system commands.

use vstd::prelude::*;
use vstd::string::*;
use vstd::utf8::*;

use crate::acl::{acl_outcome, AclAction, AclRule, IpProtocol, PacketContext, PortRange};
use crate::agent::DriverError;
use crate::config::{is_public_key, network_texts, networks_to_texts, validate_wireguard_public_key};
use crate::crypto::{fingerprint_text, text_fingerprint};
use crate::ids::{render_simple, uuid_digits, uuid_text, uuid_to_text, Uuid};
use crate::ipv4::{address_text, address_to_text, Ipv4Addr, Ipv4Net};
use crate::json::{canonical_json, json_canonical};
use crate::lines::{
    contains_text, fields_of, lines, lines_of, lossy_text, sort_texts, split_on, utf8_lossy,
    utf8_text,
};
use crate::policy::{
    covered, distinct_addresses, has_address, in_turn, is_routed, law_policy_is_the_acl, policy_lines,
    policy_of, rules_in_turn, Candidate, Policy, PolicyLine,
};
use crate::scrub::{scrub, steady_json, word_texts, JSON_DEPTH};
use crate::sort::stable_sorted;
use crate::state::{DesiredGatewayState, DesiredPeer, PeerView, RuleView, StateView};
use crate::text::{
    byte_count, byte_len, chars_of, decimal, decimal_text, join, joined, occurs_in, opt_text,
    push_text, same_text, slice_text, texts, trim, trimmed,
};

verus! {

/// The name of this backend.
pub const BACKEND_NAME: &'static str = "linux-nftables";

/// What a command printed and whether it succeeded.
#[derive(Debug, Clone, PartialEq, Eq)]
pub struct CommandResult {
    pub success: bool,
    pub stdout: Vec<u8>,
    pub stderr: Vec<u8>,
}

/// A command to run.
#[derive(Debug, Clone, PartialEq, Eq)]
pub struct CommandSpec {
    pub program: String,
    pub arguments: Vec<String>,
    pub stdin: Option<String>,
}

/// The contents of a [`CommandSpec`].
#[verifier::ext_equal]
pub struct CommandView {
    pub program: Seq<char>,
    pub arguments: Seq<Seq<char>>,
    pub stdin: Option<Seq<char>>,
}

impl View for CommandSpec {
    type V = CommandView;

    open spec fn view(&self) -> CommandView {
        CommandView {
            program: self.program@,
            arguments: texts(self.arguments@),
            stdin: opt_text(self.stdin),
        }
    }
}

/// Whether a character may stand in the name of a network interface.
pub open spec fn is_interface_char(c: char) -> bool {
    ||| ('0' <= c && c <= '9')
    ||| ('a' <= c && c <= 'z')
    ||| ('A' <= c && c <= 'Z')
    ||| c == '-'
    ||| c == '_'
    ||| c == '.'
}

/// Whether a text is the name of a network interface: one to fifteen letters, digits, hyphens,
/// underscores and dots.
pub open spec fn is_interface_name(s: Seq<char>) -> bool {
    &&& s.len() > 0
    &&& byte_count(s) <= 15
    &&& forall|i: int| 0 <= i < s.len() ==> is_interface_char(#[trigger] s[i])
}

/// Whether a text is the name of a network interface.
pub fn valid_interface_name(s: &str) -> (r: bool)
    ensures
        r == is_interface_name(s@),
{
    let chars = chars_of(s);
    if chars.len() == 0 || byte_len(s) > 15 {
        return false;
    }
    let mut i: usize = 0;
    while i < chars.len()
        invariant
            i <= chars@.len(),
            chars@ == s@,
            forall|k: int| 0 <= k < i ==> is_interface_char(#[trigger] s@[k]),
        decreases chars@.len() - i,
    {
        let c = chars[i];
        if !(('0' <= c && c <= '9') || ('a' <= c && c <= 'z') || ('A' <= c && c <= 'Z') || c == '-'
            || c == '_' || c == '.') {
            assert(!is_interface_char(s@[i as int]));
            return false;
        }
        i = i + 1;
    }
    true
}

/// What is wrong with device `i`, given those before it.
pub open spec fn peer_problem(peers: Seq<PeerView>, i: int) -> Option<Seq<char>> {
    if !is_public_key(peers[i].public_key) {
        Some("public key must be base64-encoded 32 bytes"@)
    } else if exists|k: int|
        0 <= k < i && ((#[trigger] peers[k]).allowed_address == peers[i].allowed_address
            || peers[k].public_key == peers[i].public_key) {
        Some("duplicate peer address or public key"@)
    } else {
        None
    }
}

/// The first problem among some devices.
pub open spec fn peers_problem(peers: Seq<PeerView>, n: int) -> Option<Seq<char>>
    decreases n,
{
    if n <= 0 {
        None
    } else {
        match peers_problem(peers, n - 1) {
            Some(e) => Some(e),
            None => peer_problem(peers, n - 1),
        }
    }
}

/// Whether a rule restricts ports of a protocol that has none.
pub open spec fn has_stray_ports(rule: RuleView) -> bool {
    rule.destination_ports is Some && rule.protocol != IpProtocol::Tcp && rule.protocol
        != IpProtocol::Udp
}

/// What is wrong with a state, if anything: the first problem in this order.
pub open spec fn state_problem(state: StateView) -> Option<Seq<char>> {
    if !is_interface_name(state.interface_name) {
        Some("invalid Linux interface name"@)
    } else if state.listen_port == 0 {
        Some("listen port cannot be zero"@)
    } else if state.routes.len() == 0 {
        Some("site must have protected routes"@)
    } else {
        match peers_problem(state.peers, state.peers.len() as int) {
            Some(e) => Some(e),
            None => if exists|i: int|
                0 <= i < state.acl_rules.len() && has_stray_ports(#[trigger] state.acl_rules[i]) {
                Some("ACL ports require TCP or UDP"@)
            } else {
                None
            },
        }
    }
}

/// Whether the result of a check is what a problem asks for.
pub open spec fn reports(r: Result<(), DriverError>, problem: Option<Seq<char>>) -> bool {
    match problem {
        None => r is Ok,
        Some(message) => r matches Err(DriverError::Invalid(m)) && m@ == message,
    }
}

fn check_peer(peers: &[DesiredPeer], i: usize) -> (r: Result<(), DriverError>)
    requires
        i < peers@.len(),
    ensures
        reports(r, peer_problem(peers@.map_values(|p: DesiredPeer| p@), i as int)),
{
    let ghost views = peers@.map_values(|p: DesiredPeer| p@);
    let peer = &peers[i];
    assert(views[i as int] == peer@);
    match validate_wireguard_public_key(peer.public_key.as_str()) {
        Ok(_) => {},
        Err(error) => return Err(DriverError::Invalid(error.message())),
    }
    let mut k: usize = 0;
    while k < i
        invariant
            k <= i < peers@.len(),
            views == peers@.map_values(|p: DesiredPeer| p@),
            *peer == peers@[i as int],
            is_public_key(peer.public_key@),
            forall|j: int|
                0 <= j < k ==> (#[trigger] views[j]).allowed_address != peer.allowed_address
                    && views[j].public_key != peer.public_key@,
        decreases i - k,
    {
        assert(views[k as int] == peers@[k as int]@);
        if peers[k].allowed_address == peer.allowed_address || same_text(
            peers[k].public_key.as_str(),
            peer.public_key.as_str(),
        ) {
            return Err(
                DriverError::Invalid(String::from_str("duplicate peer address or public key")),
            );
        }
        k = k + 1;
    }
    Ok(())
}

/// Checks that a state can be brought about on Linux.
pub fn validate_state(desired: &DesiredGatewayState) -> (r: Result<(), DriverError>)
    ensures
        reports(r, state_problem(desired@)),
{
    if !valid_interface_name(desired.interface_name.as_str()) {
        return Err(DriverError::Invalid(String::from_str("invalid Linux interface name")));
    }
    if desired.listen_port == 0 {
        return Err(DriverError::Invalid(String::from_str("listen port cannot be zero")));
    }
    if desired.routes.len() == 0 {
        return Err(DriverError::Invalid(String::from_str("site must have protected routes")));
    }
    let ghost views = desired@.peers;
    let mut i: usize = 0;
    while i < desired.peers.len()
        invariant
            i <= desired.peers@.len(),
            is_interface_name(desired@.interface_name),
            desired.listen_port != 0,
            desired.routes@.len() > 0,
            views == desired@.peers,
            peers_problem(views, i as int) is None,
        decreases desired.peers@.len() - i,
    {
        let checked = check_peer(desired.peers.as_slice(), i);
        if checked.is_err() {
            proof {
                lemma_problem_stays(views, i + 1);
            }
            return checked;
        }
        i = i + 1;
    }
    let mut j: usize = 0;
    while j < desired.acl_rules.len()
        invariant
            j <= desired.acl_rules@.len(),
            is_interface_name(desired@.interface_name),
            desired.listen_port != 0,
            desired.routes@.len() > 0,
            peers_problem(desired@.peers, desired@.peers.len() as int) is None,
            forall|k: int| 0 <= k < j ==> !has_stray_ports(#[trigger] desired@.acl_rules[k]),
        decreases desired.acl_rules@.len() - j,
    {
        let rule = &desired.acl_rules[j];
        assert(desired@.acl_rules[j as int] == rule@);
        if rule.destination_ports.is_some() && rule.protocol != IpProtocol::Tcp && rule.protocol
            != IpProtocol::Udp {
            assert(has_stray_ports(desired@.acl_rules[j as int]));
            return Err(DriverError::Invalid(String::from_str("ACL ports require TCP or UDP")));
        }
        j = j + 1;
    }
    Ok(())
}

proof fn lemma_problem_stays(peers: Seq<PeerView>, n: int)
    requires
        0 <= n <= peers.len(),
        peers_problem(peers, n) is Some,
    ensures
        peers_problem(peers, peers.len() as int) == peers_problem(peers, n),
    decreases peers.len() - n,
{
    if n < peers.len() {
        lemma_problem_stays(peers, n + 1);
    }
}

/// The sections of some devices in a WireGuard configuration.
pub open spec fn wireguard_sections(peers: Seq<PeerView>) -> Seq<char>
    decreases peers.len(),
{
    if peers.len() == 0 {
        Seq::empty()
    } else {
        wireguard_sections(peers.drop_last()) + ("\n[Peer]\nPublicKey = "@ + peers.last().public_key
            + "\nAllowedIPs = "@ + address_text(peers.last().allowed_address) + "/32\n"@)
    }
}

/// Renders the devices as a WireGuard configuration, which holds their public keys and
/// addresses and nothing else.
pub fn render_wireguard(desired: &DesiredGatewayState) -> (r: String)
    ensures
        r@ == "[Interface]\n"@ + wireguard_sections(desired@.peers),
{
    let mut out = String::from_str("[Interface]\n");
    let ghost views = desired@.peers;
    let mut i: usize = 0;
    assert(views.take(0) =~= Seq::<PeerView>::empty());
    assert(out@ =~= "[Interface]\n"@ + wireguard_sections(views.take(0)));
    while i < desired.peers.len()
        invariant
            i <= desired.peers@.len(),
            views == desired@.peers,
            out@ == "[Interface]\n"@ + wireguard_sections(views.take(i as int)),
        decreases desired.peers@.len() - i,
    {
        let peer = &desired.peers[i];
        let ghost next = views.take(i + 1);
        assert(next.drop_last() =~= views.take(i as int));
        assert(next.last() == peer@);
        out.append("\n[Peer]\nPublicKey = ");
        out.append(peer.public_key.as_str());
        out.append("\nAllowedIPs = ");
        out.append(address_to_text(peer.allowed_address).as_str());
        out.append("/32\n");
        assert(out@ =~= "[Interface]\n"@ + wireguard_sections(next));
        i = i + 1;
    }
    assert(views.take(i as int) =~= views);
    out
}

/// The verdict that stands for an action.
pub open spec fn verdict_text(action: AclAction) -> Seq<char> {
    match action {
        AclAction::Allow => "accept"@,
        AclAction::Deny => "drop"@,
    }
}

/// The verdict that stands for an action.
pub fn action_name(action: AclAction) -> (r: &'static str)
    ensures
        r@ == verdict_text(action),
{
    match action {
        AclAction::Allow => "accept",
        AclAction::Deny => "drop",
    }
}

/// The name of a gateway's table: `wm_` and the first twelve digits of its identifier.
pub open spec fn table_text(gateway_id: Uuid) -> Seq<char> {
    "wm_"@ + uuid_digits(gateway_id).take(12)
}

/// The name of a gateway's table.
pub fn nft_table_name(gateway_id: Uuid) -> (r: String)
    ensures
        r@ == table_text(gateway_id),
{
    let compact = chars_of(render_simple(gateway_id).as_str());
    let mut out = String::from_str("wm_");
    out.append(slice_text(compact.as_slice(), 0, 12).as_str());
    assert(uuid_digits(gateway_id).subrange(0, 12) =~= uuid_digits(gateway_id).take(12));
    out
}

/// The part of a rule that names its protocol.
pub open spec fn nft_protocol(protocol: IpProtocol) -> Seq<char> {
    match protocol {
        IpProtocol::Any => Seq::empty(),
        IpProtocol::Tcp => " meta l4proto tcp"@,
        IpProtocol::Udp => " meta l4proto udp"@,
        IpProtocol::Icmp => " meta l4proto icmp"@,
    }
}

/// The part of a rule that restricts its ports.
pub open spec fn nft_ports(protocol: IpProtocol, ports: Option<PortRange>) -> Seq<char> {
    match ports {
        None => Seq::empty(),
        Some(range) => {
            let name = if protocol == IpProtocol::Tcp {
                " tcp"@
            } else {
                " udp"@
            };
            if range.start == range.end {
                name + " dport "@ + decimal(range.start as nat)
            } else {
                name + " dport "@ + decimal(range.start as nat) + "-"@ + decimal(range.end as nat)
            }
        },
    }
}

/// One line: a rule and the addresses of the devices that it speaks of.
pub open spec fn nft_rule(table: Seq<char>, line: PolicyLine) -> Seq<char> {
    let rule = line.rule;
    "add rule inet "@ + table + " forward ip saddr { "@ + joined(
        peer_addresses(line.sources),
        ", "@,
    ) + " } ip daddr "@ + rule.destination.text() + nft_protocol(rule.protocol) + nft_ports(
        rule.protocol,
        rule.destination_ports,
    ) + " "@ + verdict_text(rule.action) + " comment \"wiremesh rule "@ + uuid_text(rule.id)
        + "\"\n"@
}

/// Some lines, one after another.
pub open spec fn nft_rules(table: Seq<char>, lines: Seq<PolicyLine>) -> Seq<char>
    decreases lines.len(),
{
    if lines.len() == 0 {
        Seq::empty()
    } else {
        nft_rules(table, lines.drop_last()) + nft_rule(table, lines.last())
    }
}

/// What every table begins with: it replaces the old one, leaves other interfaces alone and
/// lets established connections pass.
pub open spec fn nft_header(table: Seq<char>, interface_name: Seq<char>) -> Seq<char> {
    "destroy table inet "@ + table + "\nadd table inet "@ + table + "\nadd chain inet "@ + table
        + " forward { type filter hook forward priority filter; policy accept; }\nadd rule inet "@
        + table + " forward iifname != \""@ + interface_name + "\" return\nadd rule inet "@ + table
        + " forward ct state established,related accept\n"@
}

/// The addresses of some devices.
pub open spec fn peer_addresses(peers: Seq<PeerView>) -> Seq<Seq<char>> {
    peers.map_values(|p: PeerView| address_text(p.allowed_address))
}

/// The rules that drop what does not come from a device or does not go to a protected route.
pub open spec fn nft_guards(
    table: Seq<char>,
    peers: Seq<PeerView>,
    routes: Seq<Ipv4Net>,
) -> Seq<char> {
    "add rule inet "@ + table + " forward ip saddr != { "@ + joined(peer_addresses(peers), ", "@)
        + " } drop\n"@ + "add rule inet "@ + table + " forward ip daddr != { "@ + joined(
        network_texts(routes),
        ", "@,
    ) + " } drop\n"@
}

/// The rule for what no access rule speaks of.
pub open spec fn nft_default(table: Seq<char>, action: AclAction) -> Seq<char> {
    "add rule inet "@ + table + " forward "@ + verdict_text(action)
        + " comment \"wiremesh site default\"\n"@
}

/// What a table says of packets that open a connection: without devices all are dropped, else
/// the guards come first, then the lines in order, then what happens to the rest.
pub open spec fn nft_policy(table: Seq<char>, policy: Policy) -> Seq<char> {
    if policy.peers.len() == 0 {
        "add rule inet "@ + table + " forward drop\n"@
    } else {
        nft_guards(table, policy.peers, policy.routes) + nft_rules(table, policy.lines)
            + nft_default(table, policy.otherwise)
    }
}

/// A gateway's table.
pub open spec fn nftables_text(state: StateView) -> Seq<char> {
    let table = table_text(state.gateway_id);
    nft_header(table, state.interface_name) + nft_policy(table, policy_of(state))
}

/// The policy that a table is rendered from says what the access rules say: a packet of a device
/// to a protected network meets with what the rules decide for the user of the device and its
/// groups, and every other packet is dropped.
pub proof fn law_rendered_policy_is_the_acl(
    state: StateView,
    rules: Seq<AclRule>,
    packet: PacketContext,
    source: Ipv4Addr,
)
    requires
        state_problem(state) is None,
        state.acl_rules == rules.map_values(|r: AclRule| r@),
    ensures
        forall|peer: int, action: AclAction|
            {
                &&& 0 <= peer < state.peers.len()
                &&& (#[trigger] state.peers[peer]).allowed_address == source
                &&& packet.user_id == state.peers[peer].user_id
                &&& packet.group_ids@ == state.peers[peer].group_ids
                &&& is_routed(state.routes, packet.destination)
                &&& #[trigger] acl_outcome(rules, state.acl_default, packet, action)
            } ==> policy_of(state).verdict(source, packet) == action,
        !has_address(state.peers, source) || !is_routed(state.routes, packet.destination)
            ==> policy_of(state).verdict(source, packet) == AclAction::Deny,
{
    assert(distinct_addresses(state.peers)) by {
        assert forall|i: int, j: int| 0 <= i < j < state.peers.len() implies (
        #[trigger] state.peers[i]).allowed_address != (
        #[trigger] state.peers[j]).allowed_address by {
            lemma_no_peer_problem(state.peers, j);
        }
    }
    assert forall|peer: int, action: AclAction|
        {
            &&& 0 <= peer < state.peers.len()
            &&& (#[trigger] state.peers[peer]).allowed_address == source
            &&& packet.user_id == state.peers[peer].user_id
            &&& packet.group_ids@ == state.peers[peer].group_ids
            &&& is_routed(state.routes, packet.destination)
            &&& #[trigger] acl_outcome(rules, state.acl_default, packet, action)
        } implies policy_of(state).verdict(source, packet) == action by {
        law_policy_is_the_acl(state, rules, packet, peer, action);
    }
}

proof fn lemma_no_peer_problem(peers: Seq<PeerView>, j: int)
    requires
        0 <= j < peers.len(),
        peers_problem(peers, peers.len() as int) is None,
    ensures
        peer_problem(peers, j) is None,
{
    if peers_problem(peers, j + 1) is Some {
        lemma_problem_stays(peers, j + 1);
    }
}

fn sources_of(peers: &[DesiredPeer]) -> (r: Vec<String>)
    ensures
        texts(r@) == peer_addresses(peers@.map_values(|p: DesiredPeer| p@)),
{
    let ghost goal = peer_addresses(peers@.map_values(|p: DesiredPeer| p@));
    let mut out: Vec<String> = Vec::new();
    let mut i: usize = 0;
    while i < peers.len()
        invariant
            i <= peers@.len(),
            goal == peer_addresses(peers@.map_values(|p: DesiredPeer| p@)),
            texts(out@) =~= goal.take(i as int),
        decreases peers@.len() - i,
    {
        push_text(&mut out, address_to_text(peers[i].allowed_address));
        assert(goal.take(i + 1) =~= goal.take(i as int).push(goal[i as int]));
        i = i + 1;
    }
    assert(goal.take(i as int) =~= goal);
    out
}

fn matching(peers: &[DesiredPeer], rule: &AclRule) -> (r: Vec<String>)
    ensures
        texts(r@) == peer_addresses(covered(peers@.map_values(|p: DesiredPeer| p@), rule@)),
{
    let ghost views = peers@.map_values(|p: DesiredPeer| p@);
    let mut out: Vec<String> = Vec::new();
    let mut i: usize = 0;
    assert(views.take(0) =~= Seq::<PeerView>::empty());
    assert(texts(out@) =~= peer_addresses(covered(views.take(0), rule@)));
    while i < peers.len()
        invariant
            i <= peers@.len(),
            views == peers@.map_values(|p: DesiredPeer| p@),
            texts(out@) == peer_addresses(covered(views.take(i as int), rule@)),
        decreases peers@.len() - i,
    {
        let ghost next = views.take(i + 1);
        assert(next.drop_last() =~= views.take(i as int));
        assert(next.last() == peers@[i as int]@);
        if rule.subjects.matches(peers[i].user_id, &peers[i].group_ids) {
            push_text(&mut out, address_to_text(peers[i].allowed_address));
            assert(texts(out@) =~= peer_addresses(covered(next, rule@)));
        }
        i = i + 1;
    }
    assert(views.take(i as int) =~= views);
    out
}

fn protocol_clause(protocol: IpProtocol) -> (r: &'static str)
    ensures
        r@ == nft_protocol(protocol),
{
    proof {
        reveal_strlit("");
        assert(""@ =~= Seq::<char>::empty());
    }
    match protocol {
        IpProtocol::Any => "",
        IpProtocol::Tcp => " meta l4proto tcp",
        IpProtocol::Udp => " meta l4proto udp",
        IpProtocol::Icmp => " meta l4proto icmp",
    }
}

fn append_ports(out: &mut String, protocol: IpProtocol, ports: &Option<PortRange>)
    ensures
        final(out)@ == old(out)@ + nft_ports(protocol, *ports),
{
    match ports {
        None => {},
        Some(ports) => {
            out.append(
                if protocol == IpProtocol::Tcp {
                    " tcp"
                } else {
                    " udp"
                },
            );
            out.append(" dport ");
            out.append(decimal_text(ports.start as u64).as_str());
            if ports.start != ports.end {
                out.append("-");
                out.append(decimal_text(ports.end as u64).as_str());
            }
        },
    }
    assert(out@ =~= old(out)@ + nft_ports(protocol, *ports));
}

fn append_rule(out: &mut String, table: &str, rule: &AclRule, peers: &[DesiredPeer])
    requires
        !has_stray_ports(rule@),
    ensures
        ({
            let sources = covered(peers@.map_values(|p: DesiredPeer| p@), rule@);
            if sources.len() == 0 {
                final(out)@ == old(out)@
            } else {
                final(out)@ == old(out)@ + nft_rule(
                    table@,
                    (PolicyLine { rule: rule@, sources }),
                )
            }
        }),
{
    let ghost line = PolicyLine {
        rule: rule@,
        sources: covered(peers@.map_values(|p: DesiredPeer| p@), rule@),
    };
    let sources = matching(peers, rule);
    assert(texts(sources@).len() == sources@.len());
    if sources.len() == 0 {
        return;
    }
    out.append("add rule inet ");
    out.append(table);
    out.append(" forward ip saddr { ");
    out.append(join(sources.as_slice(), ", ").as_str());
    out.append(" } ip daddr ");
    out.append(rule.destination.to_text().as_str());
    out.append(protocol_clause(rule.protocol));
    append_ports(out, rule.protocol, &rule.destination_ports);
    out.append(" ");
    out.append(action_name(rule.action));
    out.append(" comment \"wiremesh rule ");
    out.append(uuid_to_text(rule.id).as_str());
    out.append("\"\n");
    assert(out@ =~= old(out)@ + nft_rule(table@, line));
}

fn nft_start(table: &str, interface_name: &str) -> (r: String)
    ensures
        r@ == nft_header(table@, interface_name@),
{
    let mut out = String::from_str("destroy table inet ");
    out.append(table);
    out.append("\nadd table inet ");
    out.append(table);
    out.append("\nadd chain inet ");
    out.append(table);
    out.append(
        " forward { type filter hook forward priority filter; policy accept; }\nadd rule inet ",
    );
    out.append(table);
    out.append(" forward iifname != \"");
    out.append(interface_name);
    out.append("\" return\nadd rule inet ");
    out.append(table);
    out.append(" forward ct state established,related accept\n");
    out
}

fn append_guards(out: &mut String, table: &str, peers: &[DesiredPeer], routes: &[Ipv4Net])
    ensures
        final(out)@ == old(out)@ + nft_guards(
            table@,
            peers@.map_values(|p: DesiredPeer| p@),
            routes@,
        ),
{
    let sources = sources_of(peers);
    let destinations = networks_to_texts(routes);
    out.append("add rule inet ");
    out.append(table);
    out.append(" forward ip saddr != { ");
    out.append(join(sources.as_slice(), ", ").as_str());
    out.append(" } drop\n");
    out.append("add rule inet ");
    out.append(table);
    out.append(" forward ip daddr != { ");
    out.append(join(destinations.as_slice(), ", ").as_str());
    out.append(" } drop\n");
    assert(out@ =~= old(out)@ + nft_guards(
        table@,
        peers@.map_values(|p: DesiredPeer| p@),
        routes@,
    ));
}

/// Appends the rules that cover a device, in their turn.
fn append_rules(out: &mut String, table: &str, rules: &[Candidate], peers: &[DesiredPeer])
    requires
        forall|k: int| 0 <= k < rules@.len() ==> !has_stray_ports((#[trigger] rules@[k]).rule@),
    ensures
        final(out)@ == old(out)@ + nft_rules(
            table@,
            policy_lines(
                rules@.map_values(|c: Candidate| c.rule@),
                peers@.map_values(|p: DesiredPeer| p@),
            ),
        ),
{
    let ghost head = out@;
    let ghost views = peers@.map_values(|p: DesiredPeer| p@);
    let ghost ordered = rules@.map_values(|c: Candidate| c.rule@);
    let mut i: usize = 0;
    assert(ordered.take(0) =~= Seq::<RuleView>::empty());
    assert(head =~= head + nft_rules(table@, policy_lines(ordered.take(0), views)));
    while i < rules.len()
        invariant
            i <= rules@.len(),
            views == peers@.map_values(|p: DesiredPeer| p@),
            ordered == rules@.map_values(|c: Candidate| c.rule@),
            forall|k: int| 0 <= k < rules@.len() ==> !has_stray_ports((#[trigger] rules@[k]).rule@),
            out@ == head + nft_rules(table@, policy_lines(ordered.take(i as int), views)),
        decreases rules@.len() - i,
    {
        let ghost next = ordered.take(i + 1);
        assert(next.drop_last() =~= ordered.take(i as int));
        assert(next.last() == rules@[i as int].rule@);
        append_rule(out, table, rules[i].rule, peers);
        proof {
            let lines = policy_lines(next, views);
            if covered(views, next.last()).len() > 0 {
                assert(lines.drop_last() =~= policy_lines(next.drop_last(), views));
            }
            assert(out@ =~= head + nft_rules(table@, lines));
        }
        i = i + 1;
    }
    assert(ordered.take(i as int) =~= ordered);
}

/// Renders a gateway's table.
pub fn render_nftables(desired: &DesiredGatewayState) -> (r: Result<String, DriverError>)
    ensures
        match state_problem(desired@) {
            None => r matches Ok(text) && text@ == nftables_text(desired@),
            Some(message) => r matches Err(DriverError::Invalid(m)) && m@ == message,
        },
{
    match validate_state(desired) {
        Ok(_) => {},
        Err(error) => return Err(error),
    }
    let table = nft_table_name(desired.gateway_id);
    let mut out = nft_start(table.as_str(), desired.interface_name.as_str());
    if desired.peers.len() == 0 {
        out.append("add rule inet ");
        out.append(table.as_str());
        out.append(" forward drop\n");
        assert(out@ =~= nftables_text(desired@));
        return Ok(out);
    }
    append_guards(
        &mut out,
        table.as_str(),
        desired.peers.as_slice(),
        desired.routes.as_slice(),
    );
    let ghost head = out@;
    let rules = rules_in_turn(desired.acl_rules.as_slice());
    assert(in_turn(desired@.acl_rules) == rules@.map_values(|c: Candidate| c.rule@));
    proof {
        assert forall|k: int| 0 <= k < rules@.len() implies !has_stray_ports(
            (#[trigger] rules@[k]).rule@,
        ) by {
            assert(desired.acl_rules@.contains(*rules@[k].rule));
            let m = choose|m: int|
                0 <= m < desired.acl_rules@.len() && desired.acl_rules@[m] == *rules@[k].rule;
            assert(!has_stray_ports(desired@.acl_rules[m]));
        }
    }
    append_rules(&mut out, table.as_str(), rules.as_slice(), desired.peers.as_slice());
    assert(out@ == head + nft_rules(
        table@,
        policy_lines(in_turn(desired@.acl_rules), desired@.peers),
    ));
    out.append("add rule inet ");
    out.append(table.as_str());
    out.append(" forward ");
    out.append(action_name(desired.acl_default));
    out.append(" comment \"wiremesh site default\"\n");
    assert(out@ =~= nftables_text(desired@));
    Ok(out)
}

/// The members of a listing that change without the table having changed: handles, counters
/// and the version of the tool.
pub open spec fn volatile_members() -> Seq<Seq<char>> {
    seq!["handle"@, "packets"@, "bytes"@, "metainfo"@]
}

/// The listing of a table without what changes by itself.
pub fn normalize_nft_json(bytes: &[u8]) -> (r: Result<String, DriverError>)
    ensures
        match json_canonical(bytes@) {
            Ok(text) => r matches Ok(s) && s@ == steady_json(
                text,
                volatile_members(),
                JSON_DEPTH as nat,
            ),
            Err(error) => r matches Err(DriverError::Apply(m)) && m@ == "decode nftables state: "@
                + error,
        },
{
    match canonical_json(bytes) {
        Ok(text) => {
            let volatile: Vec<&str> = vec!["handle", "packets", "bytes", "metainfo"];
            assert(word_texts(volatile@) =~= volatile_members());
            Ok(scrub(text.as_str(), volatile.as_slice(), JSON_DEPTH))
        },
        Err(error) => Err(
            DriverError::Apply(
                String::from_str("decode nftables state: ").concat(error.as_str()),
            ),
        ),
    }
}

/// A field of a line, empty where the line has fewer.
pub open spec fn field_at(fields: Seq<Seq<char>>, i: int) -> Seq<char> {
    if 0 <= i < fields.len() {
        fields[i]
    } else {
        Seq::empty()
    }
}

/// What is kept of a line about an interface or a device: three of its fields.
pub open spec fn kept_fields(label: Seq<char>, line: Seq<char>, a: int, b: int, c: int) -> Seq<
    char,
> {
    let fields = fields_of(line, '\t');
    label + ":"@ + field_at(fields, a) + ":"@ + field_at(fields, b) + ":"@ + field_at(fields, c)
}

fn field(fields: &[String], i: usize) -> (r: String)
    ensures
        r@ == field_at(texts(fields@), i as int),
{
    if i < fields.len() {
        assert(texts(fields@)[i as int] == fields@[i as int]@);
        fields[i].clone()
    } else {
        let r = String::new();
        assert(r@ =~= Seq::<char>::empty());
        r
    }
}

fn keep_fields(label: &str, line: &str, a: usize, b: usize, c: usize) -> (r: String)
    ensures
        r@ == kept_fields(label@, line@, a as int, b as int, c as int),
{
    let fields = split_on(line, '\t');
    let mut out = label.to_owned();
    out.append(":");
    out.append(field(fields.as_slice(), a).as_str());
    out.append(":");
    out.append(field(fields.as_slice(), b).as_str());
    out.append(":");
    out.append(field(fields.as_slice(), c).as_str());
    out
}

/// The lines about devices in a dump, in order, reduced to key, address and keepalive.
pub open spec fn dump_peers(lines: Seq<Seq<char>>) -> Seq<Seq<char>> {
    stable_sorted(
        Seq::new(
            (if lines.len() > 0 {
                (lines.len() - 1) as nat
            } else {
                0
            }),
            |i: int| kept_fields("peer"@, lines[i + 1], 0, 3, 7),
        ),
    )
}

/// The line about the interface in a dump, reduced to key, port and mark.
pub open spec fn dump_interface(lines: Seq<Seq<char>>) -> Seq<char> {
    if lines.len() > 0 {
        kept_fields("interface"@, lines[0], 1, 2, 3)
    } else {
        Seq::empty()
    }
}

/// The output of `wg show dump` without counters and in a fixed order.
pub fn normalize_wg_dump(bytes: &[u8]) -> (r: String)
    ensures
        r@ == joined(
            seq![dump_interface(lines_of(utf8_lossy(bytes@)))] + dump_peers(
                lines_of(utf8_lossy(bytes@)),
            ),
            "\n"@,
        ),
{
    let text = lossy_text(bytes);
    let all = lines(text.as_str());
    let ghost views = texts(all@);
    let interface = if all.len() > 0 {
        assert(views[0] == all@[0]@);
        keep_fields("interface", all[0].as_str(), 1, 2, 3)
    } else {
        let empty = String::new();
        assert(empty@ =~= Seq::<char>::empty());
        empty
    };
    let mut peers: Vec<String> = Vec::new();
    let mut i: usize = 1;
    let ghost goal = Seq::new(
        (if views.len() > 0 {
            (views.len() - 1) as nat
        } else {
            0
        }),
        |i: int| kept_fields("peer"@, views[i + 1], 0, 3, 7),
    );
    while i < all.len()
        invariant
            1 <= i,
            i <= all@.len() || all@.len() == 0,
            views == texts(all@),
            all@.len() > 0 ==> texts(peers@) =~= Seq::new(
                (i - 1) as nat,
                |k: int| kept_fields("peer"@, views[k + 1], 0, 3, 7),
            ),
            all@.len() == 0 ==> peers@.len() == 0,
        decreases all@.len() - i,
    {
        assert(views[i as int] == all@[i as int]@);
        push_text(&mut peers, keep_fields("peer", all[i].as_str(), 0, 3, 7));
        i = i + 1;
    }
    assert(texts(peers@) =~= goal);
    sort_texts(&mut peers);
    let mut out: Vec<String> = Vec::new();
    let ghost first = interface@;
    push_text(&mut out, interface);
    let ghost sorted = texts(peers@);
    let mut j: usize = 0;
    while j < peers.len()
        invariant
            j <= peers@.len(),
            sorted == texts(peers@),
            texts(out@) =~= seq![first] + sorted.take(j as int),
        decreases peers@.len() - j,
    {
        push_text(&mut out, peers[j].clone());
        assert(sorted.take(j + 1) =~= sorted.take(j as int).push(peers@[j as int]@));
        j = j + 1;
    }
    assert(sorted.take(j as int) =~= sorted);
    join(out.as_slice(), "\n")
}

/// The lines of a listing that hold anything, trimmed.
pub open spec fn full_lines(lines: Seq<Seq<char>>) -> Seq<Seq<char>>
    decreases lines.len(),
{
    if lines.len() == 0 {
        Seq::empty()
    } else if trimmed(lines.last()).len() == 0 {
        full_lines(lines.drop_last())
    } else {
        full_lines(lines.drop_last()).push(trimmed(lines.last()))
    }
}

/// A listing without empty lines and outer whitespace, its lines in order.
pub fn normalize_lines(bytes: &[u8]) -> (r: String)
    ensures
        r@ == joined(stable_sorted(full_lines(lines_of(utf8_lossy(bytes@)))), "\n"@),
{
    let text = lossy_text(bytes);
    let all = lines(text.as_str());
    let ghost views = texts(all@);
    let mut kept: Vec<String> = Vec::new();
    let mut i: usize = 0;
    assert(views.take(0) =~= Seq::<Seq<char>>::empty());
    assert(texts(kept@) =~= Seq::<Seq<char>>::empty());
    while i < all.len()
        invariant
            i <= all@.len(),
            views == texts(all@),
            texts(kept@) == full_lines(views.take(i as int)),
        decreases all@.len() - i,
    {
        let ghost next = views.take(i + 1);
        assert(next.drop_last() =~= views.take(i as int));
        assert(next.last() == all@[i as int]@);
        let line = trim(all[i].as_str());
        if !line.as_str().is_empty() {
            push_text(&mut kept, line);
        }
        i = i + 1;
    }
    assert(views.take(i as int) =~= views);
    sort_texts(&mut kept);
    join(kept.as_slice(), "\n")
}

/// The digest of what a gateway is: its interface, its routes and its table as they are listed,
/// without counters.
pub fn live_state_hash(wireguard: &[u8], routes: &[u8], nftables: &[u8]) -> (r: Result<
    String,
    DriverError,
>)
    ensures
        match json_canonical(nftables@) {
            Ok(table) => r matches Ok(hash) && hash@ == text_fingerprint(
                joined(
                    seq![dump_interface(lines_of(utf8_lossy(wireguard@)))] + dump_peers(
                        lines_of(utf8_lossy(wireguard@)),
                    ),
                    "\n"@,
                ) + "\n"@ + joined(
                    stable_sorted(full_lines(lines_of(utf8_lossy(routes@)))),
                    "\n"@,
                ) + "\n"@ + steady_json(table, volatile_members(), JSON_DEPTH as nat),
            ),
            Err(error) => r matches Err(DriverError::Apply(m)) && m@ == "decode nftables state: "@
                + error,
        },
{
    let table = match normalize_nft_json(nftables) {
        Ok(table) => table,
        Err(error) => return Err(error),
    };
    let mut out = normalize_wg_dump(wireguard);
    out.append("\n");
    out.append(normalize_lines(routes).as_str());
    out.append("\n");
    out.append(table.as_str());
    Ok(fingerprint_text(out.as_str()))
}

/// What is said of a command that failed.
pub open spec fn failure_text(program: Seq<char>, stderr: Seq<u8>) -> Seq<char> {
    program + " failed: "@ + trimmed(utf8_lossy(stderr))
}

/// The error for a command that failed.
pub fn command_failed(program: &str, result: &CommandResult) -> (r: DriverError)
    ensures
        r matches DriverError::Apply(m) && m@ == failure_text(program@, result.stderr@),
{
    let mut out = program.to_owned();
    out.append(" failed: ");
    let text = lossy_text(result.stderr.as_slice());
    out.append(trim(text.as_str()).as_str());
    DriverError::Apply(out)
}

/// Passes on the result of a command that succeeded.
pub fn checked(program: &str, result: CommandResult) -> (r: Result<CommandResult, DriverError>)
    ensures
        result.success ==> r == Ok::<CommandResult, DriverError>(result),
        !result.success ==> (r matches Err(DriverError::Apply(m)) && m@ == failure_text(
            program@,
            result.stderr@,
        )),
{
    if result.success {
        Ok(result)
    } else {
        Err(command_failed(program, &result))
    }
}

/// Decides on an attempt to drop the connections of a source: that there were none is success.
pub fn flush_result(result: &CommandResult) -> (r: Result<(), DriverError>)
    ensures
        r is Ok <==> result.success || occurs_in("0 flow"@, utf8_lossy(result.stderr@)),
        r matches Err(error) ==> (error matches DriverError::Apply(m) && m@ == failure_text(
            "conntrack"@,
            result.stderr@,
        )),
{
    if !result.success {
        let text = lossy_text(result.stderr.as_slice());
        if !contains_text(text.as_str(), "0 flow") {
            return Err(command_failed("conntrack", result));
        }
    }
    Ok(())
}

/// What is written for a key that `wg genkey` printed: the key and a line feed. It must be a
/// key.
pub fn accept_generated_key(stdout: Vec<u8>) -> (r: Result<String, DriverError>)
    ensures
        !valid_utf8(stdout@) ==> (r matches Err(DriverError::Apply(m)) && m@
            == "wg generated a non-UTF-8 key"@),
        valid_utf8(stdout@) && !is_public_key(trimmed(decode_utf8(stdout@))) ==> (r matches Err(
            DriverError::Apply(m),
        ) && m@ == "wg generated an invalid key: "@ + "public key must be base64-encoded 32 bytes"@),
        valid_utf8(stdout@) && is_public_key(trimmed(decode_utf8(stdout@))) ==> (r matches Ok(text)
            && text@ == trimmed(decode_utf8(stdout@)) + "\n"@),
{
    let key = match utf8_text(stdout) {
        Some(key) => key,
        None => {
            return Err(DriverError::Apply(String::from_str("wg generated a non-UTF-8 key")));
        },
    };
    let key = trim(key.as_str());
    match validate_wireguard_public_key(key.as_str()) {
        Ok(_) => Ok(key.concat("\n")),
        Err(error) => Err(
            DriverError::Apply(
                String::from_str("wg generated an invalid key: ").concat(error.message().as_str()),
            ),
        ),
    }
}

} // verus!
