//! What the states that gateways are asked to be promise.

use vstd::prelude::*;

use crate::acl::{AclAction, IpProtocol};
use crate::desired::{
    devices_fault, drafted, ids_fault, ids_of, nets_fault, rules_fault, sources_fault, DeviceRow,
    GatewaySources, RuleRow,
};
use crate::ids::{uuid_parsed, Uuid};
use crate::ipv4::{address_parsed, network_parsed, Ipv4Addr, Ipv4Net};
use crate::rows::net_of;
use crate::sort::lemma_stable_sorted;
use crate::state::{
    canonical, law_canonical_addresses, law_canonical_routes, PeerView, RuleView, StateView,
};
use crate::text::texts;

verus! {

proof fn lemma_ids_of(values: Seq<Seq<char>>, field: Seq<char>, id: Uuid)
    requires
        ids_fault(values, field) is None,
    ensures
        ids_of(values).contains(id) <==> exists|a: int|
            0 <= a < values.len() && uuid_parsed(#[trigger] values[a]) == Ok::<Uuid, Seq<char>>(id),
    decreases values.len(),
{
    if values.len() > 0 {
        let less = values.drop_last();
        lemma_ids_of(less, field, id);
        assert(forall|a: int| 0 <= a < less.len() ==> less[a] == values[a]);
        assert(values[values.len() - 1] == values.last());
        if ids_of(less).contains(id) {
            let a = choose|a: int|
                0 <= a < less.len() && uuid_parsed(#[trigger] less[a]) == Ok::<Uuid, Seq<char>>(id);
            assert(values[a] == less[a]);
        }
        if exists|a: int|
            0 <= a < values.len() && uuid_parsed(#[trigger] values[a]) == Ok::<Uuid, Seq<char>>(
                id,
            ) {
            let a = choose|a: int|
                0 <= a < values.len() && uuid_parsed(#[trigger] values[a]) == Ok::<Uuid, Seq<char>>(
                    id,
                );
            if a < less.len() {
                assert(less[a] == values[a]);
            }
        }
    }
}

proof fn lemma_device_is_read(devices: Seq<DeviceRow>, grants: Seq<Seq<char>>, i: int)
    requires
        devices_fault(devices, grants) is None,
        0 <= i < devices.len(),
        devices[i].let_in(grants),
    ensures
        devices[i].fault() is None,
    decreases devices.len(),
{
    if i < devices.len() - 1 {
        assert(devices.drop_last()[i] == devices[i]);
        lemma_device_is_read(devices.drop_last(), grants, i);
    }
}

/// Whoever is a peer of a gateway has an active device and is neither disabled by hand nor by a
/// directory nor deleted, and one of their groups is one that the site is granted to. The peer has
/// the device's key and address, and the user's groups.
pub proof fn law_peers_are_devices_of_enabled_users(
    gateway_id: Uuid,
    s: GatewaySources,
    terminate: Seq<Ipv4Addr>,
    state: StateView,
    k: int,
)
    requires
        sources_fault(s) is None,
        state == canonical(drafted(gateway_id, s, terminate)),
        0 <= k < state.peers.len(),
    ensures
        exists|i: int|
            {
                let peer = state.peers[k];
                &&& 0 <= i < s.devices@.len()
                &&& (#[trigger] s.devices@[i]).status@ == "active"@
                &&& s.devices@[i].manual_disabled == false
                &&& s.devices@[i].ldap_disabled == false
                &&& s.devices@[i].soft_deleted_at is None
                &&& exists|a: int, b: int|
                    0 <= a < s.devices@[i].group_ids@.len() && 0 <= b < s.grants@.len() && (
                    #[trigger] s.devices@[i].group_ids@[a])@ == (#[trigger] s.grants@[b])@
                &&& uuid_parsed(s.devices@[i].id@) == Ok::<Uuid, Seq<char>>(peer.device_id)
                &&& uuid_parsed(s.devices@[i].user_id@) == Ok::<Uuid, Seq<char>>(peer.user_id)
                &&& peer.public_key == s.devices@[i].public_key@
                &&& address_parsed(s.devices@[i].vpn_address@) == Some(peer.allowed_address)
                &&& forall|g: Uuid| #[trigger]
                    peer.group_ids.contains(g) <==> exists|a: int|
                        0 <= a < s.devices@[i].group_ids@.len() && uuid_parsed(
                            (#[trigger] s.devices@[i].group_ids@[a])@,
                        ) == Ok::<Uuid, Seq<char>>(g)
            },
{
    let grants = texts(s.grants@);
    let peer = state.peers[k];
    assert(state.peers.contains(peer));
    crate::desired::law_only_granted_devices_are_let_in(gateway_id, s, terminate, peer);
    let i = choose|i: int|
        0 <= i < s.devices@.len() && (#[trigger] s.devices@[i]).let_in(grants)
            && s.devices@[i].peer() == peer;
    let row = s.devices@[i];
    lemma_device_is_read(s.devices@, grants, i);
    let groups = texts(row.group_ids@);
    let a = choose|a: int| 0 <= a < groups.len() && grants.contains(#[trigger] groups[a]);
    let b = choose|b: int| 0 <= b < grants.len() && grants[b] == groups[a];
    assert(row.group_ids@[a]@ == s.grants@[b]@);
    assert forall|g: Uuid| #[trigger]
        peer.group_ids.contains(g) <==> exists|a: int|
            0 <= a < row.group_ids@.len() && uuid_parsed((#[trigger] row.group_ids@[a])@) == Ok::<
                Uuid,
                Seq<char>,
            >(g) by {
        lemma_ids_of(groups, "group"@, g);
        if peer.group_ids.contains(g) {
            let c = choose|c: int|
                0 <= c < groups.len() && uuid_parsed(#[trigger] groups[c]) == Ok::<Uuid, Seq<char>>(
                    g,
                );
            assert(row.group_ids@[c]@ == groups[c]);
        }
        if exists|a: int|
            0 <= a < row.group_ids@.len() && uuid_parsed((#[trigger] row.group_ids@[a])@) == Ok::<
                Uuid,
                Seq<char>,
            >(g) {
            let c = choose|c: int|
                0 <= c < row.group_ids@.len() && uuid_parsed((#[trigger] row.group_ids@[c])@)
                    == Ok::<Uuid, Seq<char>>(g);
            assert(groups[c] == row.group_ids@[c]@);
        }
    }
}

/// Every active device of a user who is neither disabled by hand nor by a directory nor deleted is
/// a peer of every gateway whose site is granted to one of the user's groups.
pub proof fn law_enabled_users_reach_granted_sites(
    gateway_id: Uuid,
    s: GatewaySources,
    terminate: Seq<Ipv4Addr>,
    state: StateView,
    i: int,
    a: int,
    b: int,
)
    requires
        sources_fault(s) is None,
        state == canonical(drafted(gateway_id, s, terminate)),
        0 <= i < s.devices@.len(),
        s.devices@[i].status@ == "active"@,
        !s.devices@[i].manual_disabled,
        !s.devices@[i].ldap_disabled,
        s.devices@[i].soft_deleted_at is None,
        0 <= a < s.devices@[i].group_ids@.len(),
        0 <= b < s.grants@.len(),
        s.devices@[i].group_ids@[a]@ == s.grants@[b]@,
    ensures
        exists|k: int|
            {
                &&& 0 <= k < state.peers.len()
                &&& uuid_parsed(s.devices@[i].id@) == Ok::<Uuid, Seq<char>>(
                    (#[trigger] state.peers[k]).device_id,
                )
                &&& uuid_parsed(s.devices@[i].user_id@) == Ok::<Uuid, Seq<char>>(
                    state.peers[k].user_id,
                )
                &&& state.peers[k].public_key == s.devices@[i].public_key@
                &&& address_parsed(s.devices@[i].vpn_address@) == Some(
                    state.peers[k].allowed_address,
                )
            },
{
    let grants = texts(s.grants@);
    let row = s.devices@[i];
    let groups = texts(row.group_ids@);
    assert(groups[a] == grants[b]);
    assert(grants.contains(groups[a]));
    assert(row.let_in(grants));
    crate::desired::law_granted_devices_are_let_in(gateway_id, s, terminate, i);
    lemma_device_is_read(s.devices@, grants, i);
    let k = choose|k: int| 0 <= k < state.peers.len() && state.peers[k] == row.peer();
    assert(state.peers[k].public_key == row.public_key@);
}

/// A state is one revision after the last one that the gateway was asked for, and it has the
/// interface, the port, the routes and the default of the gateway's site. The port is WireGuard's
/// own where none is known. The interface has an address only on a router that is to have one: the
/// first of the clients' pool. The flows that end are those that were named.
pub proof fn law_states_have_the_settings_of_their_site(
    gateway_id: Uuid,
    s: GatewaySources,
    terminate: Seq<Ipv4Addr>,
    state: StateView,
)
    requires
        sources_fault(s) is None,
        state == canonical(drafted(gateway_id, s, terminate)),
    ensures
        s.gateway is Some,
        ({
            let g = s.gateway->0;
            &&& state.gateway_id == gateway_id
            &&& 0 <= g.desired_revision ==> state.revision == g.desired_revision + 1
            &&& state.interface_name == g.interface_name@
            &&& g.listen_port is None ==> state.listen_port == 51820
            &&& g.listen_port is Some && 0 <= g.listen_port->0 <= 65535 ==> state.listen_port
                == g.listen_port->0
            &&& state.mtu == s.mtu
            &&& g.acl_default@ == "allow"@ && state.acl_default == AclAction::Allow
                || g.acl_default@ == "deny"@ && state.acl_default == AclAction::Deny
            &&& forall|n: Ipv4Net| #[trigger]
                state.routes.contains(n) <==> exists|i: int|
                    0 <= i < s.routes@.len() && network_parsed((#[trigger] s.routes@[i])@) == Some(
                        (n.base(), n.bits()),
                    )
            &&& forall|x: Ipv4Addr| #[trigger]
                state.terminate_sources.contains(x) <==> terminate.contains(x)
            &&& !(g.compatibility_address && g.kind@ == "mikrotik"@)
                ==> state.compatibility_address is None
            &&& g.compatibility_address && g.kind@ == "mikrotik"@ ==> {
                &&& network_parsed(s.client_pool@) is Some
                &&& state.compatibility_address is Some
                &&& forall|base: u32, bits: u8|
                    network_parsed(s.client_pool@) == Some((base, bits)) && bits < 31
                        ==> state.compatibility_address->0 == #[trigger] crate::ipv4::block_first(
                        base,
                        bits,
                    ) + 1
            }
        }),
{
    broadcast use Ipv4Net::lemma_of;

    let g = s.gateway->0;
    let draft = drafted(gateway_id, s, terminate);
    reveal_strlit("allow");
    reveal_strlit("deny");
    law_canonical_routes(draft.routes);
    law_canonical_addresses(draft.terminate_sources);
    assert forall|x: Ipv4Addr| #[trigger]
        state.terminate_sources.contains(x) <==> terminate.contains(x) by {
        assert(state.terminate_sources.to_set().contains(x) == terminate.to_set().contains(x));
    }
    let values = texts(s.routes@);
    assert forall|n: Ipv4Net| #[trigger]
        state.routes.contains(n) <==> exists|i: int|
            0 <= i < s.routes@.len() && network_parsed((#[trigger] s.routes@[i])@) == Some(
                (n.base(), n.bits()),
            ) by {
        assert(state.routes.to_set().contains(n) == draft.routes.to_set().contains(n));
        if draft.routes.contains(n) {
            let i = choose|i: int| 0 <= i < draft.routes.len() && draft.routes[i] == n;
            lemma_nets_are_read(values, "site route"@, i);
            assert(values[i] == s.routes@[i]@);
        }
        if exists|i: int|
            0 <= i < s.routes@.len() && network_parsed((#[trigger] s.routes@[i])@) == Some(
                (n.base(), n.bits()),
            ) {
            let i = choose|i: int|
                0 <= i < s.routes@.len() && network_parsed((#[trigger] s.routes@[i])@) == Some(
                    (n.base(), n.bits()),
                );
            assert(values[i] == s.routes@[i]@);
            net_of(values[i]).lemma_equal(n);
            assert(draft.routes[i] == n);
        }
    }
    if g.compatibility_address && g.kind@ == "mikrotik"@ {
        let net = net_of(s.client_pool@);
        if net.bits() < 31 {
            crate::ipv4::lemma_block(net.base(), net.bits());
            let shift = (32 - net.bits()) as nat;
            vstd::arithmetic::power2::lemma2_to64();
            if shift > 1 {
                vstd::arithmetic::power2::lemma_pow2_strictly_increases(1, shift);
            }
        }
    }
}

proof fn lemma_nets_are_read(values: Seq<Seq<char>>, field: Seq<char>, i: int)
    requires
        nets_fault(values, field) is None,
        0 <= i < values.len(),
    ensures
        network_parsed(values[i]) is Some,
    decreases values.len(),
{
    if i < values.len() - 1 {
        assert(values.drop_last()[i] == values[i]);
        lemma_nets_are_read(values.drop_last(), field, i);
    }
}

proof fn lemma_rule_is_read(rules: Seq<RuleRow>, i: int)
    requires
        rules_fault(rules) is None,
        0 <= i < rules.len(),
    ensures
        rules[i].fault() is None,
    decreases rules.len(),
{
    if i < rules.len() - 1 {
        assert(rules.drop_last()[i] == rules[i]);
        lemma_rule_is_read(rules.drop_last(), i);
    }
}

/// Whether a rule of a state says what a row of the database says.
pub open spec fn says_the_same(rule: RuleView, row: RuleRow) -> bool {
    &&& uuid_parsed(row.id@) == Ok::<Uuid, Seq<char>>(rule.id)
    &&& 0 <= row.position <= u32::MAX ==> rule.position == row.position
    &&& rule.action == AclAction::Allow <==> row.action@ == "allow"@
    &&& rule.action == AclAction::Deny <==> row.action@ == "deny"@
    &&& network_parsed(row.destination@) == Some((rule.destination.base(), rule.destination.bits()))
    &&& rule.protocol == IpProtocol::Any <==> row.protocol@ == "any"@
    &&& rule.protocol == IpProtocol::Tcp <==> row.protocol@ == "tcp"@
    &&& rule.protocol == IpProtocol::Udp <==> row.protocol@ == "udp"@
    &&& rule.protocol == IpProtocol::Icmp <==> row.protocol@ == "icmp"@
    &&& rule.destination_ports is None <==> row.port_start is None && row.port_end is None
    &&& rule.destination_ports matches Some(ports) ==> {
        &&& row.port_start is Some && row.port_start->0 == ports.start
        &&& row.port_end is Some
        &&& row.port_end->0 <= 65535 ==> row.port_end->0 == ports.end
    }
    &&& rule.enabled == row.enabled
    &&& forall|u: Uuid| #[trigger]
        rule.users.contains(u) <==> exists|a: int|
            0 <= a < row.users@.len() && uuid_parsed((#[trigger] row.users@[a])@) == Ok::<
                Uuid,
                Seq<char>,
            >(u)
    &&& forall|g: Uuid| #[trigger]
        rule.groups.contains(g) <==> exists|a: int|
            0 <= a < row.groups@.len() && uuid_parsed((#[trigger] row.groups@[a])@) == Ok::<
                Uuid,
                Seq<char>,
            >(g)
}

proof fn lemma_says_the_same(row: RuleRow)
    requires
        row.fault() is None,
    ensures
        says_the_same(row.rule(), row),
{
    broadcast use Ipv4Net::lemma_of;

    let rule = row.rule();
    reveal_strlit("allow");
    reveal_strlit("deny");
    reveal_strlit("any");
    reveal_strlit("tcp");
    reveal_strlit("udp");
    reveal_strlit("icmp");
    assert("allow"@[0] == 'a' && "deny"@[0] == 'd' && "any"@[0] == 'a' && "tcp"@[0] == 't'
        && "udp"@[0] == 'u' && "icmp"@[0] == 'i');
    let users = texts(row.users@);
    let groups = texts(row.groups@);
    assert forall|u: Uuid| #[trigger]
        rule.users.contains(u) <==> exists|a: int|
            0 <= a < row.users@.len() && uuid_parsed((#[trigger] row.users@[a])@) == Ok::<
                Uuid,
                Seq<char>,
            >(u) by {
        lemma_ids_of(users, "ACL user"@, u);
        lemma_texts_have(row.users@, u);
    }
    assert forall|g: Uuid| #[trigger]
        rule.groups.contains(g) <==> exists|a: int|
            0 <= a < row.groups@.len() && uuid_parsed((#[trigger] row.groups@[a])@) == Ok::<
                Uuid,
                Seq<char>,
            >(g) by {
        lemma_ids_of(groups, "ACL group"@, g);
        lemma_texts_have(row.groups@, g);
    }
}

proof fn lemma_texts_have(values: Seq<String>, id: Uuid)
    ensures
        (exists|a: int|
            0 <= a < values.len() && uuid_parsed((#[trigger] values[a])@) == Ok::<Uuid, Seq<char>>(
                id,
            )) <==> exists|a: int|
            0 <= a < texts(values).len() && uuid_parsed(#[trigger] texts(values)[a]) == Ok::<
                Uuid,
                Seq<char>,
            >(id),
{
    if exists|a: int|
        0 <= a < values.len() && uuid_parsed((#[trigger] values[a])@) == Ok::<Uuid, Seq<char>>(id) {
        let a = choose|a: int|
            0 <= a < values.len() && uuid_parsed((#[trigger] values[a])@) == Ok::<Uuid, Seq<char>>(
                id,
            );
        assert(texts(values)[a] == values[a]@);
    }
    if exists|a: int|
        0 <= a < texts(values).len() && uuid_parsed(#[trigger] texts(values)[a]) == Ok::<
            Uuid,
            Seq<char>,
        >(id) {
        let a = choose|a: int|
            0 <= a < texts(values).len() && uuid_parsed(#[trigger] texts(values)[a]) == Ok::<
                Uuid,
                Seq<char>,
            >(id);
        assert(values[a]@ == texts(values)[a]);
    }
}

/// A state has a rule for every rule of its site, enabled or not, and no other.
pub proof fn law_states_have_the_rules_of_their_site(
    gateway_id: Uuid,
    s: GatewaySources,
    terminate: Seq<Ipv4Addr>,
    state: StateView,
)
    requires
        sources_fault(s) is None,
        state == canonical(drafted(gateway_id, s, terminate)),
    ensures
        state.acl_rules.len() == s.rules@.len(),
        forall|k: int|
            0 <= k < state.acl_rules.len() ==> exists|i: int|
                0 <= i < s.rules@.len() && says_the_same(
                    #[trigger] state.acl_rules[k],
                    #[trigger] s.rules@[i],
                ),
        forall|i: int|
            0 <= i < s.rules@.len() ==> exists|k: int|
                0 <= k < state.acl_rules.len() && says_the_same(
                    #[trigger] state.acl_rules[k],
                    #[trigger] s.rules@[i],
                ),
{
    broadcast use vstd::seq_lib::group_to_multiset_ensures;

    let rules = s.rules@.map_values(|a: RuleRow| a.rule());
    lemma_stable_sorted(rules);
    assert forall|k: int| 0 <= k < state.acl_rules.len() implies exists|i: int|
        0 <= i < s.rules@.len() && says_the_same(
            #[trigger] state.acl_rules[k],
            #[trigger] s.rules@[i],
        ) by {
        let rule = state.acl_rules[k];
        assert(state.acl_rules.to_multiset().count(rule) == rules.to_multiset().count(rule));
        assert(state.acl_rules.contains(rule));
        let i = choose|i: int| 0 <= i < rules.len() && rules[i] == rule;
        lemma_rule_is_read(s.rules@, i);
        lemma_says_the_same(s.rules@[i]);
    }
    assert forall|i: int| 0 <= i < s.rules@.len() implies exists|k: int|
        0 <= k < state.acl_rules.len() && says_the_same(
            #[trigger] state.acl_rules[k],
            #[trigger] s.rules@[i],
        ) by {
        let rule = rules[i];
        assert(state.acl_rules.to_multiset().count(rule) == rules.to_multiset().count(rule));
        assert(rules.contains(rule));
        let k = choose|k: int| 0 <= k < state.acl_rules.len() && state.acl_rules[k] == rule;
        lemma_rule_is_read(s.rules@, i);
        lemma_says_the_same(s.rules@[i]);
    }
}

/// The canonical form of a state lists devices by their addresses, rules by their positions and
/// sources by their numbers, and neither adds nor loses any.
pub proof fn law_canonical_states_are_listed_in_order(
    state: StateView,
    i: int,
    j: int,
    peer: PeerView,
    rule: RuleView,
    source: Ipv4Addr,
)
    ensures
        ({
            let c = canonical(state);
            &&& 0 <= i < j < c.peers.len() ==> c.peers[i].allowed_address
                <= c.peers[j].allowed_address
            &&& 0 <= i < j < c.acl_rules.len() ==> c.acl_rules[i].position
                <= c.acl_rules[j].position
            &&& 0 <= i < j < c.terminate_sources.len() ==> c.terminate_sources[i]
                < c.terminate_sources[j]
            &&& c.peers.len() == state.peers.len()
            &&& c.acl_rules.len() == state.acl_rules.len()
            &&& c.peers.contains(peer) <==> state.peers.contains(peer)
            &&& c.acl_rules.contains(rule) <==> state.acl_rules.contains(rule)
            &&& c.terminate_sources.contains(source) <==> state.terminate_sources.contains(source)
            &&& c.gateway_id == state.gateway_id
            &&& c.revision == state.revision
            &&& c.interface_name == state.interface_name
            &&& c.listen_port == state.listen_port
            &&& c.mtu == state.mtu
            &&& c.compatibility_address == state.compatibility_address
            &&& c.acl_default == state.acl_default
        }),
{
    broadcast use vstd::seq_lib::group_to_multiset_ensures;

    let c = canonical(state);
    lemma_stable_sorted(state.peers);
    lemma_stable_sorted(state.acl_rules);
    crate::state::law_canonical_addresses(state.terminate_sources);
    assert(c.peers.to_multiset().count(peer) == state.peers.to_multiset().count(peer));
    assert(c.acl_rules.to_multiset().count(rule) == state.acl_rules.to_multiset().count(rule));
    assert(c.terminate_sources.to_set().contains(source) == state.terminate_sources.to_set().contains(
        source,
    ));
    if 0 <= i < j < c.peers.len() {
        assert(crate::sort::Ranked::no_later(c.peers[i], c.peers[j]));
    }
    if 0 <= i < j < c.acl_rules.len() {
        assert(crate::sort::Ranked::no_later(c.acl_rules[i], c.acl_rules[j]));
    }
    if 0 <= i < j < c.terminate_sources.len() {
        assert(crate::sort::Ranked::no_later(c.terminate_sources[i], c.terminate_sources[j]));
        assert(c.terminate_sources[i] != c.terminate_sources[j]);
    }
}
} // verus!
