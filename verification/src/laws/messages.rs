//! What the messages between the controller and its agents hold, and which of them are read.

use vstd::prelude::*;

use crate::acl::{AclAction, IpProtocol};
use crate::ids::{uuid_parsed, uuid_text};
use crate::ipv4::{address_parsed, address_text, network_parsed};
use crate::protocol::{
    action_named, all_or_first_error, protocol_named, read_id, read_peer, read_ports, read_rule,
    read_snapshot, snapshot_message, FieldError,
};
use crate::sets::ascending;
use crate::state::StateView;
use crate::wire::{SnapshotView, WirePeerView, WireRuleView};

verus! {

/// The message about a state holds all that the state does: of the gateway, of every route, device
/// and rule in their order, and of every source to cut off.
pub proof fn law_messages_hold_the_state(state: StateView)
    ensures
        ({
            let m = snapshot_message(state);
            &&& m.gateway_id == uuid_text(state.gateway_id)
            &&& m.revision == state.revision
            &&& m.interface_name == state.interface_name
            &&& m.listen_port == state.listen_port
            &&& m.mtu is Some <==> state.mtu is Some
            &&& state.mtu is Some ==> m.mtu->0 == state.mtu->0
            &&& m.compatibility_address is Some <==> state.compatibility_address is Some
            &&& state.compatibility_address is Some ==> m.compatibility_address->0 == address_text(
                state.compatibility_address->0,
            )
            &&& m.acl_default == (if state.acl_default == AclAction::Allow {
                "allow"@
            } else {
                "deny"@
            })
            &&& m.credential_envelope.len() == 0
            &&& m.routes.len() == state.routes.len()
            &&& m.peers.len() == state.peers.len()
            &&& m.acl_rules.len() == state.acl_rules.len()
            &&& m.terminate_sources.len() == state.terminate_sources.len()
            &&& forall|i: int|
                0 <= i < m.routes.len() ==> #[trigger] m.routes[i] == state.routes[i].text()
            &&& forall|i: int|
                0 <= i < m.terminate_sources.len() ==> #[trigger] m.terminate_sources[i]
                    == address_text(state.terminate_sources[i])
        }),
{
}

/// The message about a device holds all that is known of it.
pub proof fn law_messages_hold_every_device(state: StateView, i: int)
    requires
        0 <= i < state.peers.len(),
    ensures
        ({
            let m = snapshot_message(state).peers[i];
            let p = state.peers[i];
            &&& m.device_id == uuid_text(p.device_id)
            &&& m.user_id == uuid_text(p.user_id)
            &&& m.public_key == p.public_key
            &&& m.allowed_address == address_text(p.allowed_address)
            &&& m.group_ids.len() == ascending(p.group_ids).len()
            &&& forall|k: int|
                0 <= k < m.group_ids.len() ==> #[trigger] m.group_ids[k] == uuid_text(
                    ascending(p.group_ids)[k],
                )
        }),
{
}

/// The message about a rule holds all that the rule says.
pub proof fn law_messages_hold_every_rule(state: StateView, i: int)
    requires
        0 <= i < state.acl_rules.len(),
    ensures
        ({
            let m = snapshot_message(state).acl_rules[i];
            let r = state.acl_rules[i];
            &&& m.id == uuid_text(r.id)
            &&& m.position == r.position
            &&& m.action == (if r.action == AclAction::Allow {
                "allow"@
            } else {
                "deny"@
            })
            &&& m.destination == r.destination.text()
            &&& m.protocol == (match r.protocol {
                IpProtocol::Any => "any"@,
                IpProtocol::Tcp => "tcp"@,
                IpProtocol::Udp => "udp"@,
                IpProtocol::Icmp => "icmp"@,
            })
            &&& m.port_start is Some <==> r.destination_ports is Some
            &&& m.port_end is Some <==> r.destination_ports is Some
            &&& r.destination_ports is Some ==> m.port_start->0 == r.destination_ports->0.start
                && m.port_end->0 == r.destination_ports->0.end
            &&& m.enabled == r.enabled
            &&& m.user_ids.len() == ascending(r.users).len()
            &&& m.group_ids.len() == ascending(r.groups).len()
            &&& forall|k: int|
                0 <= k < m.user_ids.len() ==> #[trigger] m.user_ids[k] == uuid_text(
                    ascending(r.users)[k],
                )
            &&& forall|k: int|
                0 <= k < m.group_ids.len() ==> #[trigger] m.group_ids[k] == uuid_text(
                    ascending(r.groups)[k],
                )
        }),
{
}

/// What is read item by item is read where every item is, and then holds each in its place.
pub proof fn law_lists_are_read_whole<T>(items: Seq<Result<T, FieldError>>)
    ensures
        all_or_first_error(items) is Ok <==> forall|i: int|
            0 <= i < items.len() ==> (#[trigger] items[i]) is Ok,
        all_or_first_error(items) is Ok ==> {
            &&& all_or_first_error(items)->Ok_0.len() == items.len()
            &&& forall|i: int|
                0 <= i < items.len() ==> (#[trigger] items[i])->Ok_0 == all_or_first_error(
                    items,
                )->Ok_0[i]
        },
        all_or_first_error(items) is Err ==> exists|i: int|
            0 <= i < items.len() && (#[trigger] items[i]) is Err && items[i]->Err_0
                == all_or_first_error(items)->Err_0,
    decreases items.len(),
{
    if items.len() > 0 {
        let less = items.drop_last();
        law_lists_are_read_whole(less);
        assert forall|i: int| 0 <= i < less.len() implies #[trigger] less[i] == items[i] by {}
        assert(items[items.len() - 1] == items.last());
        if all_or_first_error(less) is Err {
            let i = choose|i: int|
                0 <= i < less.len() && (#[trigger] less[i]) is Err && less[i]->Err_0
                    == all_or_first_error(less)->Err_0;
            assert(items[i] is Err);
        } else {
            assert forall|i: int| 0 <= i < less.len() implies (#[trigger] items[i]) is Ok by {
                assert(less[i] is Ok);
            }
            if items.last() is Ok {
                assert forall|i: int| 0 <= i < items.len() implies (#[trigger] items[i])->Ok_0
                    == all_or_first_error(items)->Ok_0[i] by {
                    if i < less.len() {
                        assert(less[i]->Ok_0 == all_or_first_error(less)->Ok_0[i]);
                    }
                }
            }
        }
    }
}

/// Ports are read where neither end is given, or both are, neither is past the last port, and
/// they are in order.
pub proof fn law_ports_are_read_in_pairs(start: Option<u32>, end: Option<u32>)
    ensures
        read_ports(start, end) is Ok <==> {
            ||| start is None && end is None
            ||| start is Some && end is Some && start->0 <= end->0 && end->0 <= 65535
        },
        read_ports(start, end) is Ok ==> {
            &&& read_ports(start, end)->Ok_0 is Some <==> start is Some
            &&& start is Some ==> read_ports(start, end)->Ok_0->0.start == start->0 && read_ports(
                start,
                end,
            )->Ok_0->0.end == end->0
        },
{
}

proof fn lemma_names()
    ensures
        "allow"@ != "deny"@,
        "any"@ != "tcp"@,
        "any"@ != "udp"@,
        "any"@ != "icmp"@,
        "tcp"@ != "udp"@,
        "tcp"@ != "icmp"@,
        "udp"@ != "icmp"@,
{
    reveal_strlit("allow");
    reveal_strlit("deny");
    reveal_strlit("any");
    reveal_strlit("tcp");
    reveal_strlit("udp");
    reveal_strlit("icmp");
    assert("allow"@.len() == 5 && "deny"@.len() == 4);
    assert("any"@[0] == 'a' && "tcp"@[0] == 't' && "udp"@[0] == 'u' && "icmp"@[0] == 'i');
}

/// Actions and protocols are read by their names alone.
pub proof fn law_names_are_read_back(s: Seq<char>)
    ensures
        action_named(s) == Some(AclAction::Allow) <==> s == "allow"@,
        action_named(s) == Some(AclAction::Deny) <==> s == "deny"@,
        protocol_named(s) == Some(IpProtocol::Any) <==> s == "any"@,
        protocol_named(s) == Some(IpProtocol::Tcp) <==> s == "tcp"@,
        protocol_named(s) == Some(IpProtocol::Udp) <==> s == "udp"@,
        protocol_named(s) == Some(IpProtocol::Icmp) <==> s == "icmp"@,
{
    broadcast use crate::ipv4::Ipv4Net::lemma_of;

    lemma_names();
}

proof fn lemma_ids(items: Seq<Seq<char>>, field: Seq<char>)
    ensures
        crate::protocol::read_ids(items, field) is Ok <==> forall|k: int|
            0 <= k < items.len() ==> uuid_parsed(#[trigger] items[k]) is Ok,
        crate::protocol::read_ids(items, field) is Ok ==> {
            let ids = crate::protocol::read_ids(items, field)->Ok_0;
            &&& ids.len() == items.len()
            &&& forall|k: int|
                0 <= k < items.len() ==> uuid_parsed(#[trigger] items[k])->Ok_0 == ids[k]
        },
{
    let read = items.map_values(|s: Seq<char>| read_id(s, field));
    law_lists_are_read_whole(read);
    assert forall|k: int| 0 <= k < items.len() implies (uuid_parsed(#[trigger] items[k]) is Ok
        <==> read[k] is Ok) by {}
    if read.len() > 0 && (forall|k: int|
        0 <= k < items.len() ==> uuid_parsed(#[trigger] items[k]) is Ok) {
        assert forall|k: int| 0 <= k < read.len() implies (#[trigger] read[k]) is Ok by {
            assert(uuid_parsed(items[k]) is Ok);
        }
    }
    if all_or_first_error(read) is Ok {
        assert forall|k: int| 0 <= k < items.len() implies uuid_parsed(#[trigger] items[k]) is Ok
            && uuid_parsed(items[k])->Ok_0 == all_or_first_error(read)->Ok_0[k] by {
            assert(read[k] is Ok);
            assert(read[k]->Ok_0 == all_or_first_error(read)->Ok_0[k]);
        }
    }
}

/// A device is read where its identifiers and its address are, and is then what the message says.
pub proof fn law_devices_are_read_as_sent(m: WirePeerView)
    ensures
        read_peer(m) is Ok <==> {
            &&& uuid_parsed(m.device_id) is Ok
            &&& uuid_parsed(m.user_id) is Ok
            &&& address_parsed(m.allowed_address) is Some
            &&& forall|k: int|
                0 <= k < m.group_ids.len() ==> uuid_parsed(#[trigger] m.group_ids[k]) is Ok
        },
        read_peer(m) is Ok ==> {
            let p = read_peer(m)->Ok_0;
            &&& p.device_id == uuid_parsed(m.device_id)->Ok_0
            &&& p.user_id == uuid_parsed(m.user_id)->Ok_0
            &&& p.public_key == m.public_key
            &&& p.allowed_address == address_parsed(m.allowed_address)->0
            &&& forall|k: int|
                0 <= k < m.group_ids.len() ==> p.group_ids.contains(
                    uuid_parsed(#[trigger] m.group_ids[k])->Ok_0,
                )
            &&& forall|id: crate::ids::Uuid| #[trigger]
                p.group_ids.contains(id) ==> exists|k: int|
                    0 <= k < m.group_ids.len() && uuid_parsed(#[trigger] m.group_ids[k])->Ok_0
                        == id
        },
{
    lemma_ids(m.group_ids, "peer.group_ids"@);
    if read_peer(m) is Ok {
        lemma_members(m.group_ids, "peer.group_ids"@);
    }
}

proof fn lemma_members(items: Seq<Seq<char>>, field: Seq<char>)
    requires
        crate::protocol::read_ids(items, field) is Ok,
    ensures
        ({
            let ids = crate::protocol::read_ids(items, field)->Ok_0.to_set();
            &&& forall|k: int|
                0 <= k < items.len() ==> ids.contains(uuid_parsed(#[trigger] items[k])->Ok_0)
            &&& forall|id: crate::ids::Uuid| #[trigger]
                ids.contains(id) ==> exists|k: int|
                    0 <= k < items.len() && uuid_parsed(#[trigger] items[k])->Ok_0 == id
        }),
{
    lemma_ids(items, field);
    let list = crate::protocol::read_ids(items, field)->Ok_0;
    let ids = list.to_set();
    assert forall|k: int| 0 <= k < items.len() implies ids.contains(
        uuid_parsed(#[trigger] items[k])->Ok_0,
    ) by {
        assert(list[k] == uuid_parsed(items[k])->Ok_0);
        assert(list.contains(list[k]));
    }
    assert forall|id: crate::ids::Uuid| #[trigger] ids.contains(id) implies exists|k: int|
        0 <= k < items.len() && uuid_parsed(#[trigger] items[k])->Ok_0 == id by {
        let k = choose|k: int| 0 <= k < list.len() && list[k] == id;
        assert(uuid_parsed(items[k])->Ok_0 == list[k]);
    }
}

/// A rule is read where all that it says is, and then says what the message does.
pub proof fn law_rules_are_read_as_sent(m: WireRuleView)
    ensures
        read_rule(m) is Ok <==> {
            &&& read_ports(m.port_start, m.port_end) is Ok
            &&& uuid_parsed(m.id) is Ok
            &&& m.action == "allow"@ || m.action == "deny"@
            &&& network_parsed(m.destination) is Some
            &&& m.protocol == "any"@ || m.protocol == "tcp"@ || m.protocol == "udp"@ || m.protocol
                == "icmp"@
            &&& forall|k: int|
                0 <= k < m.user_ids.len() ==> uuid_parsed(#[trigger] m.user_ids[k]) is Ok
            &&& forall|k: int|
                0 <= k < m.group_ids.len() ==> uuid_parsed(#[trigger] m.group_ids[k]) is Ok
        },
        read_rule(m) is Ok ==> {
            let r = read_rule(m)->Ok_0;
            &&& r.id == uuid_parsed(m.id)->Ok_0
            &&& r.position == m.position
            &&& r.action == AclAction::Allow <==> m.action == "allow"@
            &&& r.destination.base() == network_parsed(m.destination)->Some_0.0
            &&& r.destination.bits() == network_parsed(m.destination)->Some_0.1
            &&& r.protocol == IpProtocol::Any <==> m.protocol == "any"@
            &&& r.protocol == IpProtocol::Tcp <==> m.protocol == "tcp"@
            &&& r.protocol == IpProtocol::Udp <==> m.protocol == "udp"@
            &&& r.protocol == IpProtocol::Icmp <==> m.protocol == "icmp"@
            &&& r.destination_ports == read_ports(m.port_start, m.port_end)->Ok_0
            &&& r.enabled == m.enabled
            &&& forall|k: int|
                0 <= k < m.user_ids.len() ==> r.users.contains(
                    uuid_parsed(#[trigger] m.user_ids[k])->Ok_0,
                )
            &&& forall|id: crate::ids::Uuid| #[trigger]
                r.users.contains(id) ==> exists|k: int|
                    0 <= k < m.user_ids.len() && uuid_parsed(#[trigger] m.user_ids[k])->Ok_0 == id
            &&& forall|k: int|
                0 <= k < m.group_ids.len() ==> r.groups.contains(
                    uuid_parsed(#[trigger] m.group_ids[k])->Ok_0,
                )
            &&& forall|id: crate::ids::Uuid| #[trigger]
                r.groups.contains(id) ==> exists|k: int|
                    0 <= k < m.group_ids.len() && uuid_parsed(#[trigger] m.group_ids[k])->Ok_0
                        == id
        },
{
    broadcast use crate::ipv4::Ipv4Net::lemma_of;

    lemma_names();
    lemma_ids(m.user_ids, "acl.user_ids"@);
    lemma_ids(m.group_ids, "acl.group_ids"@);
    if read_rule(m) is Ok {
        lemma_members(m.user_ids, "acl.user_ids"@);
        lemma_members(m.group_ids, "acl.group_ids"@);
    }
}

/// A state that is read has the gateway, the revision, the interface and the default that the
/// message says, and every route, device, rule and source of it, in order.
pub proof fn law_states_are_read_as_sent(m: SnapshotView)
    requires
        read_snapshot(m) is Ok,
    ensures
        ({
            let s = read_snapshot(m)->Ok_0;
            &&& uuid_parsed(m.gateway_id) is Ok && s.gateway_id == uuid_parsed(m.gateway_id)->Ok_0
            &&& s.revision == m.revision
            &&& s.interface_name == m.interface_name
            &&& s.listen_port == m.listen_port
            &&& s.mtu is Some <==> m.mtu is Some
            &&& m.mtu is Some ==> s.mtu->0 == m.mtu->0
            &&& s.compatibility_address is Some <==> m.compatibility_address is Some
            &&& m.compatibility_address is Some ==> address_parsed(m.compatibility_address->0)
                == Some(s.compatibility_address->0)
            &&& s.acl_default == AclAction::Allow <==> m.acl_default == "allow"@
            &&& s.acl_default == AclAction::Deny <==> m.acl_default == "deny"@
            &&& s.routes.len() == m.routes.len()
            &&& s.peers.len() == m.peers.len()
            &&& s.acl_rules.len() == m.acl_rules.len()
            &&& s.terminate_sources.len() == m.terminate_sources.len()
            &&& forall|i: int|
                0 <= i < m.routes.len() ==> network_parsed(#[trigger] m.routes[i]) == Some(
                    (s.routes[i].base(), s.routes[i].bits()),
                )
            &&& forall|i: int|
                0 <= i < m.peers.len() ==> read_peer(#[trigger] m.peers[i]) is Ok && read_peer(
                    m.peers[i],
                )->Ok_0 == s.peers[i]
            &&& forall|i: int|
                0 <= i < m.acl_rules.len() ==> read_rule(#[trigger] m.acl_rules[i]) is Ok
                    && read_rule(m.acl_rules[i])->Ok_0 == s.acl_rules[i]
            &&& forall|i: int|
                0 <= i < m.terminate_sources.len() ==> address_parsed(
                    #[trigger] m.terminate_sources[i],
                ) == Some(s.terminate_sources[i])
        }),
{
    let s = read_snapshot(m)->Ok_0;
    broadcast use crate::ipv4::Ipv4Net::lemma_of;

    lemma_names();
    let routes = m.routes.map_values(
        |t: Seq<char>| crate::protocol::read_network(t, "routes"@),
    );
    let peers = m.peers.map_values(|p: WirePeerView| read_peer(p));
    let rules = m.acl_rules.map_values(|r: WireRuleView| read_rule(r));
    let sources = m.terminate_sources.map_values(
        |t: Seq<char>| crate::protocol::read_address(t, "terminate_sources"@),
    );
    law_lists_are_read_whole(routes);
    law_lists_are_read_whole(peers);
    law_lists_are_read_whole(rules);
    law_lists_are_read_whole(sources);
    assert forall|i: int| 0 <= i < m.routes.len() implies network_parsed(#[trigger] m.routes[i])
        == Some((s.routes[i].base(), s.routes[i].bits())) by {
        assert(routes[i] is Ok && routes[i]->Ok_0 == s.routes[i]);
    }
    assert forall|i: int| 0 <= i < m.peers.len() implies read_peer(#[trigger] m.peers[i]) is Ok
        && read_peer(m.peers[i])->Ok_0 == s.peers[i] by {
        assert(peers[i] is Ok && peers[i]->Ok_0 == s.peers[i]);
    }
    assert forall|i: int| 0 <= i < m.acl_rules.len() implies read_rule(#[trigger] m.acl_rules[i]) is Ok
        && read_rule(m.acl_rules[i])->Ok_0 == s.acl_rules[i] by {
        assert(rules[i] is Ok && rules[i]->Ok_0 == s.acl_rules[i]);
    }
    assert forall|i: int| 0 <= i < m.terminate_sources.len() implies address_parsed(
        #[trigger] m.terminate_sources[i],
    ) == Some(s.terminate_sources[i]) by {
        assert(sources[i] is Ok && sources[i]->Ok_0 == s.terminate_sources[i]);
    }
}

/// A message is read where its port and size fit, and each of its parts is read.
pub proof fn law_whole_messages_are_read(m: SnapshotView)
    requires
        uuid_parsed(m.gateway_id) is Ok,
        m.listen_port <= 65535,
        m.mtu is Some ==> m.mtu->0 <= 65535,
        m.compatibility_address is Some ==> address_parsed(m.compatibility_address->0) is Some,
        m.acl_default == "allow"@ || m.acl_default == "deny"@,
        forall|i: int| 0 <= i < m.routes.len() ==> network_parsed(#[trigger] m.routes[i]) is Some,
        forall|i: int| 0 <= i < m.peers.len() ==> read_peer(#[trigger] m.peers[i]) is Ok,
        forall|i: int| 0 <= i < m.acl_rules.len() ==> read_rule(#[trigger] m.acl_rules[i]) is Ok,
        forall|i: int|
            0 <= i < m.terminate_sources.len() ==> address_parsed(
                #[trigger] m.terminate_sources[i],
            ) is Some,
    ensures
        read_snapshot(m) is Ok,
{
    broadcast use crate::ipv4::Ipv4Net::lemma_of;

    lemma_names();
    let routes = m.routes.map_values(
        |t: Seq<char>| crate::protocol::read_network(t, "routes"@),
    );
    let peers = m.peers.map_values(|p: WirePeerView| read_peer(p));
    let rules = m.acl_rules.map_values(|r: WireRuleView| read_rule(r));
    let sources = m.terminate_sources.map_values(
        |t: Seq<char>| crate::protocol::read_address(t, "terminate_sources"@),
    );
    law_lists_are_read_whole(routes);
    law_lists_are_read_whole(peers);
    law_lists_are_read_whole(rules);
    law_lists_are_read_whole(sources);
    assert forall|i: int| 0 <= i < routes.len() implies (#[trigger] routes[i]) is Ok by {
        assert(network_parsed(m.routes[i]) is Some);
    }
    assert forall|i: int| 0 <= i < peers.len() implies (#[trigger] peers[i]) is Ok by {
        assert(read_peer(m.peers[i]) is Ok);
    }
    assert forall|i: int| 0 <= i < rules.len() implies (#[trigger] rules[i]) is Ok by {
        assert(read_rule(m.acl_rules[i]) is Ok);
    }
    assert forall|i: int| 0 <= i < sources.len() implies (#[trigger] sources[i]) is Ok by {
        assert(address_parsed(m.terminate_sources[i]) is Some);
    }
}

} // verus!
