//! The digest of a gateway's desired state.

use vstd::prelude::*;
use vstd::string::*;

use crate::acl::{AclRule, PortRange};
use crate::config::{address_texts, addresses_to_texts, network_texts, networks_to_texts};
use crate::crypto::{fingerprint_text, text_fingerprint};
use crate::ids::{uuid_text, uuid_to_text, Uuid};
use crate::ipv4::{address_text, address_to_text, Ipv4Addr, Ipv4Net};
use crate::json::{
    all_quoted, append_array, json_array, json_opt_number, json_optional, json_quoted, json_string,
    quote_all,
};
use crate::protocol::{action_name, action_text, id_texts, ids_to_texts, protocol_name, protocol_text};
use crate::sets::{ascending, sorted_ids};
use crate::sort::{lemma_sorted_map, stable_sort, stable_sorted, Ranked, Sortable};
use crate::state::{
    canonical, canonicalize_routes, law_canonicalize_is_idempotent, sort_addresses,
    DesiredGatewayState, DesiredPeer, PeerView, RuleView, StateView,
};
use crate::text::{decimal, decimal_text, push_text, texts};

verus! {

/// Identifiers as a JSON array.
pub open spec fn ids_json(ids: Set<Uuid>) -> Seq<char> {
    json_array(all_quoted(id_texts(ascending(ids))))
}

/// One device in JSON.
pub open spec fn device_json(peer: PeerView) -> Seq<char> {
    "{\"device_id\":"@ + json_quoted(uuid_text(peer.device_id)) + ",\"user_id\":"@ + json_quoted(
        uuid_text(peer.user_id),
    ) + ",\"public_key\":"@ + json_quoted(peer.public_key) + ",\"allowed_address\":"@ + json_quoted(
        address_text(peer.allowed_address),
    ) + ",\"group_ids\":"@ + ids_json(peer.group_ids) + "}"@
}

/// A port range in JSON.
pub open spec fn ports_json(ports: Option<PortRange>) -> Seq<char> {
    match ports {
        None => "null"@,
        Some(range) => "{\"start\":"@ + decimal(range.start as nat) + ",\"end\":"@ + decimal(
            range.end as nat,
        ) + "}"@,
    }
}

/// A truth value in JSON.
pub open spec fn bool_json(b: bool) -> Seq<char> {
    if b {
        "true"@
    } else {
        "false"@
    }
}

/// One access rule in JSON.
pub open spec fn rule_json(rule: RuleView) -> Seq<char> {
    "{\"id\":"@ + json_quoted(uuid_text(rule.id)) + ",\"position\":"@ + decimal(
        rule.position as nat,
    ) + ",\"action\":"@ + json_quoted(action_text(rule.action)) + ",\"destination\":"@ + json_quoted(
        rule.destination.text(),
    ) + ",\"protocol\":"@ + json_quoted(protocol_text(rule.protocol)) + ",\"destination_ports\":"@
        + ports_json(rule.destination_ports) + ",\"subjects\":{\"users\":"@ + ids_json(rule.users)
        + ",\"groups\":"@ + ids_json(rule.groups) + "},\"enabled\":"@ + bool_json(rule.enabled)
        + "}"@
}

/// An optional address in JSON.
pub open spec fn opt_address_json(address: Option<Ipv4Addr>) -> Seq<char> {
    match address {
        Some(a) => json_quoted(address_text(a)),
        None => "null"@,
    }
}

/// A gateway's desired state in JSON.
pub open spec fn state_json(state: StateView) -> Seq<char> {
    "{\"gateway_id\":"@ + json_quoted(uuid_text(state.gateway_id)) + ",\"revision\":"@ + decimal(
        state.revision as nat,
    ) + ",\"interface_name\":"@ + json_quoted(state.interface_name) + ",\"listen_port\":"@ + decimal(
        state.listen_port as nat,
    ) + ",\"mtu\":"@ + json_opt_number(state.mtu) + ",\"compatibility_address\":"@
        + opt_address_json(state.compatibility_address) + ",\"routes\":"@ + json_array(
        all_quoted(network_texts(state.routes)),
    ) + ",\"peers\":"@ + json_array(state.peers.map_values(|p: PeerView| device_json(p)))
        + ",\"acl_default\":"@ + json_quoted(action_text(state.acl_default)) + ",\"acl_rules\":"@
        + json_array(state.acl_rules.map_values(|r: RuleView| rule_json(r)))
        + ",\"terminate_sources\":"@ + json_array(all_quoted(address_texts(state.terminate_sources)))
        + "}"@
}

impl<'a> Ranked for &'a DesiredPeer {
    open spec fn no_later(self, other: Self) -> bool {
        (*self).no_later(*other)
    }

    proof fn lemma_total(a: Self, b: Self) {
    }

    proof fn lemma_transitive(a: Self, b: Self, c: Self) {
    }
}

impl<'a> Sortable for &'a DesiredPeer {
    fn is_no_later(&self, other: &Self) -> bool {
        (**self).is_no_later(*other)
    }
}

impl<'a> Ranked for &'a AclRule {
    open spec fn no_later(self, other: Self) -> bool {
        (*self).no_later(*other)
    }

    proof fn lemma_total(a: Self, b: Self) {
    }

    proof fn lemma_transitive(a: Self, b: Self, c: Self) {
    }
}

impl<'a> Sortable for &'a AclRule {
    fn is_no_later(&self, other: &Self) -> bool {
        (**self).is_no_later(*other)
    }
}

fn append_ids(out: &mut String, ids: &[Uuid])
    ensures
        final(out)@ == old(out)@ + json_array(all_quoted(id_texts(ids@))),
{
    let items = ids_to_texts(ids);
    append_array(out, quote_all(items.as_slice()).as_slice());
}

fn device_to_json(peer: &DesiredPeer) -> (r: String)
    ensures
        r@ == device_json(peer@),
{
    let mut out = String::from_str("{\"device_id\":");
    out.append(json_string(uuid_to_text(peer.device_id).as_str()).as_str());
    out.append(",\"user_id\":");
    out.append(json_string(uuid_to_text(peer.user_id).as_str()).as_str());
    out.append(",\"public_key\":");
    out.append(json_string(peer.public_key.as_str()).as_str());
    out.append(",\"allowed_address\":");
    out.append(json_string(address_to_text(peer.allowed_address).as_str()).as_str());
    out.append(",\"group_ids\":");
    append_ids(&mut out, sorted_ids(&peer.group_ids).as_slice());
    out.append("}");
    assert(out@ =~= device_json(peer@));
    out
}

fn ports_to_json(ports: &Option<PortRange>) -> (r: String)
    ensures
        r@ == ports_json(*ports),
{
    match ports {
        None => String::from_str("null"),
        Some(range) => {
            let mut out = String::from_str("{\"start\":");
            out.append(decimal_text(range.start as u64).as_str());
            out.append(",\"end\":");
            out.append(decimal_text(range.end as u64).as_str());
            out.append("}");
            out
        },
    }
}

fn rule_to_json(rule: &AclRule) -> (r: String)
    ensures
        r@ == rule_json(rule@),
{
    let mut out = String::from_str("{\"id\":");
    out.append(json_string(uuid_to_text(rule.id).as_str()).as_str());
    out.append(",\"position\":");
    out.append(decimal_text(rule.position as u64).as_str());
    out.append(",\"action\":");
    out.append(json_string(action_name(rule.action)).as_str());
    out.append(",\"destination\":");
    out.append(json_string(rule.destination.to_text().as_str()).as_str());
    out.append(",\"protocol\":");
    out.append(json_string(protocol_name(rule.protocol)).as_str());
    out.append(",\"destination_ports\":");
    out.append(ports_to_json(&rule.destination_ports).as_str());
    out.append(",\"subjects\":{\"users\":");
    append_ids(&mut out, sorted_ids(&rule.subjects.users).as_slice());
    out.append(",\"groups\":");
    append_ids(&mut out, sorted_ids(&rule.subjects.groups).as_slice());
    out.append("},\"enabled\":");
    out.append(
        if rule.enabled {
            "true"
        } else {
            "false"
        },
    );
    out.append("}");
    assert(out@ =~= rule_json(rule@));
    out
}

fn devices_to_json(peers: &[DesiredPeer]) -> (r: Vec<String>)
    ensures
        texts(r@) == stable_sorted(peers@.map_values(|p: DesiredPeer| p@)).map_values(
            |p: PeerView| device_json(p),
        ),
{
    let ghost all = peers@.map_values(|p: DesiredPeer| &p);
    let mut list: Vec<&DesiredPeer> = Vec::new();
    let mut i: usize = 0;
    while i < peers.len()
        invariant
            i <= peers@.len(),
            all == peers@.map_values(|p: DesiredPeer| &p),
            list@ =~= all.take(i as int),
        decreases peers@.len() - i,
    {
        list.push(&peers[i]);
        i = i + 1;
    }
    assert(list@ =~= all);
    stable_sort(&mut list);
    let ghost goal = stable_sorted(peers@.map_values(|p: DesiredPeer| p@)).map_values(
        |p: PeerView| device_json(p),
    );
    proof {
        lemma_sorted_map(all, |p: &DesiredPeer| p@);
        assert(all.map_values(|p: &DesiredPeer| p@) =~= peers@.map_values(|p: DesiredPeer| p@));
        assert(goal.len() == list@.len());
        assert forall|k: int| 0 <= k < list@.len() implies #[trigger] goal[k] == device_json(
            list@[k]@,
        ) by {
            assert(list@.map_values(|p: &DesiredPeer| p@)[k] == list@[k]@);
        }
    }
    let mut out: Vec<String> = Vec::new();
    let mut j: usize = 0;
    while j < list.len()
        invariant
            j <= list@.len() == goal.len(),
            forall|k: int| 0 <= k < list@.len() ==> #[trigger] goal[k] == device_json(list@[k]@),
            texts(out@) =~= goal.take(j as int),
        decreases list@.len() - j,
    {
        push_text(&mut out, device_to_json(list[j]));
        assert(goal.take(j + 1) =~= goal.take(j as int).push(goal[j as int]));
        j = j + 1;
    }
    assert(goal.take(j as int) =~= goal);
    out
}

fn rules_to_json(rules: &[AclRule]) -> (r: Vec<String>)
    ensures
        texts(r@) == stable_sorted(rules@.map_values(|p: AclRule| p@)).map_values(
            |p: RuleView| rule_json(p),
        ),
{
    let ghost all = rules@.map_values(|p: AclRule| &p);
    let mut list: Vec<&AclRule> = Vec::new();
    let mut i: usize = 0;
    while i < rules.len()
        invariant
            i <= rules@.len(),
            all == rules@.map_values(|p: AclRule| &p),
            list@ =~= all.take(i as int),
        decreases rules@.len() - i,
    {
        list.push(&rules[i]);
        i = i + 1;
    }
    assert(list@ =~= all);
    stable_sort(&mut list);
    let ghost goal = stable_sorted(rules@.map_values(|p: AclRule| p@)).map_values(
        |p: RuleView| rule_json(p),
    );
    proof {
        lemma_sorted_map(all, |p: &AclRule| p@);
        assert(all.map_values(|p: &AclRule| p@) =~= rules@.map_values(|p: AclRule| p@));
        assert(goal.len() == list@.len());
        assert forall|k: int| 0 <= k < list@.len() implies #[trigger] goal[k] == rule_json(
            list@[k]@,
        ) by {
            assert(list@.map_values(|p: &AclRule| p@)[k] == list@[k]@);
        }
    }
    let mut out: Vec<String> = Vec::new();
    let mut j: usize = 0;
    while j < list.len()
        invariant
            j <= list@.len() == goal.len(),
            forall|k: int| 0 <= k < list@.len() ==> #[trigger] goal[k] == rule_json(list@[k]@),
            texts(out@) =~= goal.take(j as int),
        decreases list@.len() - j,
    {
        push_text(&mut out, rule_to_json(list[j]));
        assert(goal.take(j + 1) =~= goal.take(j as int).push(goal[j as int]));
        j = j + 1;
    }
    assert(goal.take(j as int) =~= goal);
    out
}

fn copy_networks(nets: &[Ipv4Net]) -> (r: Vec<Ipv4Net>)
    ensures
        r@ == nets@,
{
    let mut out: Vec<Ipv4Net> = Vec::new();
    let mut i: usize = 0;
    while i < nets.len()
        invariant
            i <= nets@.len(),
            out@ =~= nets@.take(i as int),
        decreases nets@.len() - i,
    {
        out.push(nets[i]);
        i = i + 1;
    }
    out
}

/// Addresses of its own, the same as some.
pub fn copy_addresses(addresses: &[Ipv4Addr]) -> (r: Vec<Ipv4Addr>)
    ensures
        r@ == addresses@,
{
    let mut out: Vec<Ipv4Addr> = Vec::new();
    let mut i: usize = 0;
    while i < addresses.len()
        invariant
            i <= addresses@.len(),
            out@ =~= addresses@.take(i as int),
        decreases addresses@.len() - i,
    {
        out.push(addresses[i]);
        i = i + 1;
    }
    out
}

/// The digest of a desired state: the SHA-256 of the JSON of its canonical form.
pub fn state_hash(desired: &DesiredGatewayState) -> (r: String)
    ensures
        r@ == text_fingerprint(state_json(canonical(desired@))),
        r@.len() == 64,
{
    fingerprint_text(state_text(desired).as_str())
}

/// The JSON of the canonical form of a desired state.
pub fn state_text(desired: &DesiredGatewayState) -> (r: String)
    ensures
        r@ == state_json(canonical(desired@)),
{
    let ghost goal = canonical(desired@);
    let mut routes = copy_networks(desired.routes.as_slice());
    canonicalize_routes(&mut routes);
    let mut sources = copy_addresses(desired.terminate_sources.as_slice());
    sort_addresses(&mut sources);
    let mut out = String::from_str("{\"gateway_id\":");
    out.append(json_string(uuid_to_text(desired.gateway_id).as_str()).as_str());
    out.append(",\"revision\":");
    out.append(decimal_text(desired.revision).as_str());
    out.append(",\"interface_name\":");
    out.append(json_string(desired.interface_name.as_str()).as_str());
    out.append(",\"listen_port\":");
    out.append(decimal_text(desired.listen_port as u64).as_str());
    out.append(",\"mtu\":");
    out.append(json_optional(desired.mtu).as_str());
    out.append(",\"compatibility_address\":");
    match desired.compatibility_address {
        Some(a) => {
            out.append(json_string(address_to_text(a).as_str()).as_str());
        },
        None => {
            out.append("null");
        },
    }
    out.append(",\"routes\":");
    append_array(&mut out, quote_all(networks_to_texts(routes.as_slice()).as_slice()).as_slice());
    out.append(",\"peers\":");
    append_array(&mut out, devices_to_json(desired.peers.as_slice()).as_slice());
    out.append(",\"acl_default\":");
    out.append(json_string(action_name(desired.acl_default)).as_str());
    out.append(",\"acl_rules\":");
    append_array(&mut out, rules_to_json(desired.acl_rules.as_slice()).as_slice());
    out.append(",\"terminate_sources\":");
    append_array(&mut out, quote_all(addresses_to_texts(sources.as_slice()).as_slice()).as_slice());
    out.append("}");
    assert(out@ =~= state_json(goal));
    out
}

/// Canonicalizing a state does not change its digest.
pub proof fn law_hash_sees_only_the_canonical_form(state: StateView)
    ensures
        text_fingerprint(state_json(canonical(canonical(state)))) == text_fingerprint(
            state_json(canonical(state)),
        ),
{
    law_canonicalize_is_idempotent(state);
}

} // verus!
