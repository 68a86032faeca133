//! What sites, their gateways and their access rules promise.

use vstd::prelude::*;

use crate::access::{is_new_rule, new_rules_fault, tells_rule, NewRule};
use crate::acl::{acl_outcome, first_match, AclAction, AclRule, IpProtocol, PacketContext};
use crate::config::is_public_key;
use crate::desired::RuleRow;
use crate::ids::{uuid_parsed, Uuid};
use crate::ipv4::{address_parsed, network_parsed, Ipv4Net};
use crate::linux::is_interface_char;
use crate::migration::{routes_of, RouteRow};
use crate::models::{
    AclRuleModel, CreateSiteRequest, GatewayKindRequest, UpdateSiteRequest,
    UpdateSystemSettingsRequest,
};
use crate::network::ClientPool;
use crate::settings::update_fault;
use crate::sites::{
    agent_fault, all_routes, create_site_fault, db_routes_fault, endpoints_fault, endpoints_of,
    is_new_site, is_site_update, plan_outcome, update_site_fault, with_candidate, EndpointRow,
    NewSite, SiteGatewayRow, SiteUpdate,
};
use crate::text::{has_whitespace, texts, trimmed, whitespace};

verus! {

proof fn lemma_route_is_read(rows: Seq<RouteRow>, i: int)
    requires
        db_routes_fault(rows) is None,
        0 <= i < rows.len(),
    ensures
        uuid_parsed(rows[i].gateway_id@) is Ok,
        network_parsed(rows[i].cidr@) is Some,
    decreases rows.len(),
{
    if i < rows.len() - 1 {
        assert(rows.drop_last()[i] == rows[i]);
        lemma_route_is_read(rows.drop_last(), i);
    }
}

proof fn lemma_endpoints(rows: Seq<EndpointRow>, replaced: Option<Uuid>, k: int, ip: u32)
    requires
        endpoints_fault(rows, replaced) is None,
        0 <= k < rows.len(),
        address_parsed(rows[k].endpoint_host@) == Some(ip),
        replaced is None || uuid_parsed(rows[k].id@) != Ok::<Uuid, Seq<char>>(replaced->0),
    ensures
        exists|n: int|
            0 <= n < endpoints_of(rows, replaced).len() && (#[trigger] endpoints_of(
                rows,
                replaced,
            )[n]).ip == ip,
    decreases rows.len(),
{
    let less = rows.drop_last();
    let before = endpoints_of(less, replaced);
    let all = endpoints_of(rows, replaced);
    if k < less.len() {
        assert(less[k] == rows[k]);
        lemma_endpoints(less, replaced, k, ip);
        let n = choose|n: int| 0 <= n < before.len() && (#[trigger] before[n]).ip == ip;
        assert(all[n] == before[n]);
    } else {
        assert(uuid_parsed(rows[k].id@) is Ok);
        assert(all[all.len() - 1].ip == ip);
    }
}

/// A site is accepted only if no network of it meets one of another gateway, no gateway is to be
/// reached at an address inside a network that clients route into the tunnel, neither the new one
/// nor the others, and the clients' own networks are routed by one gateway at most.
pub proof fn law_accepted_sites_keep_apart(
    pool: Ipv4Net,
    rows: Seq<RouteRow>,
    gateway_id: Uuid,
    site_id: Uuid,
    nets: Seq<Ipv4Net>,
    endpoints: Seq<EndpointRow>,
    replaced: Option<Uuid>,
    host: Seq<char>,
    port: u16,
    i: int,
    j: int,
    address: u32,
)
    requires
        db_routes_fault(rows) is None,
        plan_outcome(
            pool,
            all_routes(rows, gateway_id, site_id, nets),
            endpoints,
            replaced,
            Some((host, port)),
            Ok(()),
        ),
        0 <= j < nets.len(),
    ensures
        0 <= i < rows.len() && uuid_parsed(rows[i].gateway_id@) != Ok::<Uuid, Seq<char>>(gateway_id)
            ==> {
            let other = Ipv4Net::of(
                network_parsed(rows[i].cidr@)->Some_0.0,
                network_parsed(rows[i].cidr@)->Some_0.1,
            );
            &&& !(nets[j].first() <= address <= nets[j].last() && other.first() <= address
                <= other.last())
            &&& !(nets[j].first() <= pool.last() && pool.first() <= nets[j].last()
                && other.first() <= pool.last() && pool.first() <= other.last())
        },
        address_parsed(host) == Some(address) ==> !(nets[j].first() <= address <= nets[j].last()),
        forall|k: int|
            0 <= k < endpoints.len() && address_parsed((#[trigger] endpoints[k]).endpoint_host@)
                == Some(address) && (replaced is None || uuid_parsed(endpoints[k].id@) != Ok::<
                Uuid,
                Seq<char>,
            >(replaced->0)) ==> !(nets[j].first() <= address <= nets[j].last()),
{
    broadcast use Ipv4Net::lemma_of;

    let routes = all_routes(rows, gateway_id, site_id, nets);
    let n = rows.len() + j;
    assert(routes[n].cidr == nets[j] && routes[n].gateway_id == gateway_id);
    let clients = ClientPool { cidr: pool };
    assert(crate::network::routes_outcome(clients, routes, Ok(())));
    crate::sites::law_accepted_plans_are_safe(pool, routes, endpoints, replaced, Some((host, port)));
    if 0 <= i < rows.len() && uuid_parsed(rows[i].gateway_id@) != Ok::<Uuid, Seq<char>>(
        gateway_id,
    ) {
        lemma_route_is_read(rows, i);
        assert(routes[i] == routes_of(rows)[i]);
        assert(routes[i].gateway_id != gateway_id);
        crate::network::law_accepted_routes_are_deterministic(clients, routes, i, n, address);
    }
    let all = with_candidate(endpoints_of(endpoints, replaced), Some((host, port)));
    if nets[j].first() <= address <= nets[j].last() {
        assert(routes[n].cidr.holds(address));
        assert(crate::network::routed(routes, address));
        if address_parsed(host) == Some(address) {
            assert(all[all.len() - 1].ip == address);
        }
        assert forall|k: int|
            0 <= k < endpoints.len() && address_parsed((#[trigger] endpoints[k]).endpoint_host@)
                == Some(address) && (replaced is None || uuid_parsed(endpoints[k].id@) != Ok::<
                Uuid,
                Seq<char>,
            >(replaced->0)) implies false by {
            lemma_endpoints(endpoints, replaced, k, address);
            let m = choose|m: int|
                0 <= m < endpoints_of(endpoints, replaced).len() && (#[trigger] endpoints_of(
                    endpoints,
                    replaced,
                )[m]).ip == address;
            assert(all[m].ip == address);
        }
    }
}

/// A new site needs a name, routes, an interface's name, a host without blanks, ports other than
/// zero and, if it has a key, one of 32 bytes.
pub proof fn law_new_sites_are_complete(request: CreateSiteRequest)
    ensures
        create_site_fault(request) is None <==> {
            &&& trimmed(request.name@).len() > 0
            &&& request.routes@.len() > 0
            &&& 0 < request.interface_name@.len()
            &&& crate::text::byte_count(request.interface_name@) <= 15
            &&& forall|i: int|
                0 <= i < request.interface_name@.len() ==> is_interface_char(
                    #[trigger] request.interface_name@[i],
                )
            &&& trimmed(request.endpoint_host@).len() > 0
            &&& forall|i: int|
                0 <= i < request.endpoint_host@.len() ==> !whitespace(
                    #[trigger] request.endpoint_host@[i],
                )
            &&& request.public_port is Some ==> request.public_port->0 > 0
            &&& request.listen_port is Some ==> request.listen_port->0 > 0
            &&& request.public_key is Some ==> is_public_key(request.public_key->0@)
        },
{
}

/// An agent can be given a site's gateway only if there is such an agent and it is of the
/// gateway's sort.
pub proof fn law_agents_drive_gateways_of_their_sort(
    request: CreateSiteRequest,
    agent_kind: Option<Seq<char>>,
)
    ensures
        agent_fault(request, agent_kind) is None <==> request.agent_id is None || agent_kind is Some
            && agent_kind->0 == (match request.gateway_kind {
            GatewayKindRequest::Linux => "linux"@,
            GatewayKindRequest::Mikrotik => "mikrotik"@,
        }),
{
}

/// What is written of a new site is what was asked for; by default it allows or denies as asked,
/// and its gateway is ready at once only where its key is known.
pub proof fn law_sites_are_written_as_asked(
    s: NewSite,
    request: CreateSiteRequest,
    site_id: Uuid,
    gateway_id: Uuid,
    i: int,
)
    requires
        is_new_site(s, request, site_id, gateway_id),
    ensures
        request.acl_default == AclAction::Allow ==> s.acl_default@ == "allow"@,
        request.acl_default == AclAction::Deny ==> s.acl_default@ == "deny"@,
        request.public_key is Some ==> s.status@ == "ready"@ && s.public_key is Some
            && s.public_key->0@ == request.public_key->0@,
        request.public_key is None ==> s.status@ == "provisioning"@ && s.public_key is None,
        s.routes@.len() == request.routes@.len(),
        0 <= i < s.routes@.len() ==> s.routes@[i]@ == request.routes@[i].text(),
        s.agent_id == request.agent_id,
        s.granted_group_ids@ == request.granted_group_ids@,
        s.public_port == request.public_port,
        s.listen_port == request.listen_port,
        s.interface_name@ == request.interface_name@,
        s.endpoint_host@ == trimmed(request.endpoint_host@),
        s.name@ == trimmed(request.name@),
        s.compatibility_address == request.compatibility_address,
{
    if 0 <= i < s.routes@.len() {
        assert(texts(s.routes@)[i] == s.routes@[i]@);
    }
}

/// A change of a site needs a name, routes, a host without blanks and a port other than zero, and
/// is written as it was asked for.
pub proof fn law_site_changes_are_written_as_asked(
    u: SiteUpdate,
    request: UpdateSiteRequest,
    site_id: Uuid,
    gateway: SiteGatewayRow,
    i: int,
)
    requires
        is_site_update(u, request, site_id, gateway),
    ensures
        update_site_fault(request) is None <==> trimmed(request.name@).len() > 0
            && request.routes@.len() > 0 && trimmed(request.endpoint_host@).len() > 0
            && !has_whitespace(request.endpoint_host@) && request.public_port != Some(0u16),
        uuid_parsed(gateway.id@) == Ok::<Uuid, Seq<char>>(u.gateway_id),
        request.acl_default == AclAction::Allow ==> u.acl_default@ == "allow"@,
        request.acl_default == AclAction::Deny ==> u.acl_default@ == "deny"@,
        u.routes@.len() == request.routes@.len(),
        0 <= i < u.routes@.len() ==> u.routes@[i]@ == request.routes@[i].text(),
        u.granted_group_ids@ == request.granted_group_ids@,
        u.public_port == request.public_port,
        u.endpoint_host@ == trimmed(request.endpoint_host@),
        u.name@ == trimmed(request.name@),
        u.compatibility_address == request.compatibility_address,
{
    if 0 <= i < u.routes@.len() {
        assert(texts(u.routes@)[i] == u.routes@[i]@);
    }
}

/// Access rules are accepted if and only if no two have the same position, and ports are
/// restricted only for TCP and UDP, from a first one to one that does not come before it.
pub proof fn law_access_rules_are_consistent(rules: Seq<AclRuleModel>)
    ensures
        new_rules_fault(rules) is None <==> {
            &&& forall|i: int, j: int|
                0 <= i < j < rules.len() ==> (#[trigger] rules[i]).position != (
                #[trigger] rules[j]).position
            &&& forall|i: int|
                0 <= i < rules.len() && (#[trigger] rules[i]).destination_ports is Some ==> (
                rules[i].protocol == IpProtocol::Tcp || rules[i].protocol == IpProtocol::Udp)
                    && rules[i].destination_ports->0.start <= rules[i].destination_ports->0.end
        },
    decreases rules.len(),
{
    if rules.len() > 0 {
        let less = rules.drop_last();
        let last = rules.last();
        law_access_rules_are_consistent(less);
        assert(rules[rules.len() - 1] == last);
        assert(forall|i: int| 0 <= i < less.len() ==> less[i] == rules[i]);
        if new_rules_fault(rules) is None {
            assert forall|i: int, j: int| 0 <= i < j < rules.len() implies (
            #[trigger] rules[i]).position != (#[trigger] rules[j]).position by {
                assert(less[i] == rules[i]);
                if j < less.len() {
                    assert(less[j] == rules[j]);
                }
            }
            assert forall|i: int|
                0 <= i < rules.len() && (#[trigger] rules[i]).destination_ports is Some implies (
            rules[i].protocol == IpProtocol::Tcp || rules[i].protocol == IpProtocol::Udp)
                && rules[i].destination_ports->0.start <= rules[i].destination_ports->0.end by {
                if i < less.len() {
                    assert(less[i] == rules[i]);
                }
            }
        }
        if {
            &&& forall|i: int, j: int|
                0 <= i < j < rules.len() ==> (#[trigger] rules[i]).position != (
                #[trigger] rules[j]).position
            &&& forall|i: int|
                0 <= i < rules.len() && (#[trigger] rules[i]).destination_ports is Some ==> (
                rules[i].protocol == IpProtocol::Tcp || rules[i].protocol == IpProtocol::Udp)
                    && rules[i].destination_ports->0.start <= rules[i].destination_ports->0.end
        } {
            assert forall|i: int, j: int| 0 <= i < j < less.len() implies (
            #[trigger] less[i]).position != (#[trigger] less[j]).position by {
                assert(rules[i].position != rules[j].position);
            }
            assert forall|i: int|
                0 <= i < less.len() && (#[trigger] less[i]).destination_ports is Some implies (
            less[i].protocol == IpProtocol::Tcp || less[i].protocol == IpProtocol::Udp)
                && less[i].destination_ports->0.start <= less[i].destination_ports->0.end by {
                assert(rules[i] == less[i]);
            }
            assert forall|k: int| 0 <= k < less.len() implies (#[trigger] less[k]).position
                != last.position by {
                assert(rules[k].position != rules[rules.len() - 1].position);
            }
        }
    }
}

/// A rule is written as it was given, and told as it is kept.
pub proof fn law_access_rules_are_kept(
    n: NewRule,
    rule: AclRuleModel,
    new_id: Uuid,
    told: AclRuleModel,
    row: RuleRow,
)
    requires
        is_new_rule(n, rule, new_id),
        tells_rule(told, row),
    ensures
        rule.id is Some ==> n.id == rule.id->0,
        rule.id is None ==> n.id == new_id,
        n.position == rule.position,
        n.enabled == rule.enabled,
        n.destination@ == rule.destination.text(),
        n.action@ == (match rule.action {
            AclAction::Allow => "allow"@,
            AclAction::Deny => "deny"@,
        }),
        n.protocol@ == (match rule.protocol {
            IpProtocol::Any => "any"@,
            IpProtocol::Tcp => "tcp"@,
            IpProtocol::Udp => "udp"@,
            IpProtocol::Icmp => "icmp"@,
        }),
        rule.destination_ports is None <==> n.port_start is None && n.port_end is None,
        rule.destination_ports is Some ==> n.port_start is Some && n.port_start->0
            == rule.destination_ports->0.start && n.port_end is Some && n.port_end->0
            == rule.destination_ports->0.end,
        n.user_ids@ == rule.user_ids@,
        n.group_ids@ == rule.group_ids@,
        told.enabled == row.enabled,
        told.action == AclAction::Allow ==> row.action@ == "allow"@,
        told.action == AclAction::Deny ==> row.action@ == "deny"@,
        0 <= row.position <= u32::MAX ==> told.position == row.position,
{
}

/// An access rule speaks of a packet if and only if it is enabled, holds the destination, is about
/// the packet's protocol or any, about its port or all, and about everybody, its user or one of
/// the user's groups.
pub proof fn law_access_rules_speak_of_packets(rule: AclRule, packet: PacketContext)
    ensures
        rule.applies_to(packet) <==> {
            &&& rule.enabled
            &&& rule.destination.first() <= packet.destination <= rule.destination.last()
            &&& rule.protocol == IpProtocol::Any || rule.protocol == packet.protocol
            &&& rule.destination_ports is Some ==> packet.destination_port is Some
                && rule.destination_ports->0.start <= packet.destination_port->0
                && packet.destination_port->0 <= rule.destination_ports->0.end
            &&& (rule.subjects.users@.is_empty() && rule.subjects.groups@.is_empty())
                || rule.subjects.users@.contains(packet.user_id) || (exists|g: Uuid|
                rule.subjects.groups@.contains(g) && #[trigger] packet.group_ids@.contains(g))
        },
{
    if exists|g: Uuid|
        rule.subjects.groups@.contains(g) && #[trigger] packet.group_ids@.contains(g) {
        let g = choose|g: Uuid|
            rule.subjects.groups@.contains(g) && #[trigger] packet.group_ids@.contains(g);
        assert(rule.subjects.groups@.contains(g));
    }
}

/// What happens to a packet is what a rule says that speaks of it, such that no rule that speaks
/// of it has a lower position, and at that position none denies where it allows; where no rule
/// speaks of it, it is the default.
pub proof fn law_the_first_rule_decides(
    rules: Seq<AclRule>,
    default_action: AclAction,
    packet: PacketContext,
    action: AclAction,
)
    requires
        acl_outcome(rules, default_action, packet, action),
    ensures
        (forall|k: int| 0 <= k < rules.len() ==> !(#[trigger] rules[k]).applies_to(packet))
            ==> action == default_action,
        (exists|k: int| 0 <= k < rules.len() && (#[trigger] rules[k]).applies_to(packet))
            ==> exists|i: int|
            {
                &&& 0 <= i < rules.len()
                &&& (#[trigger] rules[i]).applies_to(packet)
                &&& rules[i].action == action
                &&& forall|k: int|
                    0 <= k < rules.len() && (#[trigger] rules[k]).applies_to(packet)
                        ==> rules[i].position < rules[k].position || rules[i].position
                        == rules[k].position && (action == AclAction::Deny || rules[k].action
                        == AclAction::Allow)
            },
{
    if exists|k: int| 0 <= k < rules.len() && (#[trigger] rules[k]).applies_to(packet) {
        let i = choose|i: int| #[trigger]
            first_match(rules, packet, i) && action == rules[i].action;
        assert(rules[i].applies_to(packet));
    }
}

/// Settings are accepted only if the limit of devices is between one and a hundred, the options
/// make sense, and the pool is the present one or holds all of it.
pub proof fn law_settings_are_bounded(request: UpdateSystemSettingsRequest, current: Ipv4Net)
    requires
        update_fault(request, current) is None,
    ensures
        1 <= request.default_device_limit <= 100,
        request.client_options.mtu is Some ==> 576 <= request.client_options.mtu->0
            && request.client_options.mtu->0 <= 9000,
        request.client_options.persistent_keepalive is Some
            ==> request.client_options.persistent_keepalive->0 > 0,
        forall|i: int|
            0 <= i < request.client_options.search_domains@.len() ==> (
            #[trigger] request.client_options.search_domains@[i])@.len() > 0 && !has_whitespace(
                request.client_options.search_domains@[i]@,
            ),
        request.client_pool.last() - request.client_pool.first() >= 3,
        request.client_pool.first() <= current.first() && current.last()
            <= request.client_pool.last(),
{
    let domains = texts(request.client_options.search_domains@);
    assert forall|i: int| 0 <= i < request.client_options.search_domains@.len() implies (
    #[trigger] request.client_options.search_domains@[i])@.len() > 0 && !has_whitespace(
        request.client_options.search_domains@[i]@,
    ) by {
        assert(domains[i] == request.client_options.search_domains@[i]@);
        assert(!crate::settings::has_bad_domain(domains));
    }
}

/// A rule is told with its destination, its protocol, its ports and whom it is about as they are
/// kept.
pub proof fn law_access_rules_are_told_as_they_are(told: AclRuleModel, row: RuleRow, i: int)
    requires
        tells_rule(told, row),
    ensures
        told.id is Some && uuid_parsed(row.id@) == Ok::<Uuid, Seq<char>>(told.id->0),
        told.protocol == IpProtocol::Any ==> row.protocol@ == "any"@,
        told.protocol == IpProtocol::Tcp ==> row.protocol@ == "tcp"@,
        told.protocol == IpProtocol::Udp ==> row.protocol@ == "udp"@,
        told.protocol == IpProtocol::Icmp ==> row.protocol@ == "icmp"@,
        network_parsed(row.destination@) is Some ==> network_parsed(row.destination@) == Some(
            (told.destination.base(), told.destination.bits()),
        ),
        told.destination_ports is Some <==> row.port_start is Some && row.port_end is Some,
        told.destination_ports is Some && 0 <= row.port_start->0 <= 65535 && 0 <= row.port_end->0
            <= 65535 ==> told.destination_ports->0.start == row.port_start->0
            && told.destination_ports->0.end == row.port_end->0,
        told.user_ids@.len() == row.users@.len(),
        told.group_ids@.len() == row.groups@.len(),
        0 <= i < row.users@.len() && uuid_parsed(row.users@[i]@) is Ok ==> uuid_parsed(
            row.users@[i]@,
        ) == Ok::<Uuid, Seq<char>>(told.user_ids@[i]),
        0 <= i < row.groups@.len() && uuid_parsed(row.groups@[i]@) is Ok ==> uuid_parsed(
            row.groups@[i]@,
        ) == Ok::<Uuid, Seq<char>>(told.group_ids@[i]),
{
    broadcast use Ipv4Net::lemma_of;

    if 0 <= i < row.users@.len() {
        assert(texts(row.users@)[i] == row.users@[i]@);
    }
    if 0 <= i < row.groups@.len() {
        assert(texts(row.groups@)[i] == row.groups@[i]@);
    }
}
} // verus!
