//! What plans of sites, settings and metrics promise.

use vstd::prelude::*;

use crate::acl::AclAction;
use crate::config::OptionsView;
use crate::error::ErrorView;
use crate::ids::{uuid_parsed, Uuid};
use crate::ipv4::{network_parsed, Ipv4Net};
use crate::json::{json_number, json_quoted, json_text};
use crate::models::{
    CreateSiteRequest, SiteResponse, SystemSettingsResponse, UpdateSiteRequest,
    UpdateSystemSettingsRequest,
};
use crate::network::{
    address_count_of, client_conflict, cross_conflict, routes_outcome, ClientPool, GatewayRoute,
    NetworkError,
};
use crate::rows::signed_decimal;
use crate::settings::{
    is_settings_update, labelled_line, metric, metric_head, metric_line, metrics_text,
    options_fault, setting, settings_fault, tells_event, tells_settings, update_fault, AuditRow,
    Counts, SettingRow, SettingsUpdate,
};
use crate::sites::{
    candidate_port, endpoint_of, endpoints_fault, endpoints_of, plan_outcome, tells_site,
    update_port, with_candidate, EndpointRow, SiteGatewayRow, SiteRow,
};
use crate::text::{decimal, occurs_in, whitespace};

verus! {

/// Routes are accepted if and only if no two gateways route the same address, and no two gateways
/// route addresses of the clients.
pub proof fn law_routes_are_accepted_when_apart(pool: ClientPool, routes: Seq<GatewayRoute>)
    ensures
        routes_outcome(pool, routes, Ok(())) <==> forall|i: int, j: int|
            0 <= i < j < routes.len() && (#[trigger] routes[i]).gateway_id != (
            #[trigger] routes[j]).gateway_id ==> {
                &&& routes[i].cidr.last() < routes[j].cidr.first() || routes[j].cidr.last()
                    < routes[i].cidr.first()
                &&& routes[i].cidr.last() < pool.cidr.first() || pool.cidr.last()
                    < routes[i].cidr.first() || routes[j].cidr.last() < pool.cidr.first()
                    || pool.cidr.last() < routes[j].cidr.first()
            },
{
    if routes_outcome(pool, routes, Ok(())) {
        assert forall|i: int, j: int|
            0 <= i < j < routes.len() && (#[trigger] routes[i]).gateway_id != (
            #[trigger] routes[j]).gateway_id implies {
            &&& routes[i].cidr.last() < routes[j].cidr.first() || routes[j].cidr.last()
                < routes[i].cidr.first()
            &&& routes[i].cidr.last() < pool.cidr.first() || pool.cidr.last()
                < routes[i].cidr.first() || routes[j].cidr.last() < pool.cidr.first()
                || pool.cidr.last() < routes[j].cidr.first()
        } by {
            assert(!cross_conflict(routes, i, j));
            assert(!client_conflict(pool, routes, j));
            assert(crate::network::overlap(routes[i].cidr, pool.cidr) ==> !crate::network::overlap(
                routes[j].cidr,
                pool.cidr,
            ));
        }
    }
    if forall|i: int, j: int|
        0 <= i < j < routes.len() && (#[trigger] routes[i]).gateway_id != (
        #[trigger] routes[j]).gateway_id ==> {
            &&& routes[i].cidr.last() < routes[j].cidr.first() || routes[j].cidr.last()
                < routes[i].cidr.first()
            &&& routes[i].cidr.last() < pool.cidr.first() || pool.cidr.last()
                < routes[i].cidr.first() || routes[j].cidr.last() < pool.cidr.first()
                || pool.cidr.last() < routes[j].cidr.first()
        } {
        assert forall|i: int| 0 <= i < routes.len() implies !#[trigger] client_conflict(
            pool,
            routes,
            i,
        ) by {
            if client_conflict(pool, routes, i) {
                let k = choose|k: int|
                    0 <= k < i && crate::network::overlap(#[trigger] routes[k].cidr, pool.cidr)
                        && routes[k].gateway_id != routes[i].gateway_id;
                assert(routes[k].gateway_id != routes[i].gateway_id);
            }
        }
        assert forall|i: int, j: int|
            0 <= i < routes.len() && i < j < routes.len() implies !#[trigger] cross_conflict(
            routes,
            i,
            j,
        ) by {
            if routes[i].gateway_id != routes[j].gateway_id {
                assert(routes[i].cidr.last() < routes[j].cidr.first() || routes[j].cidr.last()
                    < routes[i].cidr.first());
            }
        }
    }
}

/// Routes are refused only for two gateways that route the same address, which are then named, or
/// that both route addresses of the clients.
pub proof fn law_routes_are_refused_for_a_conflict(
    pool: ClientPool,
    routes: Seq<GatewayRoute>,
    error: NetworkError,
)
    requires
        routes_outcome(pool, routes, Err(error)),
    ensures
        error == NetworkError::MultipleClientRoutingGateways || error is CrossGatewayOverlap,
        error == NetworkError::MultipleClientRoutingGateways ==> exists|i: int, j: int|
            0 <= i < j < routes.len() && (#[trigger] routes[i]).gateway_id != (
            #[trigger] routes[j]).gateway_id && routes[i].cidr.first() <= pool.cidr.last()
                && pool.cidr.first() <= routes[i].cidr.last() && routes[j].cidr.first()
                <= pool.cidr.last() && pool.cidr.first() <= routes[j].cidr.last(),
        error matches NetworkError::CrossGatewayOverlap {
            left,
            right,
            left_gateway,
            right_gateway,
        } ==> left_gateway != right_gateway && left.first() <= right.last() && right.first()
            <= left.last() && (exists|i: int, j: int|
            0 <= i < j < routes.len() && (#[trigger] routes[i]).cidr == left
                && routes[i].gateway_id == left_gateway && (#[trigger] routes[j]).cidr == right
                && routes[j].gateway_id == right_gateway),
{
    if error == NetworkError::MultipleClientRoutingGateways {
        let i = choose|i: int|
            0 <= i < routes.len() && crate::network::clear_before(pool, routes, i)
                && #[trigger] client_conflict(pool, routes, i);
        let k = choose|k: int|
            0 <= k < i && crate::network::overlap(#[trigger] routes[k].cidr, pool.cidr)
                && routes[k].gateway_id != routes[i].gateway_id;
        assert(routes[k].gateway_id != routes[i].gateway_id);
    }
}

proof fn lemma_endpoint_is_one_of(rows: Seq<EndpointRow>, replaced: Option<Uuid>, i: int)
    requires
        0 <= i < endpoints_of(rows, replaced).len(),
        endpoints_fault(rows, replaced) is None,
    ensures
        exists|k: int|
            0 <= k < rows.len() && crate::ipv4::address_parsed(
                (#[trigger] rows[k]).endpoint_host@,
            ) == Some(endpoints_of(rows, replaced)[i].ip) && (replaced is None || uuid_parsed(
                rows[k].id@,
            ) != Ok::<Uuid, Seq<char>>(replaced->0)),
    decreases rows.len(),
{
    if rows.len() > 0 {
        let less = rows.drop_last();
        let some = endpoints_of(less, replaced);
        if i < some.len() {
            lemma_endpoint_is_one_of(less, replaced, i);
            let k = choose|k: int|
                0 <= k < less.len() && crate::ipv4::address_parsed(
                    (#[trigger] less[k]).endpoint_host@,
                ) == Some(some[i].ip) && (replaced is None || uuid_parsed(less[k].id@) != Ok::<
                    Uuid,
                    Seq<char>,
                >(replaced->0));
            assert(rows[k] == less[k]);
        } else {
            assert(rows[rows.len() - 1] == rows.last());
        }
    }
}

/// A plan whose pool is large enough, whose routes are apart and whose stored ends can be read is
/// refused only for an end inside a route: that of the site itself or of another gateway.
pub proof fn law_plans_are_refused_for_an_end_inside(
    pool: Ipv4Net,
    routes: Seq<GatewayRoute>,
    rows: Seq<EndpointRow>,
    replaced: Option<Uuid>,
    candidate: Option<(Seq<char>, u16)>,
    error: ErrorView,
)
    requires
        address_count_of(pool) >= 4,
        routes_outcome(ClientPool { cidr: pool }, routes, Ok(())),
        endpoints_fault(rows, replaced) is None,
        plan_outcome(pool, routes, rows, replaced, candidate, Err(error)),
    ensures
        exists|r: int, a: u32|
            0 <= r < routes.len() && routes[r].cidr.first() <= a <= routes[r].cidr.last()
                && #[trigger] is_end(rows, replaced, candidate, a) && #[trigger] is_place(r),
{
    let clients = ClientPool { cidr: pool };
    let ends = with_candidate(endpoints_of(rows, replaced), candidate);
    if exists|e: NetworkError| #[trigger]
        routes_outcome(clients, routes, Err(e)) && error == crate::error::validation(e.text()) {
        let e = choose|e: NetworkError| #[trigger]
            routes_outcome(clients, routes, Err(e)) && error == crate::error::validation(e.text());
        law_routes_are_refused_for_a_conflict(clients, routes, e);
        law_routes_are_accepted_when_apart(clients, routes);
        assert(false);
    }
    let e = choose|e: NetworkError| #[trigger]
        crate::sites::endpoint_refused(routes, ends, e) && error == crate::error::validation(
            e.text(),
        );
    let i = choose|i: int|
        {
            &&& 0 <= i < ends.len()
            &&& e == NetworkError::EndpointInsideRoute(#[trigger] ends[i])
            &&& crate::network::routed(routes, ends[i].ip)
            &&& forall|k: int|
                0 <= k < i ==> !crate::network::routed(routes, (#[trigger] ends[k]).ip)
        };
    let a = ends[i].ip;
    let r = choose|r: int| 0 <= r < routes.len() && #[trigger] routes[r].cidr.holds(a);
    if i < endpoints_of(rows, replaced).len() {
        lemma_endpoint_is_one_of(rows, replaced, i);
    }
    assert(is_end(rows, replaced, candidate, a));
    assert(is_place(r));
}

/// Whether a gateway is to be reached at an address: the one of the plan, or one of those that are
/// kept and that it does not replace.
pub open spec fn is_end(
    rows: Seq<EndpointRow>,
    replaced: Option<Uuid>,
    candidate: Option<(Seq<char>, u16)>,
    address: u32,
) -> bool {
    ||| candidate is Some && crate::ipv4::address_parsed(candidate->Some_0.0) == Some(address)
    ||| exists|k: int|
        0 <= k < rows.len() && crate::ipv4::address_parsed((#[trigger] rows[k]).endpoint_host@)
            == Some(address) && (replaced is None || uuid_parsed(rows[k].id@) != Ok::<
            Uuid,
            Seq<char>,
        >(replaced->0))
}

/// A place in a list.
pub open spec fn is_place(i: int) -> bool {
    0 <= i
}

/// A gateway is reached at its public port, or else at the one that it listens on; a new one
/// listens on 51820 where nothing else is said.
pub proof fn law_gateways_are_reached_at_their_ports(
    request: CreateSiteRequest,
    update: UpdateSiteRequest,
    gateway: SiteGatewayRow,
    host: Seq<char>,
    public_port: Option<i64>,
    listen_port: Option<i64>,
)
    ensures
        request.public_port is Some ==> candidate_port(request) == request.public_port->0,
        request.public_port is None && request.listen_port is Some ==> candidate_port(request)
            == request.listen_port->0,
        request.public_port is None && request.listen_port is None ==> candidate_port(request)
            == 51820,
        update.public_port is Some ==> update_port(update, gateway) == update.public_port->0,
        update.public_port is None && 0 <= gateway.listen_port <= 65535 ==> update_port(
            update,
            gateway,
        ) == gateway.listen_port,
        public_port is Some && public_port->0 >= 0 ==> endpoint_of(host, public_port, listen_port)
            == Some(host + ":"@ + decimal(public_port->0 as nat)),
        public_port is None && listen_port is Some && listen_port->0 >= 0 ==> endpoint_of(
            host,
            public_port,
            listen_port,
        ) == Some(host + ":"@ + decimal(listen_port->0 as nat)),
        public_port is None && listen_port is None ==> endpoint_of(host, public_port, listen_port)
            is None,
{
}

/// A site is told as it is kept.
pub proof fn law_sites_are_told_as_they_are(
    r: SiteResponse,
    id: Uuid,
    s: SiteRow,
    routes: Seq<Seq<char>>,
    grants: Seq<Seq<char>>,
    i: int,
)
    requires
        tells_site(r, id, s, routes, grants),
    ensures
        r.id == id,
        r.name@ == s.name@,
        r.routes@.len() == routes.len(),
        0 <= i < routes.len() && network_parsed(routes[i]) is Some ==> network_parsed(routes[i])
            == Some((r.routes@[i].base(), r.routes@[i].bits())),
        r.acl_default == AclAction::Allow ==> s.acl_default@ == "allow"@,
        r.acl_default == AclAction::Deny ==> s.acl_default@ == "deny"@,
        uuid_parsed(s.gateway_id@) == Ok::<Uuid, Seq<char>>(r.gateway_id),
        r.gateway_kind@ == s.kind@,
        r.gateway_status@ == s.status@,
        r.interface_name@ == s.interface_name@,
        r.endpoint_host@ == s.endpoint_host@,
        r.compatibility_address == s.compatibility_address,
        r.public_key is Some <==> s.public_key is Some,
        s.public_key is Some ==> r.public_key->0@ == s.public_key->0@,
        r.last_error is Some <==> s.last_error is Some,
        s.last_error is Some ==> r.last_error->0@ == s.last_error->0@,
        r.last_seen_at is Some <==> s.last_seen_at is Some,
        r.granted_group_ids@.len() == grants.len(),
        0 <= i < grants.len() && uuid_parsed(grants[i]) is Ok ==> uuid_parsed(grants[i])
            == Ok::<Uuid, Seq<char>>(r.granted_group_ids@[i]),
        s.desired_revision >= 0 ==> r.desired_revision == s.desired_revision,
        s.applied_revision >= 0 ==> r.applied_revision == s.applied_revision,
        r.public_port is Some <==> s.public_port is Some,
        r.listen_port is Some <==> s.listen_port is Some,
        s.public_port is Some && 0 <= s.public_port->0 <= 65535 ==> r.public_port->0
            == s.public_port->0,
        s.listen_port is Some && 0 <= s.listen_port->0 <= 65535 ==> r.listen_port->0
            == s.listen_port->0,
{
    broadcast use Ipv4Net::lemma_of;

}

/// The options of clients are accepted if and only if no search domain is empty or has a blank in
/// it, the size of packets is usual, and the interval of keeping alive, if there is one, is not
/// zero.
pub proof fn law_options_are_checked(options: OptionsView)
    ensures
        options_fault(options) is None <==> {
            &&& forall|i: int|
                0 <= i < options.search_domains.len() ==> (
                #[trigger] options.search_domains[i]).len() > 0
            &&& forall|i: int, k: int|
                0 <= i < options.search_domains.len() && 0 <= k < options.search_domains[i].len()
                    ==> !whitespace(#[trigger] options.search_domains[i][k])
            &&& options.mtu is Some ==> 576 <= options.mtu->0 && options.mtu->0 <= 9000
            &&& options.persistent_keepalive is Some ==> options.persistent_keepalive->0 > 0
        },
{
    let domains = options.search_domains;
    if !crate::settings::has_bad_domain(domains) {
        assert forall|i: int| 0 <= i < domains.len() implies (#[trigger] domains[i]).len() > 0
            && !crate::text::has_whitespace(domains[i]) by {}
        assert forall|i: int, k: int|
            0 <= i < domains.len() && 0 <= k < domains[i].len() implies !whitespace(
            #[trigger] domains[i][k],
        ) by {
            assert(!crate::text::has_whitespace(domains[i]));
        }
    } else {
        let i = choose|i: int|
            0 <= i < domains.len() && ((#[trigger] domains[i]).len() == 0
                || crate::text::has_whitespace(domains[i]));
        if domains[i].len() > 0 {
            let k = choose|k: int| 0 <= k < domains[i].len() && whitespace(domains[i][k]);
            assert(whitespace(domains[i][k]));
        }
    }
}

/// Settings are accepted where the limit of devices is between one and a hundred, the options are,
/// and the pool is the present one or a larger one around it.
pub proof fn law_sound_settings_are_accepted(
    request: UpdateSystemSettingsRequest,
    current: Ipv4Net,
)
    requires
        1 <= request.default_device_limit <= 100,
        options_fault(request.client_options@) is None,
        current.bits() <= 30,
        request.client_pool.bits() <= current.bits(),
        request.client_pool.first() <= current.first(),
        current.last() <= request.client_pool.last(),
    ensures
        update_fault(request, current) is None,
{
    crate::ipv4::lemma_block(current.base(), current.bits());
    crate::ipv4::lemma_block(request.client_pool.base(), request.client_pool.bits());
    assert(address_count_of(current) >= 4) by {
        lemma_large(current.bits());
    }
    assert(address_count_of(request.client_pool) >= 4) by {
        lemma_large(request.client_pool.bits());
    }
}

proof fn lemma_large(bits: u8)
    requires
        bits <= 30,
    ensures
        crate::ipv4::block_size(bits) >= 4,
{
    vstd::arithmetic::power2::lemma2_to64();
    if bits < 30 {
        vstd::arithmetic::power2::lemma_pow2_strictly_increases(2, (32 - bits) as nat);
    }
}

/// What is written of settings is what was asked for, under its own name.
pub proof fn law_settings_are_written_as_asked(
    u: SettingsUpdate,
    request: UpdateSystemSettingsRequest,
)
    requires
        is_settings_update(u, request),
    ensures
        u.values@.len() == 3,
        u.values@[0].0@ == "client_pool"@,
        u.values@[0].1@ == json_quoted(request.client_pool.text()),
        u.values@[1].0@ == "default_device_limit"@,
        u.values@[1].1@ == decimal(request.default_device_limit as nat),
        u.values@[2].0@ == "client_options"@,
        u.values@[2].1@ == crate::config::options_json(request.client_options@),
{
}

proof fn lemma_setting(rows: Seq<SettingRow>, key: Seq<char>, i: int)
    requires
        0 <= i < rows.len(),
        rows[i].key@ == key,
        forall|k: int| 0 <= k < rows.len() && (#[trigger] rows[k]).key@ == key ==> k == i,
    ensures
        setting(rows, key) == Some(rows[i]),
    decreases rows.len(),
{
    if i < rows.len() - 1 {
        let less = rows.drop_last();
        assert(rows[rows.len() - 1].key@ != key);
        assert forall|k: int| 0 <= k < less.len() && (#[trigger] less[k]).key@ == key implies k
            == i by {
            assert(rows[k].key@ == key);
        }
        assert(less[i] == rows[i]);
        lemma_setting(less, key, i);
    }
}

/// Settings that are told are those that are kept under their names.
pub proof fn law_settings_are_told_as_they_are(
    r: SystemSettingsResponse,
    rows: Seq<SettingRow>,
    i: int,
)
    requires
        tells_settings(r, rows),
        settings_fault(rows) is None,
        0 <= i < rows.len(),
        forall|k: int|
            0 <= k < rows.len() && (#[trigger] rows[k]).key@ == rows[i].key@ ==> k == i,
    ensures
        rows[i].key@ == "client_pool"@ && network_parsed(json_text(rows[i].value_json@)->Ok_0)
            is Some ==> json_text(rows[i].value_json@) is Ok && network_parsed(
            json_text(rows[i].value_json@)->Ok_0,
        ) == Some((r.client_pool.base(), r.client_pool.bits())),
        rows[i].key@ == "default_device_limit"@ ==> json_number(rows[i].value_json@) == Ok::<
            u32,
            Seq<char>,
        >(r.default_device_limit),
        rows[i].key@ == "client_options"@ ==> rows[i].options is Ok && r.client_options@
            == rows[i].options->Ok_0@,
{
    broadcast use Ipv4Net::lemma_of;

    lemma_setting(rows, rows[i].key@, i);
}

/// An event is told as it was recorded.
pub proof fn law_events_are_told_as_they_are(
    r: crate::models::AuditEventResponse,
    row: AuditRow,
)
    requires
        tells_event(r, row),
    ensures
        uuid_parsed(row.id@) == Ok::<Uuid, Seq<char>>(r.id),
        r.occurred_at@ == row.occurred_at@,
        r.actor_user_id is Some <==> row.actor_user_id is Some,
        row.actor_user_id is Some ==> uuid_parsed(row.actor_user_id->0@) == Ok::<Uuid, Seq<char>>(
            r.actor_user_id->0,
        ),
        r.actor_kind@ == row.actor_kind@,
        r.action@ == row.action@,
        r.object_kind@ == row.object_kind@,
        r.object_id is Some <==> row.object_id is Some,
        row.object_id is Some ==> r.object_id->0@ == row.object_id->0@,
        r.outcome@ == row.outcome@,
{
}

/// The end of a text occurs in it, and so does all that occurs in what stands before.
pub proof fn lemma_end_occurs(a: Seq<char>, b: Seq<char>)
    ensures
        occurs_in(b, a + b),
        forall|n: Seq<char>| occurs_in(n, a) ==> #[trigger] occurs_in(n, a + b),
{
    assert((a + b).subrange(a.len() as int, (a + b).len() as int) =~= b);
    assert forall|n: Seq<char>| occurs_in(n, a) implies #[trigger] occurs_in(n, a + b) by {
        let i = choose|i: int|
            0 <= i && i + n.len() <= a.len() && #[trigger] a.subrange(i, i + n.len()) == n;
        assert((a + b).subrange(i, i + n.len()) =~= a.subrange(i, i + n.len()));
    }
}

proof fn lemma_all_occur(
    p0: Seq<char>,
    p1: Seq<char>,
    p2: Seq<char>,
    p3: Seq<char>,
    p4: Seq<char>,
    p5: Seq<char>,
    p6: Seq<char>,
    p7: Seq<char>,
    p8: Seq<char>,
    p9: Seq<char>,
    p10: Seq<char>,
    p11: Seq<char>,
    p12: Seq<char>,
    p13: Seq<char>,
    p14: Seq<char>,
)
    ensures
        ({
            let all = p0 + p1 + p2 + p3 + p4 + p5 + p6 + p7 + p8 + p9 + p10 + p11 + p12 + p13 + p14;
            &&& occurs_in(p0, all)
            &&& occurs_in(p1, all)
            &&& occurs_in(p2, all)
            &&& occurs_in(p3, all)
            &&& occurs_in(p4, all)
            &&& occurs_in(p5, all)
            &&& occurs_in(p6, all)
            &&& occurs_in(p7, all)
            &&& occurs_in(p8, all)
            &&& occurs_in(p9, all)
            &&& occurs_in(p10, all)
            &&& occurs_in(p11, all)
            &&& occurs_in(p12, all)
            &&& occurs_in(p13, all)
            &&& occurs_in(p14, all)
        }),
{
    let s0 = p0;
    let start: int = 0;
    assert(s0.subrange(start, start + p0.len()) =~= p0);
    let s1 = s0 + p1;
    lemma_end_occurs(s0, p1);
    let s2 = s1 + p2;
    lemma_end_occurs(s1, p2);
    let s3 = s2 + p3;
    lemma_end_occurs(s2, p3);
    let s4 = s3 + p4;
    lemma_end_occurs(s3, p4);
    let s5 = s4 + p5;
    lemma_end_occurs(s4, p5);
    let s6 = s5 + p6;
    lemma_end_occurs(s5, p6);
    let s7 = s6 + p7;
    lemma_end_occurs(s6, p7);
    let s8 = s7 + p8;
    lemma_end_occurs(s7, p8);
    let s9 = s8 + p9;
    lemma_end_occurs(s8, p9);
    let s10 = s9 + p10;
    lemma_end_occurs(s9, p10);
    let s11 = s10 + p11;
    lemma_end_occurs(s10, p11);
    let s12 = s11 + p12;
    lemma_end_occurs(s11, p12);
    let s13 = s12 + p13;
    lemma_end_occurs(s12, p13);
    let s14 = s13 + p14;
    lemma_end_occurs(s13, p14);
}

proof fn lemma_part_occurs(n: Seq<char>, part: Seq<char>, s: Seq<char>)
    requires
        occurs_in(n, part),
        occurs_in(part, s),
    ensures
        occurs_in(n, s),
{
    let i = choose|i: int|
        0 <= i && i + part.len() <= s.len() && #[trigger] s.subrange(i, i + part.len()) == part;
    let k = choose|k: int|
        0 <= k && k + n.len() <= part.len() && #[trigger] part.subrange(k, k + n.len()) == n;
    assert(s.subrange(i + k, i + k + n.len()) =~= part.subrange(k, k + n.len()));
}

/// Every number is among the metrics under its own name, and so is the version.
pub proof fn law_metrics_tell_every_number(counts: Counts, capacity: nat, version: Seq<char>)
    ensures
        ({
            let text = metrics_text(counts, capacity, version);
            &&& occurs_in("wiremesh_users"@ + " "@ + signed_decimal(counts.users as int) + "\n"@, text)
            &&& occurs_in("wiremesh_devices"@ + " "@ + signed_decimal(counts.devices as int) + "\n"@, text)
            &&& occurs_in("wiremesh_gateways"@ + "{"@ + "state"@ + "=\""@ + "online"@ + "\"} "@ + signed_decimal(counts.gateways_online as int) + "\n"@, text)
            &&& occurs_in("wiremesh_gateways"@ + "{"@ + "state"@ + "=\""@ + "stale"@ + "\"} "@ + signed_decimal(counts.gateways_stale as int) + "\n"@, text)
            &&& occurs_in("wiremesh_gateway_drift"@ + " "@ + signed_decimal(counts.gateways_drifted as int) + "\n"@, text)
            &&& occurs_in("wiremesh_client_pool_addresses"@ + "{"@ + "state"@ + "=\""@ + "capacity"@ + "\"} "@ + decimal(capacity) + "\n"@, text)
            &&& occurs_in("wiremesh_client_pool_addresses"@ + "{"@ + "state"@ + "=\""@ + "allocated"@ + "\"} "@ + signed_decimal(counts.pool_allocated as int) + "\n"@, text)
            &&& occurs_in("wiremesh_client_pool_addresses"@ + "{"@ + "state"@ + "=\""@ + "quarantined"@ + "\"} "@ + signed_decimal(counts.pool_quarantined as int) + "\n"@, text)
            &&& occurs_in("wiremesh_outdated_profiles"@ + " "@ + signed_decimal(counts.outdated_profiles as int) + "\n"@, text)
            &&& occurs_in("wiremesh_mail_jobs_pending"@ + " "@ + signed_decimal(counts.mail_jobs_pending as int) + "\n"@, text)
            &&& occurs_in("wiremesh_armed_migrations"@ + " "@ + signed_decimal(counts.armed_migrations as int) + "\n"@, text)
            &&& occurs_in("wiremesh_build_info"@ + "{"@ + "version"@ + "=\""@ + version + "\"} "@ + "1"@ + "\n"@, text)
        }),
{
    let p0 = metric("wiremesh_users"@, "Users not soft-deleted."@, counts.users as int);
    let p1 = metric("wiremesh_devices"@, "Active or revoked device records."@, counts.devices as int);
    let p2 = metric_head("wiremesh_gateways"@, "Gateway connectivity by state."@);
    let p3 = labelled_line("wiremesh_gateways"@, "state"@, "online"@, signed_decimal(counts.gateways_online as int));
    let p4 = labelled_line("wiremesh_gateways"@, "state"@, "stale"@, signed_decimal(counts.gateways_stale as int));
    let p5 = metric("wiremesh_gateway_drift"@, "Gateways whose applied revision differs from desired."@, counts.gateways_drifted as int);
    let p6 = metric_head("wiremesh_client_pool_addresses"@, "Client address-pool usage."@);
    let p7 = labelled_line("wiremesh_client_pool_addresses"@, "state"@, "capacity"@, decimal(capacity));
    let p8 = labelled_line("wiremesh_client_pool_addresses"@, "state"@, "allocated"@, signed_decimal(counts.pool_allocated as int));
    let p9 = labelled_line("wiremesh_client_pool_addresses"@, "state"@, "quarantined"@, signed_decimal(counts.pool_quarantined as int));
    let p10 = metric("wiremesh_outdated_profiles"@, "Device profiles awaiting acknowledgement."@, counts.outdated_profiles as int);
    let p11 = metric("wiremesh_mail_jobs_pending"@, "Durable email jobs waiting to be sent."@, counts.mail_jobs_pending as int);
    let p12 = metric("wiremesh_armed_migrations"@, "Scheduled subnet migrations currently armed."@, counts.armed_migrations as int);
    let p13 = metric_head("wiremesh_build_info"@, "WireMesh controller build information."@);
    let p14 = labelled_line("wiremesh_build_info"@, "version"@, version, "1"@);
    lemma_all_occur(p0, p1, p2, p3, p4, p5, p6, p7, p8, p9, p10, p11, p12, p13, p14);
    let text = metrics_text(counts, capacity, version);
    lemma_end_occurs(metric_head("wiremesh_users"@, "Users not soft-deleted."@), metric_line("wiremesh_users"@, signed_decimal(counts.users as int)));
    lemma_part_occurs(metric_line("wiremesh_users"@, signed_decimal(counts.users as int)), p0, text);
    lemma_end_occurs(metric_head("wiremesh_devices"@, "Active or revoked device records."@), metric_line("wiremesh_devices"@, signed_decimal(counts.devices as int)));
    lemma_part_occurs(metric_line("wiremesh_devices"@, signed_decimal(counts.devices as int)), p1, text);
    lemma_end_occurs(metric_head("wiremesh_gateway_drift"@, "Gateways whose applied revision differs from desired."@), metric_line("wiremesh_gateway_drift"@, signed_decimal(counts.gateways_drifted as int)));
    lemma_part_occurs(metric_line("wiremesh_gateway_drift"@, signed_decimal(counts.gateways_drifted as int)), p5, text);
    lemma_end_occurs(metric_head("wiremesh_outdated_profiles"@, "Device profiles awaiting acknowledgement."@), metric_line("wiremesh_outdated_profiles"@, signed_decimal(counts.outdated_profiles as int)));
    lemma_part_occurs(metric_line("wiremesh_outdated_profiles"@, signed_decimal(counts.outdated_profiles as int)), p10, text);
    lemma_end_occurs(metric_head("wiremesh_mail_jobs_pending"@, "Durable email jobs waiting to be sent."@), metric_line("wiremesh_mail_jobs_pending"@, signed_decimal(counts.mail_jobs_pending as int)));
    lemma_part_occurs(metric_line("wiremesh_mail_jobs_pending"@, signed_decimal(counts.mail_jobs_pending as int)), p11, text);
    lemma_end_occurs(metric_head("wiremesh_armed_migrations"@, "Scheduled subnet migrations currently armed."@), metric_line("wiremesh_armed_migrations"@, signed_decimal(counts.armed_migrations as int)));
    lemma_part_occurs(metric_line("wiremesh_armed_migrations"@, signed_decimal(counts.armed_migrations as int)), p12, text);
}
} // verus!
