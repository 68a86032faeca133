//! Sites: what they are made of, and which address plans are refused.

use vstd::prelude::*;
use vstd::string::*;

use crate::acl::AclAction;
use crate::audit::{success, AuditEntry};
use crate::config::{
    is_public_key, network_texts, networks_to_texts, validate_wireguard_public_key, ConfigError,
};
use crate::error::{
    checks, config_error, internal, internal_error, network_error, not_found, not_found_error,
    validation, validation_error, ApiError, ErrorView,
};
use crate::ids::{copy_ids, uuid_parsed, uuid_text, uuid_to_text, Uuid};
use crate::ipv4::{address_parsed, parse_address, Ipv4Net, SocketAddrV4};
use crate::json::{all_quoted, append_array, json_array, json_quoted, json_string, quote_all};
use crate::linux::{is_interface_name, valid_interface_name};
use crate::models::{CreateSiteRequest, SiteResponse, UpdateSiteRequest};
use crate::network::{
    address_count_of, routed, routes_outcome, validate_endpoint_routes, validate_gateway_routes,
    ClientPool, GatewayRoute, NetworkError,
};
use crate::protocol::{action_name, action_named, action_text, find_action, id_texts, ids_to_texts};
use crate::rows::{
    db_id, db_id_fault, db_ids, db_ids_fault, db_ids_of, db_net, db_net_fault, db_nets,
    db_nets_fault, db_nets_of, opt_str, or_fault, signed_decimal, signed_text, unless,
};
use crate::migration::RouteRow;
use crate::text::{
    any_whitespace, chars_of, copy_option, copy_text, has_whitespace, opt_text, same_text, texts,
    trim, trimmed,
};

verus! {

/// The action in a row of the database.
pub open spec fn db_action_fault(s: Seq<char>) -> Option<ErrorView> {
    unless(action_named(s) is Some, internal("invalid ACL action in database"@))
}

/// The action in a row of the database.
pub fn db_action(s: &str) -> (r: Result<AclAction, ApiError>)
    ensures
        match r {
            Ok(action) => action_named(s@) == Some(action),
            Err(e) => db_action_fault(s@) == Some(e@),
        },
{
    match find_action(s) {
        Some(action) => Ok(action),
        None => Err(internal_error("invalid ACL action in database")),
    }
}

/// What is wrong with a route in the database.
pub open spec fn db_route_fault(row: RouteRow) -> Option<ErrorView> {
    or_fault(
        db_id_fault(row.gateway_id@, "gateway"@),
        or_fault(db_id_fault(row.site_id@, "site"@), db_net_fault(row.cidr@, "site route"@)),
    )
}

/// What is wrong with the first route that something is wrong with.
pub open spec fn db_routes_fault(rows: Seq<RouteRow>) -> Option<ErrorView>
    decreases rows.len(),
{
    if rows.len() == 0 {
        None
    } else {
        or_fault(db_routes_fault(rows.drop_last()), db_route_fault(rows.last()))
    }
}

proof fn lemma_later_routes(rows: Seq<RouteRow>, i: int)
    requires
        0 <= i <= rows.len(),
        db_routes_fault(rows.take(i)) is Some,
    ensures
        db_routes_fault(rows) == db_routes_fault(rows.take(i)),
    decreases rows.len(),
{
    if i == rows.len() {
        assert(rows.take(i) =~= rows);
    } else {
        assert(rows.drop_last().take(i) =~= rows.take(i));
        lemma_later_routes(rows.drop_last(), i);
    }
}

fn read_db_route(row: &RouteRow) -> (r: Result<GatewayRoute, ApiError>)
    ensures
        match r {
            Ok(route) => db_route_fault(*row) is None && route == crate::migration::route_of(*row),
            Err(e) => db_route_fault(*row) == Some(e@),
        },
{
    let gateway_id = db_id(row.gateway_id.as_str(), "gateway")?;
    let site_id = db_id(row.site_id.as_str(), "site")?;
    let cidr = db_net(row.cidr.as_str(), "site route")?;
    Ok(GatewayRoute { gateway_id, site_id, cidr })
}

/// The routes in the database.
pub fn read_db_routes(rows: &[RouteRow]) -> (r: Result<Vec<GatewayRoute>, ApiError>)
    ensures
        match r {
            Ok(v) => db_routes_fault(rows@) is None && v@ == crate::migration::routes_of(rows@),
            Err(e) => db_routes_fault(rows@) == Some(e@),
        },
{
    let ghost goal = crate::migration::routes_of(rows@);
    let mut out: Vec<GatewayRoute> = Vec::new();
    let mut i: usize = 0;
    assert(out@ =~= goal.take(0));
    while i < rows.len()
        invariant
            i <= rows@.len(),
            goal == crate::migration::routes_of(rows@),
            db_routes_fault(rows@.take(i as int)) is None,
            out@ =~= goal.take(i as int),
        decreases rows@.len() - i,
    {
        let ghost next = rows@.take(i + 1);
        proof {
            assert(next.drop_last() =~= rows@.take(i as int));
            assert(next.last() == rows@[i as int]);
        }
        match read_db_route(&rows[i]) {
            Ok(route) => {
                out.push(route);
                assert(goal.take(i + 1) =~= goal.take(i as int).push(goal[i as int]));
            },
            Err(e) => {
                proof {
                    lemma_later_routes(rows@, i + 1);
                }
                return Err(e);
            },
        }
        i = i + 1;
    }
    assert(rows@.take(i as int) =~= rows@);
    assert(goal.take(i as int) =~= goal);
    Ok(out)
}

/// The routes of one gateway.
pub open spec fn own_routes(gateway_id: Uuid, site_id: Uuid, nets: Seq<Ipv4Net>) -> Seq<GatewayRoute> {
    nets.map_values(|cidr: Ipv4Net| GatewayRoute { gateway_id, site_id, cidr })
}

/// The routes in the database and those of one gateway.
pub open spec fn all_routes(
    rows: Seq<RouteRow>,
    gateway_id: Uuid,
    site_id: Uuid,
    nets: Seq<Ipv4Net>,
) -> Seq<GatewayRoute> {
    crate::migration::routes_of(rows) + own_routes(gateway_id, site_id, nets)
}

fn with_own_routes(rows: &[RouteRow], gateway_id: Uuid, site_id: Uuid, nets: &[Ipv4Net]) -> (r: Result<
    Vec<GatewayRoute>,
    ApiError,
>)
    ensures
        match r {
            Ok(v) => db_routes_fault(rows@) is None && v@ == all_routes(
                rows@,
                gateway_id,
                site_id,
                nets@,
            ),
            Err(e) => db_routes_fault(rows@) == Some(e@),
        },
{
    let mut out = read_db_routes(rows)?;
    let ghost before = out@;
    let ghost own = own_routes(gateway_id, site_id, nets@);
    let mut i: usize = 0;
    assert(out@ =~= before + own.take(0));
    while i < nets.len()
        invariant
            i <= nets@.len(),
            own == own_routes(gateway_id, site_id, nets@),
            out@ =~= before + own.take(i as int),
        decreases nets@.len() - i,
    {
        out.push(GatewayRoute { gateway_id, site_id, cidr: nets[i] });
        assert(own.take(i + 1) =~= own.take(i as int).push(own[i as int]));
        i = i + 1;
    }
    assert(own.take(i as int) =~= own);
    Ok(out)
}

/// Where a gateway in the database is reached.
pub struct EndpointRow {
    pub id: String,
    pub endpoint_host: String,
    pub endpoint_port: i64,
}

/// What is wrong with where a gateway in the database is reached.
pub open spec fn endpoint_fault(row: EndpointRow, replaced: Option<Uuid>) -> Option<ErrorView> {
    match uuid_parsed(row.id@) {
        Err(_) => db_id_fault(row.id@, "gateway"@),
        Ok(id) => if replaced == Some(id) || address_parsed(row.endpoint_host@) is None {
            None
        } else {
            unless(0 <= row.endpoint_port <= 65535, internal("invalid gateway port"@))
        },
    }
}

/// What is wrong with the first gateway that something is wrong with.
pub open spec fn endpoints_fault(rows: Seq<EndpointRow>, replaced: Option<Uuid>) -> Option<ErrorView>
    decreases rows.len(),
{
    if rows.len() == 0 {
        None
    } else {
        or_fault(
            endpoints_fault(rows.drop_last(), replaced),
            endpoint_fault(rows.last(), replaced),
        )
    }
}

/// The addresses at which gateways are reached, without one of them: names are left out.
pub open spec fn endpoints_of(rows: Seq<EndpointRow>, replaced: Option<Uuid>) -> Seq<SocketAddrV4>
    decreases rows.len(),
{
    if rows.len() == 0 {
        Seq::empty()
    } else {
        let before = endpoints_of(rows.drop_last(), replaced);
        let row = rows.last();
        match address_parsed(row.endpoint_host@) {
            Some(ip) => if replaced == Some(uuid_parsed(row.id@)->Ok_0) {
                before
            } else {
                before.push(SocketAddrV4 { ip, port: row.endpoint_port as u16 })
            },
            None => before,
        }
    }
}

/// The addresses at which gateways are reached, and perhaps one more.
pub open spec fn with_candidate(
    endpoints: Seq<SocketAddrV4>,
    candidate: Option<(Seq<char>, u16)>,
) -> Seq<SocketAddrV4> {
    match candidate {
        Some((host, port)) => match address_parsed(host) {
            Some(ip) => endpoints.push(SocketAddrV4 { ip, port }),
            None => endpoints,
        },
        None => endpoints,
    }
}

proof fn lemma_later_endpoints(rows: Seq<EndpointRow>, replaced: Option<Uuid>, i: int)
    requires
        0 <= i <= rows.len(),
        endpoints_fault(rows.take(i), replaced) is Some,
    ensures
        endpoints_fault(rows, replaced) == endpoints_fault(rows.take(i), replaced),
    decreases rows.len(),
{
    if i == rows.len() {
        assert(rows.take(i) =~= rows);
    } else {
        assert(rows.drop_last().take(i) =~= rows.take(i));
        lemma_later_endpoints(rows.drop_last(), replaced, i);
    }
}

fn read_endpoint(row: &EndpointRow, replaced: Option<Uuid>) -> (r: Result<
    Option<SocketAddrV4>,
    ApiError,
>)
    ensures
        match r {
            Ok(found) => {
                &&& endpoint_fault(*row, replaced) is None
                &&& found == (match address_parsed(row.endpoint_host@) {
                    Some(ip) => if replaced == Some(uuid_parsed(row.id@)->Ok_0) {
                        None
                    } else {
                        Some(SocketAddrV4 { ip, port: row.endpoint_port as u16 })
                    },
                    None => None,
                })
            },
            Err(e) => endpoint_fault(*row, replaced) == Some(e@),
        },
{
    let id = db_id(row.id.as_str(), "gateway")?;
    let skip = match replaced {
        Some(other) => other == id,
        None => false,
    };
    match parse_address(row.endpoint_host.as_str()) {
        None => Ok(None),
        Some(ip) => {
            if skip {
                return Ok(None);
            }
            if row.endpoint_port < 0 || row.endpoint_port > 65535 {
                return Err(internal_error("invalid gateway port"));
            }
            Ok(Some(SocketAddrV4 { ip, port: row.endpoint_port as u16 }))
        },
    }
}

fn read_endpoints(rows: &[EndpointRow], replaced: Option<Uuid>) -> (r: Result<
    Vec<SocketAddrV4>,
    ApiError,
>)
    ensures
        match r {
            Ok(v) => endpoints_fault(rows@, replaced) is None && v@ == endpoints_of(rows@, replaced),
            Err(e) => endpoints_fault(rows@, replaced) == Some(e@),
        },
{
    let mut out: Vec<SocketAddrV4> = Vec::new();
    let mut i: usize = 0;
    assert(out@ =~= endpoints_of(rows@.take(0), replaced));
    while i < rows.len()
        invariant
            i <= rows@.len(),
            endpoints_fault(rows@.take(i as int), replaced) is None,
            out@ =~= endpoints_of(rows@.take(i as int), replaced),
        decreases rows@.len() - i,
    {
        let ghost next = rows@.take(i + 1);
        proof {
            assert(next.drop_last() =~= rows@.take(i as int));
            assert(next.last() == rows@[i as int]);
        }
        match read_endpoint(&rows[i], replaced) {
            Ok(Some(endpoint)) => {
                out.push(endpoint);
            },
            Ok(None) => {},
            Err(e) => {
                proof {
                    lemma_later_endpoints(rows@, replaced, i + 1);
                }
                return Err(e);
            },
        }
        i = i + 1;
    }
    assert(rows@.take(i as int) =~= rows@);
    Ok(out)
}

/// Whether an error says that an address at which a gateway is reached lies in a route.
pub open spec fn endpoint_refused(
    routes: Seq<GatewayRoute>,
    endpoints: Seq<SocketAddrV4>,
    error: NetworkError,
) -> bool {
    exists|i: int|
        {
            &&& 0 <= i < endpoints.len()
            &&& error == NetworkError::EndpointInsideRoute(#[trigger] endpoints[i])
            &&& routed(routes, endpoints[i].ip)
            &&& forall|k: int| 0 <= k < i ==> !routed(routes, (#[trigger] endpoints[k]).ip)
        }
}

/// Whether no address at which a gateway is reached lies in a route.
pub open spec fn endpoints_clear(routes: Seq<GatewayRoute>, endpoints: Seq<SocketAddrV4>) -> bool {
    forall|i: int| 0 <= i < endpoints.len() ==> !routed(routes, (#[trigger] endpoints[i]).ip)
}

/// What is wrong with where the gateways are reached, and with the routes that they must not lie
/// in.
pub open spec fn endpoint_outcome(
    routes: Seq<GatewayRoute>,
    rows: Seq<EndpointRow>,
    replaced: Option<Uuid>,
    candidate: Option<(Seq<char>, u16)>,
    r: Result<(), ErrorView>,
) -> bool {
    match endpoints_fault(rows, replaced) {
        Some(e) => r == Err::<(), ErrorView>(e),
        None => {
            let endpoints = with_candidate(endpoints_of(rows, replaced), candidate);
            match r {
                Ok(_) => endpoints_clear(routes, endpoints),
                Err(e) => exists|error: NetworkError| #[trigger]
                    endpoint_refused(routes, endpoints, error) && e == validation(error.text()),
            }
        },
    }
}

/// The error of a check, by its contents.
pub open spec fn outcome(r: Result<(), ApiError>) -> Result<(), ErrorView> {
    match r {
        Ok(_) => Ok(()),
        Err(e) => Err(e@),
    }
}

/// Lets routes pass in which no gateway is reached.
pub fn validate_gateway_endpoint_routes(
    routes: &[GatewayRoute],
    rows: &[EndpointRow],
    replaced: Option<Uuid>,
    candidate: Option<(&str, u16)>,
) -> (r: Result<(), ApiError>)
    ensures
        endpoint_outcome(
            routes@,
            rows@,
            replaced,
            match candidate {
                Some((host, port)) => Some((host@, port)),
                None => None,
            },
            outcome(r),
        ),
{
    let mut endpoints = read_endpoints(rows, replaced)?;
    let ghost known = endpoints@;
    let ghost asked = match candidate {
        Some((host, port)) => Some((host@, port)),
        None => None,
    };
    if let Some((host, port)) = candidate {
        if let Some(ip) = parse_address(host) {
            endpoints.push(SocketAddrV4 { ip, port });
        }
    }
    assert(endpoints@ =~= with_candidate(known, asked));
    match validate_endpoint_routes(routes, endpoints.as_slice()) {
        Ok(_) => Ok(()),
        Err(error) => {
            assert(endpoint_refused(routes@, endpoints@, error));
            Err(network_error(&error))
        },
    }
}

/// How an address plan ends: with the first thing that is wrong with it.
pub open spec fn plan_outcome(
    pool: Ipv4Net,
    routes: Seq<GatewayRoute>,
    rows: Seq<EndpointRow>,
    replaced: Option<Uuid>,
    candidate: Option<(Seq<char>, u16)>,
    r: Result<(), ErrorView>,
) -> bool {
    let clients = ClientPool { cidr: pool };
    if address_count_of(pool) < 4 {
        r == Err::<(), ErrorView>(validation(NetworkError::PoolTooSmall.text()))
    } else {
        ||| exists|error: NetworkError| #[trigger]
            routes_outcome(clients, routes, Err(error)) && r == Err::<(), ErrorView>(
                validation(error.text()),
            )
        ||| routes_outcome(clients, routes, Ok(())) && endpoint_outcome(
            routes,
            rows,
            replaced,
            candidate,
            r,
        )
    }
}

/// Lets address plans pass: routes of different gateways do not meet, and no gateway is reached
/// through a route.
pub fn check_plan(
    pool: Ipv4Net,
    routes: &[GatewayRoute],
    rows: &[EndpointRow],
    replaced: Option<Uuid>,
    candidate: Option<(&str, u16)>,
) -> (r: Result<(), ApiError>)
    ensures
        plan_outcome(
            pool,
            routes@,
            rows@,
            replaced,
            match candidate {
                Some((host, port)) => Some((host@, port)),
                None => None,
            },
            outcome(r),
        ),
{
    let clients = match ClientPool::new(pool) {
        Ok(p) => p,
        Err(error) => return Err(network_error(&error)),
    };
    match validate_gateway_routes(clients, routes) {
        Ok(_) => {},
        Err(error) => {
            return Err(network_error(&error));
        },
    }
    validate_gateway_endpoint_routes(routes, rows, replaced, candidate)
}

/// What is wrong with the name, the routes and the address of a site.
pub open spec fn basics_fault(name: Seq<char>, routes: Seq<Ipv4Net>) -> Option<ErrorView> {
    unless(
        trimmed(name).len() > 0 && routes.len() > 0,
        validation("site name and at least one route are required"@),
    )
}

/// What is wrong with the host at which a gateway is reached.
pub open spec fn host_fault(host: Seq<char>) -> Option<ErrorView> {
    unless(
        trimmed(host).len() > 0 && !has_whitespace(host),
        validation("endpoint host is invalid"@),
    )
}

/// What is wrong with a site to be created, by itself.
pub open spec fn create_site_fault(request: CreateSiteRequest) -> Option<ErrorView> {
    or_fault(
        basics_fault(request.name@, request.routes@),
        or_fault(
            unless(
                is_interface_name(request.interface_name@),
                validation("interface name is invalid"@),
            ),
            or_fault(
                host_fault(request.endpoint_host@),
                or_fault(
                    unless(
                        request.public_port != Some(0u16) && request.listen_port != Some(0u16),
                        validation("gateway ports cannot be zero"@),
                    ),
                    match request.public_key {
                        Some(key) => unless(
                            is_public_key(key@),
                            validation(ConfigError::InvalidPublicKey.text()),
                        ),
                        None => None,
                    },
                ),
            ),
        ),
    )
}

fn check_basics(name: &str, routes: &[Ipv4Net]) -> (r: Result<(), ApiError>)
    ensures
        checks(r, basics_fault(name@, routes@)),
{
    let short = trim(name);
    if chars_of(short.as_str()).len() == 0 || routes.len() == 0 {
        Err(validation_error("site name and at least one route are required"))
    } else {
        Ok(())
    }
}

fn check_host(host: &str) -> (r: Result<(), ApiError>)
    ensures
        checks(r, host_fault(host@)),
{
    let short = trim(host);
    if chars_of(short.as_str()).len() == 0 || any_whitespace(host) {
        Err(validation_error("endpoint host is invalid"))
    } else {
        Ok(())
    }
}

/// Lets sites pass that can be created, by themselves.
pub fn check_create_site(request: &CreateSiteRequest) -> (r: Result<(), ApiError>)
    ensures
        checks(r, create_site_fault(*request)),
{
    check_basics(request.name.as_str(), request.routes.as_slice())?;
    if !valid_interface_name(request.interface_name.as_str()) {
        return Err(validation_error("interface name is invalid"));
    }
    check_host(request.endpoint_host.as_str())?;
    let public_zero = match request.public_port {
        Some(port) => port == 0,
        None => false,
    };
    let listen_zero = match request.listen_port {
        Some(port) => port == 0,
        None => false,
    };
    if public_zero || listen_zero {
        return Err(validation_error("gateway ports cannot be zero"));
    }
    if let Some(key) = &request.public_key {
        match validate_wireguard_public_key(key.as_str()) {
            Ok(_) => {},
            Err(error) => {
                return Err(config_error(&error));
            },
        }
    }
    Ok(())
}

/// The port at which a gateway is reached that nothing else was said of.
pub const DEFAULT_PORT: u16 = 51820;

/// The port at which the gateway of a new site is reached.
pub open spec fn candidate_port(request: CreateSiteRequest) -> u16 {
    match (request.public_port, request.listen_port) {
        (Some(port), _) => port,
        (None, Some(port)) => port,
        (None, None) => DEFAULT_PORT,
    }
}

/// What is wrong with the agent of a new site.
pub open spec fn agent_fault(request: CreateSiteRequest, agent_kind: Option<Seq<char>>) -> Option<
    ErrorView,
> {
    if request.agent_id is None {
        None
    } else {
        match agent_kind {
            None => Some(validation("assigned agent does not exist"@)),
            Some(kind) => unless(
                kind == request.gateway_kind.name(),
                validation("gateway and assigned agent kinds must match"@),
            ),
        }
    }
}

/// Lets agents pass that can drive the gateway of a new site.
pub fn check_agent(request: &CreateSiteRequest, agent_kind: Option<&str>) -> (r: Result<
    (),
    ApiError,
>)
    ensures
        checks(r, agent_fault(*request, opt_str(agent_kind))),
{
    if request.agent_id.is_none() {
        return Ok(());
    }
    match agent_kind {
        None => Err(validation_error("assigned agent does not exist")),
        Some(kind) => if same_text(kind, request.gateway_kind.as_str()) {
            Ok(())
        } else {
            Err(validation_error("gateway and assigned agent kinds must match"))
        },
    }
}

/// A site and its gateway to be written to the database.
pub struct NewSite {
    pub site_id: Uuid,
    pub gateway_id: Uuid,
    pub name: String,
    pub acl_default: &'static str,
    pub kind: &'static str,
    pub status: &'static str,
    pub agent_id: Option<Uuid>,
    pub interface_name: String,
    pub endpoint_host: String,
    pub public_port: Option<u16>,
    pub listen_port: Option<u16>,
    pub public_key: Option<String>,
    pub compatibility_address: bool,
    pub routes: Vec<String>,
    pub granted_group_ids: Vec<Uuid>,
    pub audit: AuditEntry,
    pub details_json: String,
}

/// What is written down of a new site.
pub open spec fn create_details(gateway_id: Uuid, routes: Seq<Ipv4Net>) -> Seq<char> {
    "{\"gateway_id\":"@ + json_quoted(uuid_text(gateway_id)) + ",\"routes\":"@ + json_array(
        all_quoted(network_texts(routes)),
    ) + "}"@
}

/// Whether a site to be written is the one that was asked for: the name and the host without the
/// white space around them, and everything else as it was given. Its gateway is ready at once
/// where its key is known.
pub open spec fn is_new_site(s: NewSite, request: CreateSiteRequest, site_id: Uuid, gateway_id: Uuid) -> bool {
    &&& s.site_id == site_id
    &&& s.gateway_id == gateway_id
    &&& s.name@ == trimmed(request.name@)
    &&& s.acl_default@ == action_text(request.acl_default)
    &&& s.kind@ == request.gateway_kind.name()
    &&& s.status@ == (if request.public_key is Some {
        "ready"@
    } else {
        "provisioning"@
    })
    &&& s.agent_id == request.agent_id
    &&& s.interface_name@ == request.interface_name@
    &&& s.endpoint_host@ == trimmed(request.endpoint_host@)
    &&& s.public_port == request.public_port
    &&& s.listen_port == request.listen_port
    &&& opt_text(s.public_key) == opt_text(request.public_key)
    &&& s.compatibility_address == request.compatibility_address
    &&& s.granted_group_ids@ == request.granted_group_ids@
    &&& texts(s.routes@) == network_texts(request.routes@)
    &&& s.audit.says(None, "system"@, "site.create"@, "site"@, Some(site_id), "success"@)
    &&& s.details_json@ == create_details(gateway_id, request.routes@)
}

/// What is known of the other sites and their gateways.
pub struct SiteSources {
    pub client_pool: Ipv4Net,
    pub routes: Vec<RouteRow>,
    pub endpoints: Vec<EndpointRow>,
}

/// The site that a request asks for: it is refused where it is wrong by itself, where its routes
/// meet those of another gateway, where a gateway would be reached through a route, or where its
/// agent cannot drive its gateway.
pub fn create_site(
    request: &CreateSiteRequest,
    site_id: Uuid,
    gateway_id: Uuid,
    sources: &SiteSources,
    agent_kind: Option<&str>,
) -> (r: Result<NewSite, ApiError>)
    ensures
        match or_fault(create_site_fault(*request), db_routes_fault(sources.routes@)) {
            Some(e) => r matches Err(f) && f@ == e,
            None => {
                let routes = all_routes(
                    sources.routes@,
                    gateway_id,
                    site_id,
                    request.routes@,
                );
                let candidate = Some(
                    (trimmed(request.endpoint_host@), candidate_port(*request)),
                );
                match r {
                    Ok(s) => {
                        &&& plan_outcome(
                            sources.client_pool,
                            routes,
                            sources.endpoints@,
                            None,
                            candidate,
                            Ok(()),
                        )
                        &&& agent_fault(*request, opt_str(agent_kind)) is None
                        &&& is_new_site(s, *request, site_id, gateway_id)
                    },
                    Err(e) => {
                        ||| plan_outcome(
                            sources.client_pool,
                            routes,
                            sources.endpoints@,
                            None,
                            candidate,
                            Err(e@),
                        )
                        ||| plan_outcome(
                            sources.client_pool,
                            routes,
                            sources.endpoints@,
                            None,
                            candidate,
                            Ok(()),
                        ) && agent_fault(*request, opt_str(agent_kind)) == Some(e@)
                    },
                }
            },
        },
{
    check_create_site(request)?;
    let routes = with_own_routes(
        sources.routes.as_slice(),
        gateway_id,
        site_id,
        request.routes.as_slice(),
    )?;
    let host = trim(request.endpoint_host.as_str());
    let port = match request.public_port {
        Some(port) => port,
        None => match request.listen_port {
            Some(port) => port,
            None => DEFAULT_PORT,
        },
    };
    check_plan(
        sources.client_pool,
        routes.as_slice(),
        sources.endpoints.as_slice(),
        None,
        Some((host.as_str(), port)),
    )?;
    check_agent(request, agent_kind)?;
    let route_texts = networks_to_texts(request.routes.as_slice());
    let mut details_json = String::from_str("{\"gateway_id\":").concat(
        json_string(uuid_to_text(gateway_id).as_str()).as_str(),
    ).concat(",\"routes\":");
    append_array(&mut details_json, quote_all(route_texts.as_slice()).as_slice());
    details_json.append("}");
    Ok(
        NewSite {
            site_id,
            gateway_id,
            name: trim(request.name.as_str()),
            acl_default: action_name(request.acl_default),
            kind: request.gateway_kind.as_str(),
            status: if request.public_key.is_some() {
                "ready"
            } else {
                "provisioning"
            },
            agent_id: request.agent_id,
            interface_name: copy_text(&request.interface_name),
            endpoint_host: host,
            public_port: request.public_port,
            listen_port: request.listen_port,
            public_key: copy_option(&request.public_key),
            compatibility_address: request.compatibility_address,
            routes: route_texts,
            granted_group_ids: copy_ids(request.granted_group_ids.as_slice()),
            audit: success(None, "system", "site.create", "site", Some(site_id)),
            details_json,
        },
    )
}

/// The gateway of a site that is changed.
pub struct SiteGatewayRow {
    pub id: String,
    pub listen_port: i64,
}

/// What is wrong with a change of a site, by itself.
pub open spec fn update_site_fault(request: UpdateSiteRequest) -> Option<ErrorView> {
    or_fault(
        basics_fault(request.name@, request.routes@),
        or_fault(
            host_fault(request.endpoint_host@),
            unless(
                request.public_port != Some(0u16),
                validation("gateway port cannot be zero"@),
            ),
        ),
    )
}

/// Lets changes of a site pass, by themselves.
pub fn check_update_site(request: &UpdateSiteRequest) -> (r: Result<(), ApiError>)
    ensures
        checks(r, update_site_fault(*request)),
{
    check_basics(request.name.as_str(), request.routes.as_slice())?;
    check_host(request.endpoint_host.as_str())?;
    let zero = match request.public_port {
        Some(port) => port == 0,
        None => false,
    };
    if zero {
        Err(validation_error("gateway port cannot be zero"))
    } else {
        Ok(())
    }
}

/// What is wrong with the gateway of a site that is changed.
pub open spec fn site_gateway_fault(gateway: Option<SiteGatewayRow>) -> Option<ErrorView> {
    match gateway {
        None => Some(not_found("site does not exist"@)),
        Some(g) => or_fault(
            db_id_fault(g.id@, "gateway"@),
            unless(0 <= g.listen_port <= 65535, internal("invalid gateway listen port"@)),
        ),
    }
}

/// What a change of a site writes.
pub struct SiteUpdate {
    pub gateway_id: Uuid,
    pub name: String,
    pub acl_default: &'static str,
    pub endpoint_host: String,
    pub public_port: Option<u16>,
    pub compatibility_address: bool,
    pub routes: Vec<String>,
    pub granted_group_ids: Vec<Uuid>,
    pub audit: AuditEntry,
    pub details_json: String,
}

/// What is written down of a change of a site.
pub open spec fn update_details(routes: Seq<Ipv4Net>, groups: Seq<Uuid>) -> Seq<char> {
    "{\"groups\":"@ + json_array(all_quoted(id_texts(groups))) + ",\"routes\":"@ + json_array(
        all_quoted(network_texts(routes)),
    ) + "}"@
}

/// Whether a change of a site is the one that was asked for.
pub open spec fn is_site_update(
    u: SiteUpdate,
    request: UpdateSiteRequest,
    site_id: Uuid,
    gateway: SiteGatewayRow,
) -> bool {
    &&& uuid_parsed(gateway.id@) == Ok::<Uuid, Seq<char>>(u.gateway_id)
    &&& u.name@ == trimmed(request.name@)
    &&& u.acl_default@ == action_text(request.acl_default)
    &&& u.endpoint_host@ == trimmed(request.endpoint_host@)
    &&& u.public_port == request.public_port
    &&& u.compatibility_address == request.compatibility_address
    &&& u.granted_group_ids@ == request.granted_group_ids@
    &&& texts(u.routes@) == network_texts(request.routes@)
    &&& u.audit.says(None, "system"@, "site.update"@, "site"@, Some(site_id), "success"@)
    &&& u.details_json@ == update_details(request.routes@, request.granted_group_ids@)
}

/// The port at which the gateway of a changed site is reached.
pub open spec fn update_port(request: UpdateSiteRequest, gateway: SiteGatewayRow) -> u16 {
    match request.public_port {
        Some(port) => port,
        None => gateway.listen_port as u16,
    }
}

/// What a change of a site writes: it is refused for what a new site is refused for. The routes
/// in `sources` are those of the other sites.
pub fn update_site(
    request: &UpdateSiteRequest,
    site_id: Uuid,
    gateway: &Option<SiteGatewayRow>,
    sources: &SiteSources,
) -> (r: Result<SiteUpdate, ApiError>)
    ensures
        match or_fault(
            update_site_fault(*request),
            or_fault(site_gateway_fault(*gateway), db_routes_fault(sources.routes@)),
        ) {
            Some(e) => r matches Err(f) && f@ == e,
            None => {
                let g = gateway->0;
                let gateway_id = uuid_parsed(g.id@)->Ok_0;
                let routes = all_routes(
                    sources.routes@,
                    gateway_id,
                    site_id,
                    request.routes@,
                );
                let candidate = Some(
                    (trimmed(request.endpoint_host@), update_port(*request, g)),
                );
                match r {
                    Ok(u) => {
                        &&& plan_outcome(
                            sources.client_pool,
                            routes,
                            sources.endpoints@,
                            Some(gateway_id),
                            candidate,
                            Ok(()),
                        )
                        &&& is_site_update(u, *request, site_id, g)
                    },
                    Err(e) => plan_outcome(
                        sources.client_pool,
                        routes,
                        sources.endpoints@,
                        Some(gateway_id),
                        candidate,
                        Err(e@),
                    ),
                }
            },
        },
{
    check_update_site(request)?;
    let found = match gateway {
        Some(g) => g,
        None => return Err(not_found_error("site does not exist")),
    };
    let gateway_id = db_id(found.id.as_str(), "gateway")?;
    if found.listen_port < 0 || found.listen_port > 65535 {
        return Err(internal_error("invalid gateway listen port"));
    }
    let routes = with_own_routes(
        sources.routes.as_slice(),
        gateway_id,
        site_id,
        request.routes.as_slice(),
    )?;
    let host = trim(request.endpoint_host.as_str());
    let port = match request.public_port {
        Some(port) => port,
        None => found.listen_port as u16,
    };
    check_plan(
        sources.client_pool,
        routes.as_slice(),
        sources.endpoints.as_slice(),
        Some(gateway_id),
        Some((host.as_str(), port)),
    )?;
    let route_texts = networks_to_texts(request.routes.as_slice());
    let group_texts = ids_to_texts(request.granted_group_ids.as_slice());
    let mut details_json = String::from_str("{\"groups\":");
    append_array(&mut details_json, quote_all(group_texts.as_slice()).as_slice());
    details_json.append(",\"routes\":");
    append_array(&mut details_json, quote_all(route_texts.as_slice()).as_slice());
    details_json.append("}");
    Ok(
        SiteUpdate {
            gateway_id,
            name: trim(request.name.as_str()),
            acl_default: action_name(request.acl_default),
            endpoint_host: host,
            public_port: request.public_port,
            compatibility_address: request.compatibility_address,
            routes: route_texts,
            granted_group_ids: copy_ids(request.granted_group_ids.as_slice()),
            audit: success(None, "system", "site.update", "site", Some(site_id)),
            details_json,
        },
    )
}

/// Whatever an accepted plan looks like, no literal address at which a gateway is reached lies in
/// a network that clients route into the tunnel, and routes of different gateways do not meet.
pub proof fn law_accepted_plans_are_safe(
    pool: Ipv4Net,
    routes: Seq<GatewayRoute>,
    rows: Seq<EndpointRow>,
    replaced: Option<Uuid>,
    candidate: Option<(Seq<char>, u16)>,
)
    requires
        plan_outcome(pool, routes, rows, replaced, candidate, Ok(())),
    ensures
        endpoints_clear(routes, with_candidate(endpoints_of(rows, replaced), candidate)),
        forall|i: int, j: int|
            0 <= i < j < routes.len() && routes[i].gateway_id != routes[j].gateway_id
                ==> !crate::network::overlap(
                #[trigger] routes[i].cidr,
                #[trigger] routes[j].cidr,
            ),
{
    assert forall|i: int, j: int|
        0 <= i < j < routes.len() && routes[i].gateway_id
            != routes[j].gateway_id implies !crate::network::overlap(
        #[trigger] routes[i].cidr,
        #[trigger] routes[j].cidr,
    ) by {
        assert(!crate::network::cross_conflict(routes, i, j));
    }
}

/// A site and its gateway in the database.
pub struct SiteRow {
    pub name: String,
    pub acl_default: String,
    pub gateway_id: String,
    pub kind: String,
    pub status: String,
    pub interface_name: String,
    pub endpoint_host: String,
    pub public_port: Option<i64>,
    pub listen_port: Option<i64>,
    pub public_key: Option<String>,
    pub compatibility_address: bool,
    pub desired_revision: i64,
    pub applied_revision: i64,
    pub last_seen_at: Option<String>,
    pub last_error: Option<String>,
}

/// What is wrong with a site in the database.
pub open spec fn site_row_fault(
    row: Option<SiteRow>,
    routes: Seq<Seq<char>>,
    grants: Seq<Seq<char>>,
) -> Option<ErrorView> {
    match row {
        None => Some(not_found("site does not exist"@)),
        Some(s) => or_fault(
            db_nets_fault(routes, "site route"@),
            or_fault(
                db_ids_fault(grants, "site grant group"@),
                or_fault(db_action_fault(s.acl_default@), db_id_fault(s.gateway_id@, "gateway"@)),
            ),
        ),
    }
}

/// The port at which a gateway is reached: the public one, or else the one that it listens on.
pub open spec fn reached_port(public_port: Option<i64>, listen_port: Option<i64>) -> Option<i64> {
    match public_port {
        Some(port) => Some(port),
        None => listen_port,
    }
}

/// Where a gateway is reached.
pub open spec fn endpoint_of(
    host: Seq<char>,
    public_port: Option<i64>,
    listen_port: Option<i64>,
) -> Option<Seq<char>> {
    match reached_port(public_port, listen_port) {
        Some(port) => Some(host + ":"@ + signed_decimal(port as int)),
        None => None,
    }
}

/// Where a gateway is reached.
pub fn endpoint_text(host: &String, public_port: Option<i64>, listen_port: Option<i64>) -> (r: Option<
    String,
>)
    ensures
        opt_text(r) == endpoint_of(host@, public_port, listen_port),
{
    let port = match public_port {
        Some(port) => Some(port),
        None => listen_port,
    };
    match port {
        Some(number) => Some(
            copy_text(host).concat(":").concat(signed_text(number).as_str()),
        ),
        None => None,
    }
}

/// A port in a row, cut down to 16 bits.
pub open spec fn port_of(port: Option<i64>) -> Option<u16> {
    match port {
        Some(p) => Some(p as u16),
        None => None,
    }
}

fn cut_port(port: Option<i64>) -> (r: Option<u16>)
    ensures
        r == port_of(port),
{
    match port {
        Some(p) => Some(#[verifier::truncate] (p as u16)),
        None => None,
    }
}

/// Whether a response tells of a site in the database.
pub open spec fn tells_site(
    r: SiteResponse,
    id: Uuid,
    s: SiteRow,
    routes: Seq<Seq<char>>,
    grants: Seq<Seq<char>>,
) -> bool {
    &&& r.id == id
    &&& r.name@ == s.name@
    &&& r.routes@ == db_nets_of(routes)
    &&& action_named(s.acl_default@) == Some(r.acl_default)
    &&& uuid_parsed(s.gateway_id@) == Ok::<Uuid, Seq<char>>(r.gateway_id)
    &&& r.gateway_kind@ == s.kind@
    &&& r.gateway_status@ == s.status@
    &&& r.interface_name@ == s.interface_name@
    &&& r.endpoint_host@ == s.endpoint_host@
    &&& r.public_port == port_of(s.public_port)
    &&& r.listen_port == port_of(s.listen_port)
    &&& opt_text(r.endpoint) == endpoint_of(s.endpoint_host@, s.public_port, s.listen_port)
    &&& opt_text(r.public_key) == opt_text(s.public_key)
    &&& r.compatibility_address == s.compatibility_address
    &&& r.granted_group_ids@ == db_ids_of(grants)
    &&& r.desired_revision == s.desired_revision as u64
    &&& r.applied_revision == s.applied_revision as u64
    &&& opt_text(r.last_seen_at) == opt_text(s.last_seen_at)
    &&& opt_text(r.last_error) == opt_text(s.last_error)
}

/// What is told of a site.
pub fn get_site(id: Uuid, row: &Option<SiteRow>, routes: &[String], grants: &[String]) -> (r: Result<
    SiteResponse,
    ApiError,
>)
    ensures
        match r {
            Ok(s) => {
                &&& site_row_fault(*row, texts(routes@), texts(grants@)) is None
                &&& tells_site(s, id, row->0, texts(routes@), texts(grants@))
            },
            Err(e) => site_row_fault(*row, texts(routes@), texts(grants@)) == Some(e@),
        },
{
    let s = match row {
        Some(s) => s,
        None => return Err(not_found_error("site does not exist")),
    };
    let nets = db_nets(routes, "site route")?;
    let granted_group_ids = db_ids(grants, "site grant group")?;
    let acl_default = db_action(s.acl_default.as_str())?;
    let gateway_id = db_id(s.gateway_id.as_str(), "gateway")?;
    Ok(
        SiteResponse {
            id,
            name: copy_text(&s.name),
            routes: nets,
            acl_default,
            gateway_id,
            gateway_kind: copy_text(&s.kind),
            gateway_status: copy_text(&s.status),
            interface_name: copy_text(&s.interface_name),
            endpoint_host: copy_text(&s.endpoint_host),
            public_port: cut_port(s.public_port),
            listen_port: cut_port(s.listen_port),
            endpoint: endpoint_text(&s.endpoint_host, s.public_port, s.listen_port),
            public_key: copy_option(&s.public_key),
            compatibility_address: s.compatibility_address,
            granted_group_ids,
            desired_revision: #[verifier::truncate] (s.desired_revision as u64),
            applied_revision: #[verifier::truncate] (s.applied_revision as u64),
            last_seen_at: copy_option(&s.last_seen_at),
            last_error: copy_option(&s.last_error),
        },
    )
}

} // verus!
