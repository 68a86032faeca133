//! Moving all clients to another pool of addresses at an appointed time.

use std::collections::{BTreeMap, BTreeSet};

use vstd::prelude::*;
use vstd::string::*;

use crate::audit::{success, user_did, AuditEntry};
use crate::desired::{address_fault, net_fault, parse_net, stored_address};
use crate::error::{
    checks, conflict, conflict_error, internal, internal_error, network_error, not_found,
    not_found_error, validation, validation_error, ApiError, ErrorView,
};
use crate::ids::{uuid_parsed, uuid_text, uuid_to_text, Uuid};
use crate::ipv4::{address_parsed, network_parsed, Ipv4Addr, Ipv4Net};
use crate::json::{json_quoted, json_string};
use crate::models::SubnetMigrationResponse;
use crate::network::{
    address_count_of, routes_outcome, validate_gateway_routes, ClientPool, GatewayRoute,
    NetworkError,
};
use crate::rows::{net_of, opt_str, or_fault, plain_id, plain_id_fault, unless};
use crate::sets::{get_for_id, put_for_id};
use crate::state::{canonical, DesiredGatewayState, DesiredPeer, PeerView, StateView};
use crate::text::{
    copy_text, decimal, decimal_text, is_text_no_later, same_text, text_no_later,
};
use crate::time::{parse_time, read_time, render_time, time_fault, time_text, timestamp_in, Timestamp};

verus! {

/// The move of a device to another address.
#[derive(Debug, Clone, Copy, PartialEq, Eq, Structural)]
pub struct AddressMove {
    pub device_id: Uuid,
    pub old_address: Ipv4Addr,
    pub new_address: Ipv4Addr,
}

/// What a gateway is asked to be after a migration, and the state that this goes out from.
#[derive(Debug, Clone)]
pub struct FutureGateway {
    pub base_revision: u64,
    pub state: DesiredGatewayState,
}

/// All that a migration changes.
#[derive(Debug, Clone)]
pub struct MigrationPlan {
    pub addresses: Vec<AddressMove>,
    pub gateways: BTreeMap<Uuid, FutureGateway>,
}

/// A route in the database.
pub struct RouteRow {
    pub gateway_id: String,
    pub site_id: String,
    pub cidr: String,
}

/// A device in the database, by its address.
pub struct LeaseRow {
    pub id: String,
    pub vpn_address: String,
}

/// A gateway in the database, and what it is asked to be.
pub struct GatewayStateRow {
    pub id: String,
    pub kind: String,
    pub compatibility_address: bool,
    pub desired_revision: i64,
    pub state: DesiredGatewayState,
}

/// What is wrong with the time for which a migration is asked.
pub open spec fn schedule_fault(effective_at: Seq<char>, now: Timestamp) -> Option<ErrorView> {
    match timestamp_in(effective_at) {
        None => Some(validation("effective_at must be an RFC 3339 timestamp"@)),
        Some(at) => unless(
            at.secs > now.secs + 30 || (at.secs == now.secs + 30 && at.nanos > now.nanos),
            validation("migration must be scheduled at least 30 seconds in the future"@),
        ),
    }
}

/// The time for which a migration is asked: at least half a minute from now.
pub fn check_schedule(effective_at: &str, now: Timestamp) -> (r: Result<Timestamp, ApiError>)
    ensures
        match r {
            Ok(at) => schedule_fault(effective_at@, now) is None && timestamp_in(effective_at@)
                == Some(at),
            Err(e) => schedule_fault(effective_at@, now) == Some(e@),
        },
{
    let at = match parse_time(effective_at) {
        Some(at) => at,
        None => return Err(validation_error("effective_at must be an RFC 3339 timestamp")),
    };
    let soonest = now.secs as i128 + 30;
    let asked = at.secs as i128;
    if asked > soonest || (asked == soonest && at.nanos > now.nanos) {
        Ok(at)
    } else {
        Err(validation_error("migration must be scheduled at least 30 seconds in the future"))
    }
}

/// What is wrong with the pools between which clients are moved.
pub open spec fn pools_fault(active: i64, old: Ipv4Net, new: Ipv4Net) -> Option<ErrorView> {
    if active > 0 {
        Some(conflict("another subnet migration is already active"@))
    } else if address_count_of(old) < 4 || address_count_of(new) < 4 {
        Some(validation(NetworkError::PoolTooSmall.text()))
    } else if old == new {
        Some(validation("new pool is unchanged"@))
    } else if (ClientPool { cidr: old }).expands_to(ClientPool { cidr: new }) {
        Some(
            validation(
                "containing-supernet changes are in-place expansions, not hard migrations"@,
            ),
        )
    } else {
        None
    }
}

/// Lets pools pass between which clients can be moved.
pub fn check_pools(active: i64, old: Ipv4Net, new: Ipv4Net) -> (r: Result<ClientPool, ApiError>)
    ensures
        match r {
            Ok(pool) => pools_fault(active, old, new) is None && pool.cidr == new && pool.wf(),
            Err(e) => pools_fault(active, old, new) == Some(e@),
        },
{
    if active > 0 {
        return Err(conflict_error("another subnet migration is already active"));
    }
    let old_pool = match ClientPool::new(old) {
        Ok(pool) => pool,
        Err(error) => return Err(network_error(&error)),
    };
    let new_pool = match ClientPool::new(new) {
        Ok(pool) => pool,
        Err(error) => return Err(network_error(&error)),
    };
    if old == new {
        return Err(validation_error("new pool is unchanged"));
    }
    if old_pool.validate_expansion(new_pool).is_ok() {
        return Err(
            validation_error(
                "containing-supernet changes are in-place expansions, not hard migrations",
            ),
        );
    }
    Ok(new_pool)
}

/// What is wrong with a route in the database.
pub open spec fn route_fault(row: RouteRow) -> Option<ErrorView> {
    or_fault(
        plain_id_fault(row.gateway_id@),
        or_fault(plain_id_fault(row.site_id@), net_fault(row.cidr@, "route"@)),
    )
}

/// The route in a row.
pub open spec fn route_of(row: RouteRow) -> GatewayRoute {
    GatewayRoute {
        gateway_id: uuid_parsed(row.gateway_id@)->Ok_0,
        site_id: uuid_parsed(row.site_id@)->Ok_0,
        cidr: net_of(row.cidr@),
    }
}

/// What is wrong with the first route that something is wrong with.
pub open spec fn routes_fault(rows: Seq<RouteRow>) -> Option<ErrorView>
    decreases rows.len(),
{
    if rows.len() == 0 {
        None
    } else {
        or_fault(routes_fault(rows.drop_last()), route_fault(rows.last()))
    }
}

/// The routes in some rows.
pub open spec fn routes_of(rows: Seq<RouteRow>) -> Seq<GatewayRoute> {
    rows.map_values(|row: RouteRow| route_of(row))
}

proof fn lemma_later_routes(rows: Seq<RouteRow>, i: int)
    requires
        0 <= i <= rows.len(),
        routes_fault(rows.take(i)) is Some,
    ensures
        routes_fault(rows) == routes_fault(rows.take(i)),
    decreases rows.len(),
{
    if i == rows.len() {
        assert(rows.take(i) =~= rows);
    } else {
        assert(rows.drop_last().take(i) =~= rows.take(i));
        lemma_later_routes(rows.drop_last(), i);
    }
}

fn read_route(row: &RouteRow) -> (r: Result<GatewayRoute, ApiError>)
    ensures
        match r {
            Ok(route) => route_fault(*row) is None && route == route_of(*row),
            Err(e) => route_fault(*row) == Some(e@),
        },
{
    let gateway_id = plain_id(row.gateway_id.as_str())?;
    let site_id = plain_id(row.site_id.as_str())?;
    let cidr = parse_net(row.cidr.as_str(), "route")?;
    Ok(GatewayRoute { gateway_id, site_id, cidr })
}

/// The routes in some rows.
pub fn read_routes(rows: &[RouteRow]) -> (r: Result<Vec<GatewayRoute>, ApiError>)
    ensures
        match r {
            Ok(v) => routes_fault(rows@) is None && v@ == routes_of(rows@),
            Err(e) => routes_fault(rows@) == Some(e@),
        },
{
    let ghost goal = routes_of(rows@);
    let mut out: Vec<GatewayRoute> = Vec::new();
    let mut i: usize = 0;
    assert(out@ =~= goal.take(0));
    while i < rows.len()
        invariant
            i <= rows@.len(),
            goal == routes_of(rows@),
            routes_fault(rows@.take(i as int)) is None,
            out@ =~= goal.take(i as int),
        decreases rows@.len() - i,
    {
        let ghost next = rows@.take(i + 1);
        proof {
            assert(next.drop_last() =~= rows@.take(i as int));
            assert(next.last() == rows@[i as int]);
        }
        match read_route(&rows[i]) {
            Ok(route) => {
                out.push(route);
                assert(goal.take(i + 1) =~= goal.take(i as int).push(goal[i as int]));
            },
            Err(e) => {
                proof {
                    lemma_later_routes(rows@, i + 1);
                }
                return Err(e);
            },
        }
        i = i + 1;
    }
    assert(rows@.take(i as int) =~= rows@);
    assert(goal.take(i as int) =~= goal);
    Ok(out)
}

/// What is wrong with a device at a place in the order of the move: the pool has no address left
/// for it, or it is unreadable.
pub open spec fn move_fault(pool: ClientPool, row: LeaseRow, place: int) -> Option<ErrorView> {
    or_fault(
        unless(
            pool.cidr.first() + 2 + place < pool.cidr.last(),
            validation(NetworkError::PoolExhausted.text()),
        ),
        or_fault(plain_id_fault(row.id@), address_fault(row.vpn_address@, "device address"@)),
    )
}

/// The move of a device at a place in the order: it gets the address at that place of the pool.
pub open spec fn move_of(pool: ClientPool, row: LeaseRow, place: int) -> AddressMove {
    AddressMove {
        device_id: uuid_parsed(row.id@)->Ok_0,
        old_address: address_parsed(row.vpn_address@)->0,
        new_address: (pool.cidr.first() + 2 + place) as u32,
    }
}

/// What is wrong with the first device that something is wrong with.
pub open spec fn moves_fault(pool: ClientPool, rows: Seq<LeaseRow>) -> Option<ErrorView>
    decreases rows.len(),
{
    if rows.len() == 0 {
        None
    } else {
        or_fault(
            moves_fault(pool, rows.drop_last()),
            move_fault(pool, rows.last(), rows.len() - 1),
        )
    }
}

/// The moves of all devices.
pub open spec fn moves_of(pool: ClientPool, rows: Seq<LeaseRow>) -> Seq<AddressMove> {
    rows.map(|i: int, row: LeaseRow| move_of(pool, row, i))
}

proof fn lemma_later_moves(pool: ClientPool, rows: Seq<LeaseRow>, i: int)
    requires
        0 <= i <= rows.len(),
        moves_fault(pool, rows.take(i)) is Some,
    ensures
        moves_fault(pool, rows) == moves_fault(pool, rows.take(i)),
    decreases rows.len(),
{
    if i == rows.len() {
        assert(rows.take(i) =~= rows);
    } else {
        assert(rows.drop_last().take(i) =~= rows.take(i));
        lemma_later_moves(pool, rows.drop_last(), i);
    }
}

fn occupy(set: &mut BTreeSet<Ipv4Addr>, address: Ipv4Addr)
    ensures
        final(set)@ == old(set)@.insert(address),
{
    broadcast use vstd::laws_cmp::group_laws_cmp;

    set.insert(address);
}

fn read_move(row: &LeaseRow, new_address: Ipv4Addr) -> (r: Result<AddressMove, ApiError>)
    ensures
        match r {
            Ok(m) => {
                &&& plain_id_fault(row.id@) is None
                &&& address_fault(row.vpn_address@, "device address"@) is None
                &&& uuid_parsed(row.id@) == Ok::<Uuid, Seq<char>>(m.device_id)
                &&& address_parsed(row.vpn_address@) == Some(m.old_address)
                &&& m.new_address == new_address
            },
            Err(e) => or_fault(
                plain_id_fault(row.id@),
                address_fault(row.vpn_address@, "device address"@),
            ) == Some(e@),
        },
{
    let device_id = plain_id(row.id.as_str())?;
    let old_address = stored_address(row.vpn_address.as_str(), "device address")?;
    Ok(AddressMove { device_id, old_address, new_address })
}

/// The moves of all devices into a pool, in their order.
pub fn plan_moves(pool: ClientPool, rows: &[LeaseRow]) -> (r: Result<Vec<AddressMove>, ApiError>)
    requires
        pool.wf(),
    ensures
        match r {
            Ok(v) => moves_fault(pool, rows@) is None && v@ == moves_of(pool, rows@),
            Err(e) => moves_fault(pool, rows@) == Some(e@),
        },
{
    let ghost goal = moves_of(pool, rows@);
    let ghost first = pool.cidr.first() + 2;
    let mut occupied: BTreeSet<Ipv4Addr> = BTreeSet::new();
    let mut out: Vec<AddressMove> = Vec::new();
    let mut i: usize = 0;
    proof {
        crate::ipv4::lemma_block(pool.cidr.base(), pool.cidr.bits());
    }
    assert(out@ =~= goal.take(0));
    while i < rows.len()
        invariant
            i <= rows@.len(),
            goal == moves_of(pool, rows@),
            first == pool.cidr.first() + 2,
            0 <= pool.cidr.first() <= pool.cidr.last() <= u32::MAX,
            i == 0 || first + i - 1 < pool.cidr.last(),
            moves_fault(pool, rows@.take(i as int)) is None,
            out@ =~= goal.take(i as int),
            forall|a: u32| #[trigger] occupied@.contains(a) == (first <= a < first + i),
        decreases rows@.len() - i,
    {
        let ghost next = rows@.take(i + 1);
        proof {
            assert(next.drop_last() =~= rows@.take(i as int));
            assert(next.last() == rows@[i as int]);
        }
        let new_address = match pool.allocate(&occupied) {
            Ok(address) => {
                proof {
                    if address > first + i {
                        let lower = (first + i) as u32;
                        assert(pool.allocatable(lower));
                        assert(occupied@.contains(lower));
                    }
                    assert(address == first + i);
                }
                address
            },
            Err(error) => {
                proof {
                    if first + i < pool.cidr.last() {
                        let a = (first + i) as u32;
                        assert(pool.allocatable(a));
                        assert(occupied@.contains(a));
                    }
                    lemma_later_moves(pool, rows@, i + 1);
                }
                return Err(network_error(&error));
            },
        };
        occupy(&mut occupied, new_address);
        match read_move(&rows[i], new_address) {
            Ok(movement) => {
                out.push(movement);
                assert(goal[i as int] == movement);
                assert(goal.take(i + 1) =~= goal.take(i as int).push(goal[i as int]));
            },
            Err(e) => {
                proof {
                    lemma_later_moves(pool, rows@, i + 1);
                }
                return Err(e);
            },
        }
        i = i + 1;
    }
    assert(rows@.take(i as int) =~= rows@);
    assert(goal.take(i as int) =~= goal);
    Ok(out)
}

/// No two devices are moved to the same address, and none to a reserved one.
pub proof fn law_moves_do_not_collide(pool: ClientPool, rows: Seq<LeaseRow>, i: int, j: int)
    requires
        pool.wf(),
        moves_fault(pool, rows) is None,
        0 <= i < j < rows.len(),
    ensures
        moves_of(pool, rows)[i].new_address != moves_of(pool, rows)[j].new_address,
        pool.allocatable(moves_of(pool, rows)[i].new_address),
        pool.allocatable(moves_of(pool, rows)[j].new_address),
{
    crate::ipv4::lemma_block(pool.cidr.base(), pool.cidr.bits());
    lemma_room(pool, rows, i);
    lemma_room(pool, rows, j);
}

proof fn lemma_room(pool: ClientPool, rows: Seq<LeaseRow>, i: int)
    requires
        moves_fault(pool, rows) is None,
        0 <= i < rows.len(),
    ensures
        pool.cidr.first() + 2 + i < pool.cidr.last(),
    decreases rows.len(),
{
    if i < rows.len() - 1 {
        lemma_room(pool, rows.drop_last(), i);
    }
}

/// Where a device is moved, where it is.
pub open spec fn moved_to(moves: Seq<AddressMove>, device_id: Uuid) -> Option<Ipv4Addr>
    decreases moves.len(),
{
    if moves.len() == 0 {
        None
    } else if moves.last().device_id == device_id {
        Some(moves.last().new_address)
    } else {
        moved_to(moves.drop_last(), device_id)
    }
}

/// Where a device was before it was moved, where it is.
pub open spec fn moved_from(moves: Seq<AddressMove>, device_id: Uuid) -> Option<Ipv4Addr>
    decreases moves.len(),
{
    if moves.len() == 0 {
        None
    } else if moves.last().device_id == device_id {
        Some(moves.last().old_address)
    } else {
        moved_from(moves.drop_last(), device_id)
    }
}

fn new_places(moves: &[AddressMove]) -> (r: BTreeMap<Uuid, Ipv4Addr>)
    ensures
        forall|id: Uuid|
            match #[trigger] moved_to(moves@, id) {
                Some(a) => r@.contains_key(id) && r@[id] == a,
                None => !r@.contains_key(id),
            },
{
    let mut map: BTreeMap<Uuid, Ipv4Addr> = BTreeMap::new();
    let mut i: usize = 0;
    while i < moves.len()
        invariant
            i <= moves@.len(),
            forall|id: Uuid|
                match #[trigger] moved_to(moves@.take(i as int), id) {
                    Some(a) => map@.contains_key(id) && map@[id] == a,
                    None => !map@.contains_key(id),
                },
        decreases moves@.len() - i,
    {
        let ghost next = moves@.take(i + 1);
        proof {
            assert(next.drop_last() =~= moves@.take(i as int));
            assert(next.last() == moves@[i as int]);
            assert forall|id: Uuid| #[trigger] moved_to(next, id) == (if moves@[i as int].device_id
                == id {
                Some(moves@[i as int].new_address)
            } else {
                moved_to(moves@.take(i as int), id)
            }) by {}
        }
        put_for_id(&mut map, moves[i].device_id, moves[i].new_address);
        i = i + 1;
    }
    assert(moves@.take(i as int) =~= moves@);
    map
}

fn old_places(moves: &[AddressMove]) -> (r: BTreeMap<Uuid, Ipv4Addr>)
    ensures
        forall|id: Uuid|
            match #[trigger] moved_from(moves@, id) {
                Some(a) => r@.contains_key(id) && r@[id] == a,
                None => !r@.contains_key(id),
            },
{
    let mut map: BTreeMap<Uuid, Ipv4Addr> = BTreeMap::new();
    let mut i: usize = 0;
    while i < moves.len()
        invariant
            i <= moves@.len(),
            forall|id: Uuid|
                match #[trigger] moved_from(moves@.take(i as int), id) {
                    Some(a) => map@.contains_key(id) && map@[id] == a,
                    None => !map@.contains_key(id),
                },
        decreases moves@.len() - i,
    {
        let ghost next = moves@.take(i + 1);
        proof {
            assert(next.drop_last() =~= moves@.take(i as int));
            assert(next.last() == moves@[i as int]);
            assert forall|id: Uuid| #[trigger] moved_from(next, id) == (if moves@[i as int].device_id
                == id {
                Some(moves@[i as int].old_address)
            } else {
                moved_from(moves@.take(i as int), id)
            }) by {}
        }
        put_for_id(&mut map, moves[i].device_id, moves[i].old_address);
        i = i + 1;
    }
    assert(moves@.take(i as int) =~= moves@);
    map
}

/// A peer after the move.
pub open spec fn moved_peer(moves: Seq<AddressMove>, peer: PeerView) -> PeerView {
    match moved_to(moves, peer.device_id) {
        Some(address) => PeerView { allowed_address: address, ..peer },
        None => peer,
    }
}

/// What a gateway is asked to be after the move, before its parts are put in order: its peers
/// have their new addresses, and the flows of all old addresses end.
pub open spec fn moved_state(
    pool: ClientPool,
    moves: Seq<AddressMove>,
    numbered: bool,
    base_revision: u64,
    state: StateView,
) -> StateView {
    StateView {
        revision: (base_revision + 1) as u64,
        terminate_sources: moves.map_values(|m: AddressMove| m.old_address),
        peers: state.peers.map_values(|p: PeerView| moved_peer(moves, p)),
        compatibility_address: if numbered {
            Some((pool.cidr.first() + 1) as u32)
        } else {
            state.compatibility_address
        },
        ..state
    }
}

fn move_peers(moves: &[AddressMove], places: &BTreeMap<Uuid, Ipv4Addr>, peers: Vec<DesiredPeer>) -> (r:
    Vec<DesiredPeer>)
    requires
        forall|id: Uuid|
            match #[trigger] moved_to(moves@, id) {
                Some(a) => places@.contains_key(id) && places@[id] == a,
                None => !places@.contains_key(id),
            },
    ensures
        r@.map_values(|p: DesiredPeer| p@) == peers@.map_values(|p: DesiredPeer| p@).map_values(
            |p: PeerView| moved_peer(moves@, p),
        ),
{
    let ghost all = peers@;
    let ghost goal = all.map_values(|p: DesiredPeer| p@).map_values(
        |p: PeerView| moved_peer(moves@, p),
    );
    let mut rest = peers;
    let mut out: Vec<DesiredPeer> = Vec::new();
    let ghost mut i: int = 0;
    assert(out@.map_values(|p: DesiredPeer| p@) =~= goal.take(0));
    assert(all.skip(0) =~= all);
    while rest.len() > 0
        invariant
            0 <= i <= all.len(),
            rest@ == all.skip(i),
            goal == all.map_values(|p: DesiredPeer| p@).map_values(
                |p: PeerView| moved_peer(moves@, p),
            ),
            out@.map_values(|p: DesiredPeer| p@) =~= goal.take(i),
            forall|id: Uuid|
                match #[trigger] moved_to(moves@, id) {
                    Some(a) => places@.contains_key(id) && places@[id] == a,
                    None => !places@.contains_key(id),
                },
        decreases rest@.len(),
    {
        let peer = rest.remove(0);
        proof {
            assert(peer == all[i]);
            assert(rest@ =~= all.skip(i + 1));
        }
        let ghost target = moved_to(moves@, peer.device_id);
        let allowed_address = match get_for_id(places, peer.device_id) {
            Some(address) => *address,
            None => peer.allowed_address,
        };
        let ghost before = out@;
        let moved = DesiredPeer {
            device_id: peer.device_id,
            user_id: peer.user_id,
            public_key: peer.public_key,
            allowed_address,
            group_ids: peer.group_ids,
        };
        out.push(moved);
        proof {
            assert(moved@ =~= moved_peer(moves@, all[i]@));
            assert(goal[i] == moved@);
            assert(out@.map_values(|p: DesiredPeer| p@) =~= before.map_values(
                |p: DesiredPeer| p@,
            ).push(moved@));
            assert(goal.take(i + 1) =~= goal.take(i).push(goal[i]));
            i = i + 1;
        }
    }
    assert(goal.take(i) =~= goal);
    out
}

fn old_addresses(moves: &[AddressMove]) -> (r: Vec<Ipv4Addr>)
    ensures
        r@ == moves@.map_values(|m: AddressMove| m.old_address),
{
    let ghost goal = moves@.map_values(|m: AddressMove| m.old_address);
    let mut out: Vec<Ipv4Addr> = Vec::new();
    let mut i: usize = 0;
    while i < moves.len()
        invariant
            i <= moves@.len(),
            goal == moves@.map_values(|m: AddressMove| m.old_address),
            out@ =~= goal.take(i as int),
        decreases moves@.len() - i,
    {
        out.push(moves[i].old_address);
        i = i + 1;
    }
    assert(goal.take(i as int) =~= goal);
    out
}

/// What a gateway is asked to be after the move.
pub fn move_gateway(
    pool: ClientPool,
    moves: &[AddressMove],
    numbered: bool,
    base_revision: u64,
    state: DesiredGatewayState,
) -> (r: DesiredGatewayState)
    requires
        pool.wf(),
        base_revision < u64::MAX,
    ensures
        r@ == canonical(moved_state(pool, moves@, numbered, base_revision, state@)),
{
    proof {
        crate::ipv4::lemma_block(pool.cidr.base(), pool.cidr.bits());
    }
    let ghost before = state@;
    let places = new_places(moves);
    let mut next = DesiredGatewayState {
        gateway_id: state.gateway_id,
        revision: base_revision + 1,
        interface_name: state.interface_name,
        listen_port: state.listen_port,
        mtu: state.mtu,
        compatibility_address: if numbered {
            Some(pool.compatibility_address())
        } else {
            state.compatibility_address
        },
        routes: state.routes,
        peers: move_peers(moves, &places, state.peers),
        acl_default: state.acl_default,
        acl_rules: state.acl_rules,
        terminate_sources: old_addresses(moves),
    };
    assert(next@ =~= moved_state(pool, moves@, numbered, base_revision, before));
    next.canonicalize();
    next
}

/// What is wrong with the first gateway that something is wrong with.
pub open spec fn gateways_fault(rows: Seq<GatewayStateRow>) -> Option<ErrorView>
    decreases rows.len(),
{
    if rows.len() == 0 {
        None
    } else {
        or_fault(gateways_fault(rows.drop_last()), plain_id_fault(rows.last().id@))
    }
}

proof fn lemma_later_gateways(rows: Seq<GatewayStateRow>, i: int)
    requires
        0 <= i <= rows.len(),
        gateways_fault(rows.take(i)) is Some,
    ensures
        gateways_fault(rows) == gateways_fault(rows.take(i)),
    decreases rows.len(),
{
    if i == rows.len() {
        assert(rows.take(i) =~= rows);
    } else {
        assert(rows.drop_last().take(i) =~= rows.take(i));
        lemma_later_gateways(rows.drop_last(), i);
    }
}

/// Whether what a plan says of a gateway is what the row of the gateway leads to.
pub open spec fn is_future(
    f: FutureGateway,
    row: GatewayStateRow,
    pool: ClientPool,
    moves: Seq<AddressMove>,
) -> bool {
    &&& f.base_revision == row.desired_revision as u64
    &&& f.state@ == canonical(
        moved_state(
            pool,
            moves,
            row.kind@ == "mikrotik"@ && row.compatibility_address,
            row.desired_revision as u64,
            row.state@,
        ),
    )
}

/// The row of a gateway among some rows: the last one counts.
pub open spec fn row_of(rows: Seq<GatewayStateRow>, id: Uuid) -> Option<GatewayStateRow>
    decreases rows.len(),
{
    if rows.len() == 0 {
        None
    } else if uuid_parsed(rows.last().id@) == Ok::<Uuid, Seq<char>>(id) {
        Some(rows.last())
    } else {
        row_of(rows.drop_last(), id)
    }
}

/// Whether a plan says of all gateways what their rows lead to.
pub open spec fn are_futures(
    map: Map<Uuid, FutureGateway>,
    rows: Seq<GatewayStateRow>,
    pool: ClientPool,
    moves: Seq<AddressMove>,
) -> bool {
    forall|id: Uuid|
        match #[trigger] row_of(rows, id) {
            Some(row) => map.contains_key(id) && is_future(map[id], row, pool, moves),
            None => !map.contains_key(id),
        }
}

fn plan_gateways(pool: ClientPool, moves: &[AddressMove], rows: Vec<GatewayStateRow>) -> (r: Result<
    BTreeMap<Uuid, FutureGateway>,
    ApiError,
>)
    requires
        pool.wf(),
        forall|i: int| 0 <= i < rows@.len() ==> (#[trigger] rows@[i]).desired_revision != -1,
    ensures
        match r {
            Ok(map) => gateways_fault(rows@) is None && are_futures(map@, rows@, pool, moves@),
            Err(e) => gateways_fault(rows@) == Some(e@),
        },
{
    let ghost all = rows@;
    let mut rest = rows;
    let mut map: BTreeMap<Uuid, FutureGateway> = BTreeMap::new();
    let ghost mut i: int = 0;
    assert(all.skip(0) =~= all);
    while rest.len() > 0
        invariant
            0 <= i <= all.len(),
            rest@ == all.skip(i),
            all == rows@,
            pool.wf(),
            forall|k: int| 0 <= k < all.len() ==> (#[trigger] all[k]).desired_revision != -1,
            gateways_fault(all.take(i)) is None,
            are_futures(map@, all.take(i), pool, moves@),
        decreases rest@.len(),
    {
        let row = rest.remove(0);
        let ghost next = all.take(i + 1);
        proof {
            assert(row == all[i]);
            assert(rest@ =~= all.skip(i + 1));
            assert(next.drop_last() =~= all.take(i));
            assert(next.last() == row);
        }
        let id = match plain_id(row.id.as_str()) {
            Ok(id) => id,
            Err(e) => {
                proof {
                    lemma_later_gateways(all, i + 1);
                }
                return Err(e);
            },
        };
        let base_revision = #[verifier::truncate] (row.desired_revision as u64);
        proof {
            let known = row.desired_revision;
            assert(known != -1 ==> (known as u64) < 0xffff_ffff_ffff_ffffu64) by (bit_vector);
        }
        let numbered = same_text(row.kind.as_str(), "mikrotik") && row.compatibility_address;
        let state = move_gateway(pool, moves, numbered, base_revision, row.state);
        let ghost before = map@;
        let future = FutureGateway { base_revision, state };
        put_for_id(&mut map, id, future);
        proof {
            assert(is_future(future, all[i], pool, moves@));
            assert forall|other: Uuid|
                match #[trigger] row_of(next, other) {
                    Some(found) => map@.contains_key(other) && is_future(
                        map@[other],
                        found,
                        pool,
                        moves@,
                    ),
                    None => !map@.contains_key(other),
                } by {
                if other != id {
                    assert(row_of(next, other) == row_of(all.take(i), other));
                }
            }
            i = i + 1;
        }
    }
    assert(all.take(i) =~= all);
    Ok(map)
}

/// A migration to be written to the database.
pub struct NewMigration {
    pub old_pool: Ipv4Net,
    pub new_pool: Ipv4Net,
    pub effective_at: String,
    pub status: &'static str,
    pub plan: MigrationPlan,
}

/// What the database holds of what a migration moves.
pub struct MigrationSources {
    pub active: i64,
    pub old_pool: Ipv4Net,
    pub routes: Vec<RouteRow>,
    pub devices: Vec<LeaseRow>,
    pub gateways: Vec<GatewayStateRow>,
}

/// Whether a migration is the one that was asked for.
pub open spec fn is_migration(
    m: NewMigration,
    effective_at: Seq<char>,
    new_pool: Ipv4Net,
    s: MigrationSources,
) -> bool {
    let pool = ClientPool { cidr: new_pool };
    &&& m.old_pool == s.old_pool
    &&& m.new_pool == new_pool
    &&& (timestamp_in(effective_at) matches Some(at) && time_text(at.secs, at.nanos) == Some(
        m.effective_at@,
    ))
    &&& m.status@ == "preparing"@
    &&& m.plan.addresses@ == moves_of(pool, s.devices@)
    &&& are_futures(m.plan.gateways@, s.gateways@, pool, m.plan.addresses@)
}

/// What is wrong with a migration before the routes are looked at.
pub open spec fn early_fault(
    effective_at: Seq<char>,
    new_pool: Ipv4Net,
    now: Timestamp,
    s: MigrationSources,
) -> Option<ErrorView> {
    or_fault(
        schedule_fault(effective_at, now),
        or_fault(pools_fault(s.active, s.old_pool, new_pool), routes_fault(s.routes@)),
    )
}

/// What is wrong with a migration after the routes were looked at.
pub open spec fn late_fault(effective_at: Seq<char>, new_pool: Ipv4Net, s: MigrationSources) -> Option<
    ErrorView,
> {
    let pool = ClientPool { cidr: new_pool };
    or_fault(
        moves_fault(pool, s.devices@),
        or_fault(
            gateways_fault(s.gateways@),
            match timestamp_in(effective_at) {
                Some(at) => unless(
                    time_text(at.secs, at.nanos) is Some,
                    crate::auth::clock_fault(),
                ),
                None => None,
            },
        ),
    )
}

/// The migration of all clients to another pool, as it is asked for: every device gets an address
/// in the new pool, and every gateway a state with these addresses. It begins with its preparation.
pub fn create(effective_at: &str, new_pool: Ipv4Net, now: Timestamp, sources: MigrationSources) -> (r:
    Result<NewMigration, ApiError>)
    requires
        forall|i: int|
            0 <= i < sources.gateways@.len() ==> (#[trigger] sources.gateways@[i]).desired_revision
                != -1,
    ensures
        match early_fault(effective_at@, new_pool, now, sources) {
            Some(e) => r matches Err(f) && f@ == e,
            None => {
                let pool = ClientPool { cidr: new_pool };
                let routes = routes_of(sources.routes@);
                match r {
                    Ok(m) => {
                        &&& routes_outcome(pool, routes, Ok(()))
                        &&& late_fault(effective_at@, new_pool, sources) is None
                        &&& is_migration(m, effective_at@, new_pool, sources)
                    },
                    Err(f) => {
                        ||| exists|error: NetworkError|
                            #[trigger] routes_outcome(pool, routes, Err(error)) && f@ == validation(
                                error.text(),
                            )
                        ||| routes_outcome(pool, routes, Ok(())) && late_fault(
                            effective_at@,
                            new_pool,
                            sources,
                        ) == Some(f@)
                    },
                }
            },
        },
{
    let at = check_schedule(effective_at, now)?;
    let pool = check_pools(sources.active, sources.old_pool, new_pool)?;
    let routes = read_routes(sources.routes.as_slice())?;
    match validate_gateway_routes(pool, routes.as_slice()) {
        Ok(_) => {},
        Err(error) => {
            return Err(network_error(&error));
        },
    }
    let addresses = plan_moves(pool, sources.devices.as_slice())?;
    let old_pool = sources.old_pool;
    let gateways = plan_gateways(pool, addresses.as_slice(), sources.gateways)?;
    let text = render_time(at)?;
    Ok(
        NewMigration {
            old_pool,
            new_pool,
            effective_at: text,
            status: "preparing",
            plan: MigrationPlan { addresses, gateways },
        },
    )
}

/// What is wrong with the device that a plan was made for.
pub open spec fn unmoved_fault(moves: Seq<AddressMove>, row: LeaseRow) -> Option<ErrorView> {
    or_fault(
        plain_id_fault(row.id@),
        or_fault(
            address_fault(row.vpn_address@, "device address"@),
            unless(
                moved_from(moves, uuid_parsed(row.id@)->Ok_0) == Some(
                    address_parsed(row.vpn_address@)->0,
                ),
                conflict("device addresses changed after this migration was planned"@),
            ),
        ),
    )
}

/// What is wrong with the first device that a plan does not fit any more.
pub open spec fn unmoved_devices_fault(moves: Seq<AddressMove>, rows: Seq<LeaseRow>) -> Option<
    ErrorView,
>
    decreases rows.len(),
{
    if rows.len() == 0 {
        None
    } else {
        or_fault(
            unmoved_devices_fault(moves, rows.drop_last()),
            unmoved_fault(moves, rows.last()),
        )
    }
}

proof fn lemma_later_unmoved(moves: Seq<AddressMove>, rows: Seq<LeaseRow>, i: int)
    requires
        0 <= i <= rows.len(),
        unmoved_devices_fault(moves, rows.take(i)) is Some,
    ensures
        unmoved_devices_fault(moves, rows) == unmoved_devices_fault(moves, rows.take(i)),
    decreases rows.len(),
{
    if i == rows.len() {
        assert(rows.take(i) =~= rows);
    } else {
        assert(rows.drop_last().take(i) =~= rows.take(i));
        lemma_later_unmoved(moves, rows.drop_last(), i);
    }
}

/// Why a plan does not fit any more what it was made for.
pub open spec fn source_fault(
    moves: Seq<AddressMove>,
    expected_pool: Seq<char>,
    current_pool: Seq<char>,
    devices: Seq<LeaseRow>,
) -> Option<ErrorView> {
    if current_pool != expected_pool {
        Some(conflict("client pool changed after this migration was planned"@))
    } else if devices.len() != moves.len() {
        Some(conflict("device set changed after this migration was planned"@))
    } else {
        unmoved_devices_fault(moves, devices)
    }
}

/// Lets plans pass that still fit: the pool and the devices with their addresses are what they
/// were.
pub fn validate_plan_source(
    moves: &[AddressMove],
    expected_pool: &str,
    current_pool: &str,
    devices: &[LeaseRow],
) -> (r: Result<(), ApiError>)
    ensures
        checks(r, source_fault(moves@, expected_pool@, current_pool@, devices@)),
{
    if !same_text(current_pool, expected_pool) {
        return Err(conflict_error("client pool changed after this migration was planned"));
    }
    if devices.len() != moves.len() {
        return Err(conflict_error("device set changed after this migration was planned"));
    }
    let places = old_places(moves);
    let mut i: usize = 0;
    while i < devices.len()
        invariant
            i <= devices@.len(),
            devices@.len() == moves@.len(),
            current_pool@ == expected_pool@,
            unmoved_devices_fault(moves@, devices@.take(i as int)) is None,
            forall|id: Uuid|
                match #[trigger] moved_from(moves@, id) {
                    Some(a) => places@.contains_key(id) && places@[id] == a,
                    None => !places@.contains_key(id),
                },
        decreases devices@.len() - i,
    {
        let ghost next = devices@.take(i + 1);
        proof {
            assert(next.drop_last() =~= devices@.take(i as int));
            assert(next.last() == devices@[i as int]);
        }
        match read_move(&devices[i], 0) {
            Err(e) => {
                proof {
                    lemma_later_unmoved(moves@, devices@, i + 1);
                }
                return Err(e);
            },
            Ok(now) => {
                let ghost planned = moved_from(moves@, now.device_id);
                let fits = match get_for_id(&places, now.device_id) {
                    Some(address) => *address == now.old_address,
                    None => false,
                };
                if !fits {
                    proof {
                        lemma_later_unmoved(moves@, devices@, i + 1);
                    }
                    return Err(
                        conflict_error("device addresses changed after this migration was planned"),
                    );
                }
            },
        }
        i = i + 1;
    }
    assert(devices@.take(i as int) =~= devices@);
    Ok(())
}

/// A gateway of a migration in the database.
#[derive(Debug, Clone, Copy, PartialEq, Eq, Structural)]
pub struct MigrationGatewayRow {
    pub prepared: bool,
    pub base_revision: i64,
    pub desired_revision: i64,
}

/// How many gateways have not validated their future state.
pub open spec fn missing_of(rows: Seq<MigrationGatewayRow>) -> nat
    decreases rows.len(),
{
    if rows.len() == 0 {
        0
    } else {
        missing_of(rows.drop_last()) + (if rows.last().prepared {
            0nat
        } else {
            1nat
        })
    }
}

/// Whether the state of a gateway changed after a migration was planned.
pub open spec fn drifted(rows: Seq<MigrationGatewayRow>) -> bool {
    exists|i: int|
        0 <= i < rows.len() && (#[trigger] rows[i]).desired_revision != rows[i].base_revision
}

fn count_missing(rows: &[MigrationGatewayRow]) -> (r: usize)
    ensures
        r == missing_of(rows@),
{
    let mut n: usize = 0;
    let mut i: usize = 0;
    while i < rows.len()
        invariant
            i <= rows@.len(),
            n <= i,
            n == missing_of(rows@.take(i as int)),
        decreases rows@.len() - i,
    {
        proof {
            let next = rows@.take(i + 1);
            assert(next.drop_last() =~= rows@.take(i as int));
            assert(next.last() == rows@[i as int]);
        }
        if !rows[i].prepared {
            n = n + 1;
        }
        i = i + 1;
    }
    assert(rows@.take(i as int) =~= rows@);
    n
}

/// Whether the state of a gateway changed after a migration was planned.
pub fn has_drifted(rows: &[MigrationGatewayRow]) -> (r: bool)
    ensures
        r == drifted(rows@),
{
    let mut i: usize = 0;
    while i < rows.len()
        invariant
            i <= rows@.len(),
            forall|k: int|
                0 <= k < i ==> (#[trigger] rows@[k]).desired_revision == rows@[k].base_revision,
        decreases rows@.len() - i,
    {
        if rows[i].desired_revision != rows[i].base_revision {
            assert(rows@[i as int].desired_revision != rows@[i as int].base_revision);
            return true;
        }
        i = i + 1;
    }
    false
}

/// A migration in the database, and what its plan moves.
pub struct MigrationRow {
    pub status: String,
    pub effective_at: String,
    pub old_pool: String,
    pub new_pool: String,
    pub addresses: Vec<AddressMove>,
}

/// Why a migration cannot be armed.
pub open spec fn arm_fault(
    row: Option<MigrationRow>,
    current_pool: Seq<char>,
    devices: Seq<LeaseRow>,
    gateways: Seq<MigrationGatewayRow>,
    now: Timestamp,
) -> Option<ErrorView> {
    match row {
        None => Some(not_found("migration does not exist"@)),
        Some(m) => or_fault(
            unless(m.status@ == "preparing"@, conflict("migration is not preparing"@)),
            or_fault(
                source_fault(m.addresses@, m.old_pool@, current_pool, devices),
                if missing_of(gateways) > 0 {
                    Some(
                        conflict(
                            decimal(missing_of(gateways))
                                + " gateway(s) have not validated the future state"@,
                        ),
                    )
                } else if drifted(gateways) {
                    Some(
                        conflict(
                            "gateway state changed after preparation; cancel and create a new migration"@,
                        ),
                    )
                } else {
                    match timestamp_in(m.effective_at@) {
                        None => Some(internal(time_fault(m.effective_at@))),
                        Some(at) => unless(
                            at.is_after(now),
                            conflict("migration effective time has passed"@),
                        ),
                    }
                },
            ),
        ),
    }
}

/// A migration is armed only after every gateway has validated its future state, while none has
/// another state since, and before its time comes.
pub proof fn law_arming_needs_every_gateway(
    row: MigrationRow,
    current_pool: Seq<char>,
    devices: Seq<LeaseRow>,
    gateways: Seq<MigrationGatewayRow>,
    now: Timestamp,
    i: int,
)
    requires
        arm_fault(Some(row), current_pool, devices, gateways, now) is None,
        0 <= i < gateways.len(),
    ensures
        gateways[i].prepared,
        gateways[i].desired_revision == gateways[i].base_revision,
        timestamp_in(row.effective_at@) matches Some(at) && at.is_after(now),
{
    lemma_nobody_is_missing(gateways, i);
}

proof fn lemma_nobody_is_missing(rows: Seq<MigrationGatewayRow>, i: int)
    requires
        missing_of(rows) == 0,
        0 <= i < rows.len(),
    ensures
        rows[i].prepared,
    decreases rows.len(),
{
    if i < rows.len() - 1 {
        lemma_nobody_is_missing(rows.drop_last(), i);
    }
}

/// The status of a migration that is armed. It can be, once every gateway has validated its
/// future state, while nothing has changed since, and before the time comes.
pub fn arm(
    row: &Option<MigrationRow>,
    current_pool: &str,
    devices: &[LeaseRow],
    gateways: &[MigrationGatewayRow],
    now: Timestamp,
) -> (r: Result<&'static str, ApiError>)
    ensures
        match arm_fault(*row, current_pool@, devices@, gateways@, now) {
            None => r matches Ok(status) && status@ == "armed"@,
            Some(e) => r matches Err(f) && f@ == e,
        },
{
    let m = match row {
        Some(m) => m,
        None => return Err(not_found_error("migration does not exist")),
    };
    if !same_text(m.status.as_str(), "preparing") {
        return Err(conflict_error("migration is not preparing"));
    }
    validate_plan_source(m.addresses.as_slice(), m.old_pool.as_str(), current_pool, devices)?;
    let missing = count_missing(gateways);
    if missing > 0 {
        return Err(
            conflict_error(
                decimal_text(missing as u64).concat(
                    " gateway(s) have not validated the future state",
                ).as_str(),
            ),
        );
    }
    if has_drifted(gateways) {
        return Err(
            conflict_error(
                "gateway state changed after preparation; cancel and create a new migration",
            ),
        );
    }
    match read_time(m.effective_at.as_str()) {
        Err(message) => Err(internal_error(message.as_str())),
        Ok(at) => if at.after(&now) {
            Ok("armed")
        } else {
            Err(conflict_error("migration effective time has passed"))
        },
    }
}

/// What the message about a migration says besides.
pub open spec fn migration_parameters(id: Uuid, effective_at: Seq<char>) -> Seq<char> {
    "{\"effective_at\":"@ + json_quoted(effective_at) + ",\"migration_id\":"@ + json_quoted(
        uuid_text(id),
    ) + "}"@
}

/// What the message about a migration says besides.
pub fn migration_notice(id: Uuid, effective_at: &str) -> (r: String)
    ensures
        r@ == migration_parameters(id, effective_at@),
{
    String::from_str("{\"effective_at\":").concat(json_string(effective_at).as_str()).concat(
        ",\"migration_id\":",
    ).concat(json_string(uuid_to_text(id).as_str()).as_str()).concat("}")
}

/// What is written down of a step of a migration that a user takes.
pub fn migration_audit(actor: Uuid, action: &'static str, id: Uuid) -> (r: AuditEntry)
    ensures
        r.by_user(actor, action@, "subnet_migration"@, Some(id)),
{
    user_did(actor, action, "subnet_migration", Some(id))
}

/// Why a migration is not cancelled: it is not being prepared.
pub open spec fn cancel_fault(status: Seq<char>) -> Option<ErrorView> {
    unless(status == "preparing"@, conflict("only a preparing migration can be cancelled"@))
}

/// The status of a migration that is cancelled.
pub fn cancel(status: &str) -> (r: Result<&'static str, ApiError>)
    ensures
        match cancel_fault(status@) {
            None => r matches Ok(next) && next@ == "cancelled"@,
            Some(e) => r matches Err(f) && f@ == e,
        },
{
    if same_text(status, "preparing") {
        Ok("cancelled")
    } else {
        Err(conflict_error("only a preparing migration can be cancelled"))
    }
}

/// What a gateway has to validate for a migration.
pub struct PreparationRow {
    pub future_revision: i64,
    pub expected_state_hash: String,
}

/// Why a gateway has not validated what it should.
pub open spec fn prepared_fault(row: Option<PreparationRow>, revision: u64, hash: Seq<char>) -> Option<
    ErrorView,
> {
    match row {
        None => Some(not_found("migration gateway preparation does not exist"@)),
        Some(p) => unless(
            p.future_revision as u64 == revision && p.expected_state_hash@ == hash,
            conflict("agent prepared state does not match the migration plan"@),
        ),
    }
}

/// Lets gateways pass that have validated just the state that the plan has for them.
pub fn record_prepared(row: &Option<PreparationRow>, revision: u64, hash: &str) -> (r: Result<
    (),
    ApiError,
>)
    ensures
        checks(r, prepared_fault(*row, revision, hash@)),
{
    match row {
        None => Err(not_found_error("migration gateway preparation does not exist")),
        Some(p) => if #[verifier::truncate] (p.future_revision as u64) == revision && same_text(
            p.expected_state_hash.as_str(),
            hash,
        ) {
            Ok(())
        } else {
            Err(conflict_error("agent prepared state does not match the migration plan"))
        },
    }
}

/// Whether a migration is to be carried out now.
pub fn is_due(status: &str, effective_at: &str, now: &str) -> (r: bool)
    ensures
        r == (status@ == "armed"@ && text_no_later(effective_at@, now@)),
{
    same_text(status, "armed") && is_text_no_later(effective_at, now)
}

/// How it goes on with a migration whose time has come.
pub enum ApplyStep {
    /// It is carried out.
    Apply(Ipv4Net),
    /// It has failed, and is marked as failed.
    Fail(ApiError),
    /// It is left as it is.
    Refuse(ApiError),
}

impl ApplyStep {
    /// The status of a migration after the step, if it gets another.
    pub open spec fn status_after(self) -> Option<Seq<char>> {
        match self {
            ApplyStep::Apply(_) => Some("applied"@),
            ApplyStep::Fail(_) => Some("failed"@),
            ApplyStep::Refuse(_) => None,
        }
    }

    /// The status of a migration after the step, if it gets another.
    pub fn status(&self) -> (r: Option<&'static str>)
        ensures
            opt_str(r) == self.status_after(),
    {
        match self {
            ApplyStep::Apply(_) => Some("applied"),
            ApplyStep::Fail(_) => Some("failed"),
            ApplyStep::Refuse(_) => None,
        }
    }
}

/// Whether a step is the right one for a migration whose time has come.
pub open spec fn is_apply_step(
    step: ApplyStep,
    row: Option<MigrationRow>,
    current_pool: Seq<char>,
    devices: Seq<LeaseRow>,
    gateways: Seq<MigrationGatewayRow>,
) -> bool {
    if row is None || row->0.status@ != "armed"@ {
        step matches ApplyStep::Refuse(e) && e@ == conflict("migration is no longer armed"@)
    } else if network_parsed(row->0.new_pool@) is None {
        step matches ApplyStep::Refuse(e) && net_fault(row->0.new_pool@, "migration pool"@)
            == Some(e@)
    } else {
        let fault = source_fault(row->0.addresses@, row->0.old_pool@, current_pool, devices);
        if fault is Some {
            step matches ApplyStep::Fail(e) && fault == Some(e@)
        } else if drifted(gateways) {
            step matches ApplyStep::Fail(e) && e@ == conflict(
                "migration failed because gateway state drifted"@,
            )
        } else {
            step matches ApplyStep::Apply(pool) && pool == net_of(row->0.new_pool@)
        }
    }
}

/// How it goes on with a migration whose time has come: it is carried out where nothing has
/// changed since it was planned, and has failed where something has.
pub fn apply_one(
    row: &Option<MigrationRow>,
    current_pool: &str,
    devices: &[LeaseRow],
    gateways: &[MigrationGatewayRow],
) -> (r: ApplyStep)
    ensures
        is_apply_step(r, *row, current_pool@, devices@, gateways@),
{
    let m = match row {
        Some(m) => m,
        None => return ApplyStep::Refuse(conflict_error("migration is no longer armed")),
    };
    if !same_text(m.status.as_str(), "armed") {
        return ApplyStep::Refuse(conflict_error("migration is no longer armed"));
    }
    let pool = match parse_net(m.new_pool.as_str(), "migration pool") {
        Ok(pool) => pool,
        Err(e) => return ApplyStep::Refuse(e),
    };
    match validate_plan_source(
        m.addresses.as_slice(),
        m.old_pool.as_str(),
        current_pool,
        devices,
    ) {
        Ok(_) => {},
        Err(e) => {
            return ApplyStep::Fail(e);
        },
    }
    if has_drifted(gateways) {
        return ApplyStep::Fail(conflict_error("migration failed because gateway state drifted"));
    }
    ApplyStep::Apply(pool)
}

/// What holds the place of the address of a device while all devices are moved.
pub open spec fn placeholder_of(migration_id: Uuid, device_id: Uuid) -> Seq<char> {
    "migration:"@ + uuid_text(migration_id) + ":"@ + uuid_text(device_id)
}

/// What holds the place of the address of a device while all devices are moved: it keeps moves
/// apart that hand an old address of one device to another.
pub fn placeholder(migration_id: Uuid, device_id: Uuid) -> (r: String)
    ensures
        r@ == placeholder_of(migration_id, device_id),
{
    String::from_str("migration:").concat(uuid_to_text(migration_id).as_str()).concat(":").concat(
        uuid_to_text(device_id).as_str(),
    )
}

/// What is written down when a migration was carried out.
pub fn applied_audit(id: Uuid) -> (r: AuditEntry)
    ensures
        r.says(
            None,
            "scheduler"@,
            "subnet_migration.apply"@,
            "subnet_migration"@,
            Some(id),
            "success"@,
        ),
{
    success(None, "scheduler", "subnet_migration.apply", "subnet_migration", Some(id))
}

/// What is told of a migration.
pub fn migration_response(
    id: &str,
    row: &MigrationRow,
    prepared_gateways: i64,
    total_gateways: i64,
) -> (r: Result<SubnetMigrationResponse, ApiError>)
    ensures
        match or_fault(
            plain_id_fault(id@),
            or_fault(net_fault(row.old_pool@, "pool"@), net_fault(row.new_pool@, "pool"@)),
        ) {
            None => {
                &&& r matches Ok(m)
                &&& uuid_parsed(id@) == Ok::<Uuid, Seq<char>>(m.id)
                &&& m.old_pool == net_of(row.old_pool@)
                &&& m.new_pool == net_of(row.new_pool@)
                &&& m.effective_at@ == row.effective_at@
                &&& m.status@ == row.status@
                &&& m.prepared_gateways == prepared_gateways
                &&& m.total_gateways == total_gateways
                &&& m.affected_devices == row.addresses@.len()
            },
            Some(e) => r matches Err(f) && f@ == e,
        },
{
    let id = plain_id(id)?;
    let old_pool = parse_net(row.old_pool.as_str(), "pool")?;
    let new_pool = parse_net(row.new_pool.as_str(), "pool")?;
    Ok(
        SubnetMigrationResponse {
            id,
            old_pool,
            new_pool,
            effective_at: copy_text(&row.effective_at),
            status: copy_text(&row.status),
            prepared_gateways,
            total_gateways,
            affected_devices: row.addresses.len(),
        },
    )
}

/// A migration that was cancelled, has failed or was carried out stays so: it is neither armed nor
/// cancelled nor carried out.
pub proof fn law_ended_migrations_stay(
    row: MigrationRow,
    current_pool: Seq<char>,
    devices: Seq<LeaseRow>,
    gateways: Seq<MigrationGatewayRow>,
    now: Timestamp,
    step: ApplyStep,
)
    requires
        row.status@ == "cancelled"@ || row.status@ == "failed"@ || row.status@ == "applied"@,
        is_apply_step(step, Some(row), current_pool, devices, gateways),
    ensures
        arm_fault(Some(row), current_pool, devices, gateways, now) == Some(
            conflict("migration is not preparing"@),
        ),
        cancel_fault(row.status@) is Some,
        step.status_after() is None,
{
    reveal_strlit("preparing");
    reveal_strlit("armed");
    reveal_strlit("cancelled");
    reveal_strlit("failed");
    reveal_strlit("applied");
    assert("preparing"@[0] == 'p' && "armed"@[1] == 'r');
    assert("cancelled"@[0] == 'c' && "failed"@[0] == 'f' && "applied"@[0] == 'a');
    assert("applied"@[1] == 'p');
}

/// A migration that can be armed is not one that would fail at once: with the same pool, devices
/// and gateways it is carried out.
pub proof fn law_armed_migrations_apply(
    row: MigrationRow,
    armed: MigrationRow,
    current_pool: Seq<char>,
    devices: Seq<LeaseRow>,
    gateways: Seq<MigrationGatewayRow>,
    now: Timestamp,
    step: ApplyStep,
)
    requires
        arm_fault(Some(row), current_pool, devices, gateways, now) is None,
        armed.status@ == "armed"@,
        armed.addresses@ == row.addresses@,
        armed.old_pool@ == row.old_pool@,
        armed.new_pool@ == row.new_pool@,
        network_parsed(row.new_pool@) is Some,
        is_apply_step(step, Some(armed), current_pool, devices, gateways),
    ensures
        step is Apply,
{
}

} // verus!
