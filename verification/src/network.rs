//! The client address pool and the routes of the gateways.

use std::collections::BTreeSet;

use vstd::arithmetic::power2::*;
use vstd::prelude::*;
use vstd::string::*;

use crate::ids::{uuid_text, uuid_to_text, Uuid};
use crate::ipv4::{
    address_text, address_to_text, block_size, lemma_block, lemma_blocks_nest, Ipv4Addr, Ipv4Net,
    SocketAddrV4,
};
use crate::text::{decimal, decimal_text};

verus! {

/// A network that clients reach through a gateway.
#[derive(Debug, Clone, Copy, PartialEq, Eq, Structural)]
pub struct GatewayRoute {
    pub gateway_id: Uuid,
    pub site_id: Uuid,
    pub cidr: Ipv4Net,
}

/// Why an address plan is refused.
#[derive(Debug, Clone, Copy, PartialEq, Eq, Structural)]
pub enum NetworkError {
    PoolTooSmall,
    PoolExhausted,
    CrossGatewayOverlap {
        left: Ipv4Net,
        right: Ipv4Net,
        left_gateway: Uuid,
        right_gateway: Uuid,
    },
    MultipleClientRoutingGateways,
    NotAnExpansion,
    EndpointInsideRoute(SocketAddrV4),
}

impl NetworkError {
    /// What the error says.
    pub open spec fn text(self) -> Seq<char> {
        match self {
            NetworkError::PoolTooSmall => "client pool must contain at least four addresses"@,
            NetworkError::PoolExhausted => "client pool is exhausted"@,
            NetworkError::CrossGatewayOverlap { left, right, left_gateway, right_gateway } => {
                "route "@ + left.text() + " on gateway "@ + uuid_text(left_gateway)
                    + " overlaps route "@ + right.text() + " on gateway "@ + uuid_text(
                    right_gateway,
                )
            },
            NetworkError::MultipleClientRoutingGateways =>
                "client-pool routes may belong to only one gateway"@,
            NetworkError::NotAnExpansion =>
                "new pool must contain the old pool for an in-place expansion"@,
            NetworkError::EndpointInsideRoute(endpoint) => {
                "public endpoint "@ + address_text(endpoint.ip) + ":"@ + decimal(
                    endpoint.port as nat,
                ) + " is inside a routed VPN prefix"@
            },
        }
    }

    /// What the error says.
    pub fn message(&self) -> (r: String)
        ensures
            r@ == self.text(),
    {
        match self {
            NetworkError::PoolTooSmall => String::from_str(
                "client pool must contain at least four addresses",
            ),
            NetworkError::PoolExhausted => String::from_str("client pool is exhausted"),
            NetworkError::CrossGatewayOverlap { left, right, left_gateway, right_gateway } => {
                let mut out = String::from_str("route ");
                out.append(left.to_text().as_str());
                out.append(" on gateway ");
                out.append(uuid_to_text(*left_gateway).as_str());
                out.append(" overlaps route ");
                out.append(right.to_text().as_str());
                out.append(" on gateway ");
                out.append(uuid_to_text(*right_gateway).as_str());
                out
            },
            NetworkError::MultipleClientRoutingGateways => String::from_str(
                "client-pool routes may belong to only one gateway",
            ),
            NetworkError::NotAnExpansion => String::from_str(
                "new pool must contain the old pool for an in-place expansion",
            ),
            NetworkError::EndpointInsideRoute(endpoint) => {
                let mut out = String::from_str("public endpoint ");
                out.append(address_to_text(endpoint.ip).as_str());
                out.append(":");
                out.append(decimal_text(endpoint.port as u64).as_str());
                out.append(" is inside a routed VPN prefix");
                out
            },
        }
    }
}

/// The network that client addresses are taken from.
#[derive(Debug, Clone, Copy, PartialEq, Eq, Structural)]
pub struct ClientPool {
    pub cidr: Ipv4Net,
}

/// How many addresses a network holds.
pub open spec fn address_count_of(network: Ipv4Net) -> int {
    block_size(network.bits())
}

impl ClientPool {
    /// The pool has room for a network, a broadcast, a compatibility and a client address.
    pub open spec fn wf(self) -> bool {
        self.cidr.wf() && address_count_of(self.cidr) >= 4
    }

    /// Whether an address may be given to a client: it lies in the pool and is none of the
    /// three reserved ones.
    pub open spec fn allocatable(self, address: u32) -> bool {
        self.cidr.first() + 2 <= address < self.cidr.last()
    }

    /// A pool of at least four addresses.
    pub fn new(cidr: Ipv4Net) -> (r: Result<Self, NetworkError>)
        ensures
            r is Ok <==> address_count_of(cidr) >= 4,
            r matches Ok(pool) ==> pool.cidr == cidr && pool.wf(),
            r matches Err(error) ==> error == NetworkError::PoolTooSmall,
    {
        if address_count(cidr) < 4 {
            return Err(NetworkError::PoolTooSmall);
        }
        Ok(Self { cidr })
    }

    /// The lowest address of the pool.
    pub fn network(&self) -> (r: Ipv4Addr)
        ensures
            r == self.cidr.first(),
            self.cidr.wf(),
    {
        self.cidr.network()
    }

    /// The highest address of the pool.
    pub fn broadcast(&self) -> (r: Ipv4Addr)
        ensures
            r == self.cidr.last(),
            self.cidr.wf(),
    {
        self.cidr.broadcast()
    }

    /// The first usable address, kept for gateways that need a numbered interface.
    pub fn compatibility_address(&self) -> (r: Ipv4Addr)
        requires
            self.cidr.first() < u32::MAX,
        ensures
            r == self.cidr.first() + 1,
    {
        self.network() + 1
    }

    /// How many clients the pool has room for.
    pub fn usable_capacity(&self) -> (r: u64)
        ensures
            r == (if address_count_of(self.cidr) >= 3 {
                address_count_of(self.cidr) - 3
            } else {
                0
            }),
    {
        address_count(self.cidr).saturating_sub(3)
    }

    /// Whether an address may be given to a client.
    pub fn contains_allocatable(&self, address: Ipv4Addr) -> (r: bool)
        ensures
            r == self.allocatable(address),
    {
        let network = self.network();
        let broadcast = self.broadcast();
        self.cidr.contains(address) && address != network && address != broadcast && address
            != self.compatibility_address()
    }

    /// The lowest address that may be given to a client and is not taken.
    pub fn allocate(&self, allocated_or_quarantined: &BTreeSet<Ipv4Addr>) -> (r: Result<
        Ipv4Addr,
        NetworkError,
    >)
        ensures
            match r {
                Ok(address) => {
                    &&& self.allocatable(address)
                    &&& !allocated_or_quarantined@.contains(address)
                    &&& forall|lower: u32|
                        self.allocatable(lower) && lower < address
                            ==> allocated_or_quarantined@.contains(lower)
                },
                Err(error) => {
                    &&& error == NetworkError::PoolExhausted
                    &&& forall|address: u32|
                        self.allocatable(address) ==> allocated_or_quarantined@.contains(address)
                },
            },
    {
        broadcast use vstd::laws_cmp::group_laws_cmp;

        let first = self.network().saturating_add(2);
        let last = self.broadcast();
        let mut raw: u32 = first;
        while raw < last
            invariant
                last == self.cidr.last(),
                first <= raw,
                self.cidr.first() + 2 <= u32::MAX ==> first == self.cidr.first() + 2,
                self.cidr.first() + 2 > u32::MAX ==> first == u32::MAX,
                forall|lower: u32|
                    self.allocatable(lower) && lower < raw ==> allocated_or_quarantined@.contains(
                        lower,
                    ),
            decreases last - raw,
        {
            if !allocated_or_quarantined.contains(&raw) {
                return Ok(raw);
            }
            raw = raw + 1;
        }
        Err(NetworkError::PoolExhausted)
    }

    /// Whether a pool may replace this one in place: it must hold all of it.
    pub fn validate_expansion(&self, new_pool: ClientPool) -> (r: Result<(), NetworkError>)
        ensures
            r is Ok <==> self.expands_to(new_pool),
            r is Err ==> r->Err_0 == NetworkError::NotAnExpansion,
    {
        if new_pool.cidr.prefix_len() > self.cidr.prefix_len() || !new_pool.cidr.contains(
            self.network(),
        ) || !new_pool.cidr.contains(self.broadcast()) {
            return Err(NetworkError::NotAnExpansion);
        }
        Ok(())
    }

    /// The new pool's prefix is no longer and it holds both ends of this pool.
    pub open spec fn expands_to(self, new_pool: ClientPool) -> bool {
        &&& new_pool.cidr.bits() <= self.cidr.bits()
        &&& new_pool.cidr.first() <= self.cidr.first() <= new_pool.cidr.last()
        &&& new_pool.cidr.first() <= self.cidr.last() <= new_pool.cidr.last()
    }
}

/// How many addresses a network holds.
pub fn address_count(network: Ipv4Net) -> (r: u64)
    ensures
        r == address_count_of(network),
        network.wf(),
{
    let shift: u32 = 32 - network.prefix_len() as u32;
    proof {
        lemma2_to64();
        lemma_pow2_pos(shift as nat);
        lemma_block(network.base(), network.bits());
        vstd::bits::lemma_u64_shl_is_mul(1, shift as u64);
    }
    1_u64 << shift
}

/// Whether two networks share an address.
pub open spec fn overlap(left: Ipv4Net, right: Ipv4Net) -> bool {
    left.first() <= right.last() && right.first() <= left.last()
}

/// Whether two networks share an address.
pub fn networks_overlap(left: Ipv4Net, right: Ipv4Net) -> (r: bool)
    ensures
        r == overlap(left, right),
{
    let l = left.network();
    let r = right.network();
    proof {
        lemma_block(left.base(), left.bits());
        lemma_block(right.base(), right.bits());
    }
    left.contains(r) || right.contains(l)
}

/// A route meets the client pool, and so does an earlier route of another gateway.
pub open spec fn client_conflict(pool: ClientPool, routes: Seq<GatewayRoute>, i: int) -> bool {
    &&& overlap(routes[i].cidr, pool.cidr)
    &&& exists|k: int|
        0 <= k < i && overlap(#[trigger] routes[k].cidr, pool.cidr) && routes[k].gateway_id
            != routes[i].gateway_id
}

/// Two routes of different gateways share an address.
pub open spec fn cross_conflict(routes: Seq<GatewayRoute>, i: int, j: int) -> bool {
    routes[i].gateway_id != routes[j].gateway_id && overlap(routes[i].cidr, routes[j].cidr)
}

/// No route before `n` is in conflict with the client pool or with a later route.
pub open spec fn clear_before(pool: ClientPool, routes: Seq<GatewayRoute>, n: int) -> bool {
    &&& forall|i: int| 0 <= i < n ==> !#[trigger] client_conflict(pool, routes, i)
    &&& forall|i: int, j: int|
        0 <= i < n && i < j < routes.len() ==> !#[trigger] cross_conflict(routes, i, j)
}

/// Which outcome the routes deserve: success where nothing conflicts, else the first conflict
/// in the order of the routes, the pool's before any other of the same route.
pub open spec fn routes_outcome(
    pool: ClientPool,
    routes: Seq<GatewayRoute>,
    r: Result<(), NetworkError>,
) -> bool {
    match r {
        Ok(_) => clear_before(pool, routes, routes.len() as int),
        Err(NetworkError::MultipleClientRoutingGateways) => exists|i: int|
            0 <= i < routes.len() && clear_before(pool, routes, i) && #[trigger] client_conflict(
                pool,
                routes,
                i,
            ),
        Err(NetworkError::CrossGatewayOverlap { left, right, left_gateway, right_gateway }) =>
            exists|i: int, j: int|
                {
                    &&& 0 <= i < j < routes.len()
                    &&& clear_before(pool, routes, i)
                    &&& !client_conflict(pool, routes, i)
                    &&& #[trigger] cross_conflict(routes, i, j)
                    &&& forall|k: int| i < k < j ==> !#[trigger] cross_conflict(routes, i, k)
                    &&& left == routes[i].cidr
                    &&& left_gateway == routes[i].gateway_id
                    &&& right == routes[j].cidr
                    &&& right_gateway == routes[j].gateway_id
                },
        Err(_) => false,
    }
}

/// Validates client-side route determinism.
///
/// Routes may overlap on the same gateway because they resolve to the same peer. A route
/// intersecting the client pool is treated as client-to-client routing; every such route must
/// be owned by a single gateway.
pub fn validate_gateway_routes(client_pool: ClientPool, routes: &[GatewayRoute]) -> (r: Result<
    (),
    NetworkError,
>)
    ensures
        routes_outcome(client_pool, routes@, r),
{
    let mut client_router: Option<Uuid> = None;
    let mut index: usize = 0;
    while index < routes.len()
        invariant
            index <= routes@.len(),
            clear_before(client_pool, routes@, index as int),
            match client_router {
                None => forall|k: int|
                    0 <= k < index ==> !overlap(#[trigger] routes@[k].cidr, client_pool.cidr),
                Some(id) => {
                    &&& exists|k: int|
                        0 <= k < index && overlap(#[trigger] routes@[k].cidr, client_pool.cidr)
                            && routes@[k].gateway_id == id
                    &&& forall|k: int|
                        0 <= k < index && overlap(#[trigger] routes@[k].cidr, client_pool.cidr)
                            ==> routes@[k].gateway_id == id
                },
            },
        decreases routes@.len() - index,
    {
        let left = routes[index];
        if networks_overlap(left.cidr, client_pool.cidr) {
            match client_router {
                None => {
                    client_router = Some(left.gateway_id);
                },
                Some(id) => {
                    if id != left.gateway_id {
                        assert(client_conflict(client_pool, routes@, index as int));
                        return Err(NetworkError::MultipleClientRoutingGateways);
                    }
                },
            }
        }
        assert(!client_conflict(client_pool, routes@, index as int));
        let mut j: usize = index + 1;
        while j < routes.len()
            invariant
                index < j <= routes@.len(),
                left == routes@[index as int],
                clear_before(client_pool, routes@, index as int),
                !client_conflict(client_pool, routes@, index as int),
                forall|k: int|
                    index < k < j ==> !#[trigger] cross_conflict(routes@, index as int, k),
            decreases routes@.len() - j,
        {
            let right = routes[j];
            if left.gateway_id != right.gateway_id && networks_overlap(left.cidr, right.cidr) {
                assert(cross_conflict(routes@, index as int, j as int));
                return Err(
                    NetworkError::CrossGatewayOverlap {
                        left: left.cidr,
                        right: right.cidr,
                        left_gateway: left.gateway_id,
                        right_gateway: right.gateway_id,
                    },
                );
            }
            j = j + 1;
        }
        index = index + 1;
    }
    Ok(())
}

/// Whether some route holds an address.
pub open spec fn routed(routes: Seq<GatewayRoute>, address: u32) -> bool {
    exists|i: int| 0 <= i < routes.len() && #[trigger] routes[i].cidr.holds(address)
}

/// Rejects literal gateway endpoints that would be captured by any client `AllowedIPs` route.
/// Hostnames cannot be resolved safely at configuration time and must be kept outside
/// protected prefixes by the administrator.
pub fn validate_endpoint_routes(routes: &[GatewayRoute], endpoints: &[SocketAddrV4]) -> (r: Result<
    (),
    NetworkError,
>)
    ensures
        match r {
            Ok(_) => forall|i: int|
                0 <= i < endpoints@.len() ==> !routed(routes@, (#[trigger] endpoints@[i]).ip),
            Err(error) => exists|i: int|
                {
                    &&& 0 <= i < endpoints@.len()
                    &&& error == NetworkError::EndpointInsideRoute(#[trigger] endpoints@[i])
                    &&& routed(routes@, endpoints@[i].ip)
                    &&& forall|k: int|
                        0 <= k < i ==> !routed(routes@, (#[trigger] endpoints@[k]).ip)
                },
        },
{
    let mut i: usize = 0;
    while i < endpoints.len()
        invariant
            i <= endpoints@.len(),
            forall|k: int| 0 <= k < i ==> !routed(routes@, (#[trigger] endpoints@[k]).ip),
        decreases endpoints@.len() - i,
    {
        let endpoint = endpoints[i];
        let mut j: usize = 0;
        while j < routes.len()
            invariant
                j <= routes@.len(),
                i < endpoints@.len(),
                endpoint == endpoints@[i as int],
                forall|k: int| 0 <= k < i ==> !routed(routes@, (#[trigger] endpoints@[k]).ip),
                forall|k: int| 0 <= k < j ==> !#[trigger] routes@[k].cidr.holds(endpoint.ip),
            decreases routes@.len() - j,
        {
            if routes[j].cidr.contains(endpoint.ip) {
                assert(routes@[j as int].cidr.holds(endpoint.ip));
                assert(routed(routes@, endpoints@[i as int].ip));
                return Err(NetworkError::EndpointInsideRoute(endpoint));
            }
            j = j + 1;
        }
        i = i + 1;
    }
    Ok(())
}

/// Two networks overlap where some address lies in both, whichever is named first.
pub proof fn law_overlap(left: Ipv4Net, right: Ipv4Net)
    requires
        left.wf(),
        right.wf(),
    ensures
        overlap(left, right) <==> exists|a: u32|
            #[trigger] left.holds(a) && #[trigger] right.holds(a),
        overlap(left, right) == overlap(right, left),
{
    lemma_block(left.base(), left.bits());
    lemma_block(right.base(), right.bits());
    if overlap(left, right) {
        let a = if left.first() >= right.first() {
            left.first() as u32
        } else {
            right.first() as u32
        };
        assert(left.holds(a) && right.holds(a));
    }
}

/// An allocated address is never the pool's network, broadcast or compatibility address, and
/// lies in the pool.
pub proof fn law_allocatable_excludes_reserved(pool: ClientPool, address: u32)
    requires
        pool.wf(),
    ensures
        pool.allocatable(address) <==> (pool.cidr.holds(address) && address != pool.cidr.first()
            && address != pool.cidr.last() && address != pool.cidr.first() + 1),
{
}

/// The number of allocatable addresses is the pool's capacity: they are the consecutive
/// addresses from the third up to the one before the last.
pub proof fn law_capacity(pool: ClientPool)
    requires
        pool.wf(),
    ensures
        pool.cidr.last() - (pool.cidr.first() + 2) == address_count_of(pool.cidr) - 3,
        address_count_of(pool.cidr) - 3 >= 1,
{
}

/// After an accepted expansion every address of the old pool is in the new one, and what could
/// be given to a client before still can.
pub proof fn law_expansion_keeps_addresses(old_pool: ClientPool, new_pool: ClientPool, address: u32)
    requires
        old_pool.wf(),
        new_pool.wf(),
        old_pool.expands_to(new_pool),
    ensures
        old_pool.cidr.holds(address) ==> new_pool.cidr.holds(address),
        old_pool.allocatable(address) ==> new_pool.allocatable(address),
{
    let (o, n) = (old_pool.cidr, new_pool.cidr);
    lemma_block(o.base(), o.bits());
    lemma_block(n.base(), n.bits());
    lemma_blocks_nest(n, o);
    if n.first() == o.first() {
    } else {
        let s = block_size(o.bits());
        let big = block_size(n.bits());
        lemma_pow2_adds((32 - o.bits()) as nat, (o.bits() - n.bits()) as nat);
        let k = pow2((o.bits() - n.bits()) as nat) as int;
        let (p, q) = (o.first() / s, n.first() / big);
        vstd::arithmetic::div_mod::lemma_fundamental_div_mod(o.first(), s);
        vstd::arithmetic::div_mod::lemma_fundamental_div_mod(n.first(), big);
        assert(o.first() - n.first() >= s) by (nonlinear_arith)
            requires
                o.first() == s * p,
                n.first() == big * q,
                big == s * k,
                o.first() > n.first(),
                s >= 1,
        {
            assert(n.first() == s * (k * q));
            assert(p > k * q);
            assert(s * p >= s * (k * q + 1));
        }
    }
}

/// Routes that were accepted never send one address to two gateways, and never let two
/// gateways route the client pool.
pub proof fn law_accepted_routes_are_deterministic(
    pool: ClientPool,
    routes: Seq<GatewayRoute>,
    i: int,
    j: int,
    address: u32,
)
    requires
        routes_outcome(pool, routes, Ok(())),
        0 <= i < routes.len(),
        0 <= j < routes.len(),
        routes[i].gateway_id != routes[j].gateway_id,
    ensures
        !(routes[i].cidr.holds(address) && routes[j].cidr.holds(address)),
        !(overlap(routes[i].cidr, pool.cidr) && overlap(routes[j].cidr, pool.cidr)),
{
    if i < j {
        assert(!cross_conflict(routes, i, j));
        assert(!client_conflict(pool, routes, j));
    } else {
        assert(!cross_conflict(routes, j, i));
        assert(!client_conflict(pool, routes, i));
    }
}

} // verus!
