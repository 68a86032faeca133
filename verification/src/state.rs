//! The state that a gateway is asked to bring about.

use std::collections::BTreeSet;

use vstd::prelude::*;
use vstd::string::*;

use crate::acl::{AclAction, AclRule, IpProtocol, PortRange};
use crate::ids::Uuid;
use crate::ipv4::{Ipv4Addr, Ipv4Net};
use crate::sort::{
    in_order, lemma_no_repeats_is_fixed, lemma_sorted_is_fixed, lemma_sorted_map, lemma_stable_sorted,
    lemma_without_repeats, stable_sort, stable_sorted, without_repeats, Ranked, Sortable,
};

verus! {

/// One device that a gateway lets in.
#[derive(Debug, Clone, PartialEq, Eq)]
pub struct DesiredPeer {
    pub device_id: Uuid,
    pub user_id: Uuid,
    pub public_key: String,
    pub allowed_address: Ipv4Addr,
    /// Effective canonical groups, included so agents can compile group ACLs without needing
    /// access to the identity database.
    pub group_ids: BTreeSet<Uuid>,
}

/// What a gateway is asked to be.
#[derive(Debug, Clone, PartialEq, Eq)]
pub struct DesiredGatewayState {
    pub gateway_id: Uuid,
    pub revision: u64,
    pub interface_name: String,
    pub listen_port: u16,
    pub mtu: Option<u16>,
    /// Reserved first-usable client-pool address used only by RouterOS installations whose
    /// acceptance test requires a numbered interface.
    pub compatibility_address: Option<Ipv4Addr>,
    pub routes: Vec<Ipv4Net>,
    pub peers: Vec<DesiredPeer>,
    pub acl_default: AclAction,
    pub acl_rules: Vec<AclRule>,
    pub terminate_sources: Vec<Ipv4Addr>,
}

/// The contents of a [`DesiredPeer`].
#[verifier::ext_equal]
pub struct PeerView {
    pub device_id: Uuid,
    pub user_id: Uuid,
    pub public_key: Seq<char>,
    pub allowed_address: Ipv4Addr,
    pub group_ids: Set<Uuid>,
}

/// The contents of an [`AclRule`].
#[verifier::ext_equal]
pub struct RuleView {
    pub id: Uuid,
    pub position: u32,
    pub action: AclAction,
    pub destination: Ipv4Net,
    pub protocol: IpProtocol,
    pub destination_ports: Option<PortRange>,
    pub users: Set<Uuid>,
    pub groups: Set<Uuid>,
    pub enabled: bool,
}

/// The contents of a [`DesiredGatewayState`].
#[verifier::ext_equal]
pub struct StateView {
    pub gateway_id: Uuid,
    pub revision: u64,
    pub interface_name: Seq<char>,
    pub listen_port: u16,
    pub mtu: Option<u16>,
    pub compatibility_address: Option<Ipv4Addr>,
    pub routes: Seq<Ipv4Net>,
    pub peers: Seq<PeerView>,
    pub acl_default: AclAction,
    pub acl_rules: Seq<RuleView>,
    pub terminate_sources: Seq<Ipv4Addr>,
}

impl View for DesiredPeer {
    type V = PeerView;

    open spec fn view(&self) -> PeerView {
        PeerView {
            device_id: self.device_id,
            user_id: self.user_id,
            public_key: self.public_key@,
            allowed_address: self.allowed_address,
            group_ids: self.group_ids@,
        }
    }
}

impl View for AclRule {
    type V = RuleView;

    open spec fn view(&self) -> RuleView {
        RuleView {
            id: self.id,
            position: self.position,
            action: self.action,
            destination: self.destination,
            protocol: self.protocol,
            destination_ports: self.destination_ports,
            users: self.subjects.users@,
            groups: self.subjects.groups@,
            enabled: self.enabled,
        }
    }
}

impl View for DesiredGatewayState {
    type V = StateView;

    open spec fn view(&self) -> StateView {
        StateView {
            gateway_id: self.gateway_id,
            revision: self.revision,
            interface_name: self.interface_name@,
            listen_port: self.listen_port,
            mtu: self.mtu,
            compatibility_address: self.compatibility_address,
            routes: self.routes@,
            peers: self.peers@.map_values(|p: DesiredPeer| p@),
            acl_default: self.acl_default,
            acl_rules: self.acl_rules@.map_values(|r: AclRule| r@),
            terminate_sources: self.terminate_sources@,
        }
    }
}

impl Ranked for u32 {
    open spec fn no_later(self, other: Self) -> bool {
        self <= other
    }

    proof fn lemma_total(a: Self, b: Self) {
    }

    proof fn lemma_transitive(a: Self, b: Self, c: Self) {
    }
}

impl Sortable for u32 {
    fn is_no_later(&self, other: &Self) -> bool {
        *self <= *other
    }
}

impl Ranked for Ipv4Net {
    open spec fn no_later(self, other: Self) -> bool {
        self.precedes(other)
    }

    proof fn lemma_total(a: Self, b: Self) {
    }

    proof fn lemma_transitive(a: Self, b: Self, c: Self) {
    }
}

impl Sortable for Ipv4Net {
    fn is_no_later(&self, other: &Self) -> bool {
        self.at_most(other)
    }
}

impl Ranked for DesiredPeer {
    open spec fn no_later(self, other: Self) -> bool {
        self.allowed_address < other.allowed_address || (self.allowed_address
            == other.allowed_address && self.device_id <= other.device_id)
    }

    proof fn lemma_total(a: Self, b: Self) {
    }

    proof fn lemma_transitive(a: Self, b: Self, c: Self) {
    }
}

impl Ranked for PeerView {
    open spec fn no_later(self, other: Self) -> bool {
        self.allowed_address < other.allowed_address || (self.allowed_address
            == other.allowed_address && self.device_id <= other.device_id)
    }

    proof fn lemma_total(a: Self, b: Self) {
    }

    proof fn lemma_transitive(a: Self, b: Self, c: Self) {
    }
}

impl Ranked for RuleView {
    open spec fn no_later(self, other: Self) -> bool {
        self.position < other.position || (self.position == other.position && self.id <= other.id)
    }

    proof fn lemma_total(a: Self, b: Self) {
    }

    proof fn lemma_transitive(a: Self, b: Self, c: Self) {
    }
}

impl Sortable for DesiredPeer {
    fn is_no_later(&self, other: &Self) -> bool {
        self.allowed_address < other.allowed_address || (self.allowed_address
            == other.allowed_address && self.device_id <= other.device_id)
    }
}

impl Ranked for AclRule {
    open spec fn no_later(self, other: Self) -> bool {
        self.position < other.position || (self.position == other.position && self.id <= other.id)
    }

    proof fn lemma_total(a: Self, b: Self) {
    }

    proof fn lemma_transitive(a: Self, b: Self, c: Self) {
    }
}

impl Sortable for AclRule {
    fn is_no_later(&self, other: &Self) -> bool {
        self.position < other.position || (self.position == other.position && self.id <= other.id)
    }
}

/// Puts networks in order and keeps one of each.
pub fn canonicalize_routes(routes: &mut Vec<Ipv4Net>)
    ensures
        final(routes)@ == canonical_routes(old(routes)@),
{
    stable_sort(routes);
    dedup_routes(routes);
}

fn dedup_routes(routes: &mut Vec<Ipv4Net>)
    ensures
        final(routes)@ == without_repeats(old(routes)@),
{
    let ghost all = routes@;
    let mut kept: Vec<Ipv4Net> = Vec::new();
    let mut i: usize = 0;
    assert(all.take(0) =~= Seq::<Ipv4Net>::empty());
    while i < routes.len()
        invariant
            i <= routes@.len(),
            routes@ == all,
            kept@ == without_repeats(all.take(i as int)),
        decreases routes@.len() - i,
    {
        let ghost next = all.take(i + 1);
        assert(next.drop_last() =~= all.take(i as int));
        if i == 0 || routes[i - 1] != routes[i] {
            kept.push(routes[i]);
        }
        assert(kept@ =~= without_repeats(next));
        i = i + 1;
    }
    assert(all.take(i as int) =~= all);
    *routes = kept;
}

/// Puts addresses in order and keeps one of each.
pub fn sort_addresses(addresses: &mut Vec<Ipv4Addr>)
    ensures
        final(addresses)@ == canonical_addresses(old(addresses)@),
{
    stable_sort(addresses);
    let ghost all = addresses@;
    let mut kept: Vec<Ipv4Addr> = Vec::new();
    let mut i: usize = 0;
    assert(all.take(0) =~= Seq::<Ipv4Addr>::empty());
    while i < addresses.len()
        invariant
            i <= addresses@.len(),
            addresses@ == all,
            kept@ == without_repeats(all.take(i as int)),
        decreases addresses@.len() - i,
    {
        let ghost next = all.take(i + 1);
        assert(next.drop_last() =~= all.take(i as int));
        if i == 0 || addresses[i - 1] != addresses[i] {
            kept.push(addresses[i]);
        }
        assert(kept@ =~= without_repeats(next));
        i = i + 1;
    }
    assert(all.take(i as int) =~= all);
    *addresses = kept;
}

/// Networks in order, each once.
pub open spec fn canonical_routes(routes: Seq<Ipv4Net>) -> Seq<Ipv4Net> {
    without_repeats(stable_sorted(routes))
}

/// Addresses in order, each once.
pub open spec fn canonical_addresses(addresses: Seq<Ipv4Addr>) -> Seq<Ipv4Addr> {
    without_repeats(stable_sorted(addresses))
}

/// A state with its parts in their canonical order.
pub open spec fn canonical(state: StateView) -> StateView {
    StateView {
        routes: canonical_routes(state.routes),
        peers: stable_sorted(state.peers),
        acl_rules: stable_sorted(state.acl_rules),
        terminate_sources: canonical_addresses(state.terminate_sources),
        ..state
    }
}

impl DesiredGatewayState {
    /// Puts routes, peers, rules and terminated sources in their canonical order.
    pub fn canonicalize(&mut self)
        ensures
            final(self).gateway_id == old(self).gateway_id,
            final(self).revision == old(self).revision,
            final(self).interface_name@ == old(self).interface_name@,
            final(self).listen_port == old(self).listen_port,
            final(self).mtu == old(self).mtu,
            final(self).compatibility_address == old(self).compatibility_address,
            final(self).acl_default == old(self).acl_default,
            final(self).routes@ == canonical_routes(old(self).routes@),
            final(self).peers@ == stable_sorted(old(self).peers@),
            final(self).acl_rules@ == stable_sorted(old(self).acl_rules@),
            final(self).terminate_sources@ == canonical_addresses(old(self).terminate_sources@),
            final(self)@ == canonical(old(self)@),
    {
        proof {
            lemma_sorted_map(self.peers@, |p: DesiredPeer| p@);
            lemma_sorted_map(self.acl_rules@, |r: AclRule| r@);
        }
        canonicalize_routes(&mut self.routes);
        stable_sort(&mut self.peers);
        stable_sort(&mut self.acl_rules);
        sort_addresses(&mut self.terminate_sources);
    }
}

/// The canonical routes are the same networks, each once and in order.
pub proof fn law_canonical_routes(routes: Seq<Ipv4Net>)
    ensures
        in_order(canonical_routes(routes)),
        canonical_routes(routes).no_duplicates(),
        canonical_routes(routes).to_set() == routes.to_set(),
{
    lemma_stable_sorted(routes);
    assert forall|a: Ipv4Net, b: Ipv4Net| a.no_later(b) && b.no_later(a) implies a == b by {
        a.lemma_equal(b);
    }
    lemma_without_repeats(stable_sorted(routes));
    lemma_same_members(stable_sorted(routes), routes);
}

/// The canonical terminated sources are the same addresses, each once and in order.
pub proof fn law_canonical_addresses(addresses: Seq<Ipv4Addr>)
    ensures
        in_order(canonical_addresses(addresses)),
        canonical_addresses(addresses).no_duplicates(),
        canonical_addresses(addresses).to_set() == addresses.to_set(),
{
    lemma_stable_sorted(addresses);
    lemma_without_repeats(stable_sorted(addresses));
    lemma_same_members(stable_sorted(addresses), addresses);
}

proof fn lemma_same_members<T>(a: Seq<T>, b: Seq<T>)
    requires
        a.to_multiset() == b.to_multiset(),
    ensures
        a.to_set() == b.to_set(),
{
    broadcast use vstd::seq_lib::group_to_multiset_ensures;

    assert forall|x: T| a.contains(x) == b.contains(x) by {
        assert(a.contains(x) <==> a.to_multiset().count(x) > 0);
        assert(b.contains(x) <==> b.to_multiset().count(x) > 0);
    }
    assert(a.to_set() =~= b.to_set());
}

/// Canonicalizing twice is canonicalizing once.
pub proof fn law_canonicalize_is_idempotent(state: StateView)
    ensures
        canonical(canonical(state)) == canonical(state),
{
    law_canonical_routes(state.routes);
    lemma_sorted_is_fixed(canonical_routes(state.routes));
    lemma_no_repeats_is_fixed(canonical_routes(state.routes));
    law_canonical_addresses(state.terminate_sources);
    lemma_sorted_is_fixed(canonical_addresses(state.terminate_sources));
    lemma_no_repeats_is_fixed(canonical_addresses(state.terminate_sources));
    lemma_stable_sorted(state.peers);
    lemma_sorted_is_fixed(stable_sorted(state.peers));
    lemma_stable_sorted(state.acl_rules);
    lemma_sorted_is_fixed(stable_sorted(state.acl_rules));
}

} // verus!
