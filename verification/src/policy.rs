//! What the access rules of a gateway say to a packet filter: the enabled rules in the order in
//! which they are tried, each with the devices that it speaks of.

use vstd::prelude::*;

use crate::acl::{
    acl_outcome, first_match, port_admitted, subjects_cover, AclAction, AclRule, IpProtocol,
    PacketContext,
};
use crate::ipv4::{Ipv4Addr, Ipv4Net};
use crate::sort::{
    lemma_sorted_map, lemma_stable_sorted, stable_sort, stable_sorted, Ranked, Sortable,
};
use crate::state::{PeerView, RuleView, StateView};

verus! {

impl RuleView {
    /// The order in which rules are tried: by position, denials before permissions, then by
    /// identifier.
    pub open spec fn tried_no_later(self, other: Self) -> bool {
        if self.position != other.position {
            self.position < other.position
        } else if self.action != other.action {
            self.action == AclAction::Deny
        } else {
            self.id <= other.id
        }
    }

    /// Whether the rule speaks of where a packet goes, whoever sent it.
    pub open spec fn aims_at(self, packet: PacketContext) -> bool {
        &&& self.destination.holds(packet.destination)
        &&& (self.protocol == IpProtocol::Any || self.protocol == packet.protocol)
        &&& port_admitted(self.destination_ports, packet.destination_port)
    }

    /// Whether the rule speaks of a device.
    pub open spec fn covers(self, peer: PeerView) -> bool {
        subjects_cover(self.users, self.groups, peer.user_id, peer.group_ids)
    }
}

/// A rule that takes its turn.
#[verifier::ext_equal]
pub struct Turn {
    pub rule: RuleView,
}

impl Ranked for Turn {
    open spec fn no_later(self, other: Self) -> bool {
        self.rule.tried_no_later(other.rule)
    }

    proof fn lemma_total(a: Self, b: Self) {
    }

    proof fn lemma_transitive(a: Self, b: Self, c: Self) {
    }
}

/// A rule that is to take its turn.
pub struct Candidate<'a> {
    pub rule: &'a AclRule,
}

impl<'a> Ranked for Candidate<'a> {
    open spec fn no_later(self, other: Self) -> bool {
        self.rule.tried_no_later(*other.rule)
    }

    proof fn lemma_total(a: Self, b: Self) {
    }

    proof fn lemma_transitive(a: Self, b: Self, c: Self) {
    }
}

impl<'a> Sortable for Candidate<'a> {
    fn is_no_later(&self, other: &Self) -> bool {
        self.rule.tried_before_or_with(other.rule)
    }
}

/// The enabled ones of some rules.
pub open spec fn enabled_rules(rules: Seq<RuleView>) -> Seq<RuleView>
    decreases rules.len(),
{
    if rules.len() == 0 {
        Seq::empty()
    } else if rules.last().enabled {
        enabled_rules(rules.drop_last()).push(rules.last())
    } else {
        enabled_rules(rules.drop_last())
    }
}

/// The enabled ones of some rules, in the order in which they are tried.
pub open spec fn in_turn(rules: Seq<RuleView>) -> Seq<RuleView> {
    stable_sorted(enabled_rules(rules).map_values(|r: RuleView| Turn { rule: r })).map_values(
        |t: Turn| t.rule,
    )
}

/// The enabled ones of some rules, in the order in which they are tried.
pub fn rules_in_turn<'a>(rules: &'a [AclRule]) -> (r: Vec<Candidate<'a>>)
    ensures
        r@.map_values(|c: Candidate<'a>| c.rule@) == in_turn(rules@.map_values(|p: AclRule| p@)),
        forall|i: int| 0 <= i < r@.len() ==> rules@.contains(*(#[trigger] r@[i]).rule),
{
    let ghost views = rules@.map_values(|p: AclRule| p@);
    let mut list: Vec<Candidate<'a>> = Vec::new();
    let mut i: usize = 0;
    assert(views.take(0) =~= Seq::<RuleView>::empty());
    assert(list@.map_values(|c: Candidate<'a>| c.rule@) =~= Seq::<RuleView>::empty());
    while i < rules.len()
        invariant
            i <= rules@.len(),
            views == rules@.map_values(|p: AclRule| p@),
            list@.map_values(|c: Candidate<'a>| c.rule@) == enabled_rules(views.take(i as int)),
            forall|k: int| 0 <= k < list@.len() ==> rules@.contains(*(#[trigger] list@[k]).rule),
        decreases rules@.len() - i,
    {
        let ghost next = views.take(i + 1);
        assert(next.drop_last() =~= views.take(i as int));
        assert(next.last() == rules@[i as int]@);
        if rules[i].enabled {
            let ghost before = list@;
            list.push(Candidate { rule: &rules[i] });
            assert(list@.map_values(|c: Candidate<'a>| c.rule@) =~= before.map_values(
                |c: Candidate<'a>| c.rule@,
            ).push(rules@[i as int]@));
            assert(rules@.contains(rules@[i as int]));
        }
        i = i + 1;
    }
    assert(views.take(i as int) =~= views);
    let ghost unsorted = list@;
    stable_sort(&mut list);
    proof {
        let turn = |c: Candidate<'a>| Turn { rule: c.rule@ };
        lemma_sorted_map(unsorted, turn);
        let enabled = enabled_rules(views).map_values(|r: RuleView| Turn { rule: r });
        assert(unsorted.map_values(turn) =~= enabled) by {
            assert forall|k: int| 0 <= k < unsorted.len() implies unsorted.map_values(turn)[k]
                == enabled[k] by {
                assert(unsorted.map_values(|c: Candidate<'a>| c.rule@)[k] == unsorted[k].rule@);
            }
        }
        assert(list@.map_values(|c: Candidate<'a>| c.rule@) =~= in_turn(views)) by {
            assert forall|k: int| 0 <= k < list@.len() implies list@.map_values(
                |c: Candidate<'a>| c.rule@,
            )[k] == in_turn(views)[k] by {
                assert(list@.map_values(turn)[k] == turn(list@[k]));
            }
        }
        broadcast use vstd::seq_lib::group_to_multiset_ensures;

        assert forall|k: int| 0 <= k < list@.len() implies rules@.contains(
            *(#[trigger] list@[k]).rule,
        ) by {
            assert(list@.contains(list@[k]));
            assert(list@.to_multiset().count(list@[k]) > 0);
            assert(unsorted.to_multiset().count(list@[k]) > 0);
            assert(unsorted.contains(list@[k]));
            let m = choose|m: int| 0 <= m < unsorted.len() && unsorted[m] == list@[k];
            assert(rules@.contains(*unsorted[m].rule));
        }
    }
    list
}

/// The devices that a rule speaks of.
pub open spec fn covered(peers: Seq<PeerView>, rule: RuleView) -> Seq<PeerView>
    decreases peers.len(),
{
    if peers.len() == 0 {
        Seq::empty()
    } else if rule.covers(peers.last()) {
        covered(peers.drop_last(), rule).push(peers.last())
    } else {
        covered(peers.drop_last(), rule)
    }
}

/// A line of a packet filter: a rule and the devices that it speaks of.
#[verifier::ext_equal]
pub struct PolicyLine {
    pub rule: RuleView,
    pub sources: Seq<PeerView>,
}

/// Whether a device of some has an address.
pub open spec fn has_address(peers: Seq<PeerView>, address: Ipv4Addr) -> bool {
    exists|k: int| 0 <= k < peers.len() && (#[trigger] peers[k]).allowed_address == address
}

impl PolicyLine {
    /// Whether the line speaks of a packet from an address.
    pub open spec fn matches(self, source: Ipv4Addr, packet: PacketContext) -> bool {
        has_address(self.sources, source) && self.rule.aims_at(packet)
    }
}

/// The lines of some rules, one for each rule that speaks of a device at all.
pub open spec fn policy_lines(rules: Seq<RuleView>, peers: Seq<PeerView>) -> Seq<PolicyLine>
    decreases rules.len(),
{
    if rules.len() == 0 {
        Seq::empty()
    } else {
        let before = policy_lines(rules.drop_last(), peers);
        let sources = covered(peers, rules.last());
        if sources.len() == 0 {
            before
        } else {
            before.push(PolicyLine { rule: rules.last(), sources })
        }
    }
}

/// The first line that speaks of a packet from an address.
pub open spec fn first_line(lines: Seq<PolicyLine>, source: Ipv4Addr, packet: PacketContext) -> Option<
    int,
>
    decreases lines.len(),
{
    if lines.len() == 0 {
        None
    } else {
        match first_line(lines.drop_last(), source, packet) {
            Some(i) => Some(i),
            None => if lines.last().matches(source, packet) {
                Some(lines.len() - 1)
            } else {
                None
            },
        }
    }
}

/// What a packet filter is told: the devices that may send at all, the networks to which they may
/// send at all, the lines in order, and what happens to the rest.
#[verifier::ext_equal]
pub struct Policy {
    pub peers: Seq<PeerView>,
    pub routes: Seq<Ipv4Net>,
    pub lines: Seq<PolicyLine>,
    pub otherwise: AclAction,
}

/// What the packet filter of a gateway is told.
pub open spec fn policy_of(state: StateView) -> Policy {
    Policy {
        peers: state.peers,
        routes: state.routes,
        lines: policy_lines(in_turn(state.acl_rules), state.peers),
        otherwise: state.acl_default,
    }
}

/// Whether an address is in one of some networks.
pub open spec fn is_routed(routes: Seq<Ipv4Net>, address: Ipv4Addr) -> bool {
    exists|k: int| 0 <= k < routes.len() && (#[trigger] routes[k]).holds(address)
}

impl Policy {
    /// What happens to a packet that opens a connection: it is dropped where no device has its
    /// source or no protected network its destination; else the first line that speaks of it
    /// decides.
    pub open spec fn verdict(self, source: Ipv4Addr, packet: PacketContext) -> AclAction {
        if !has_address(self.peers, source) || !is_routed(self.routes, packet.destination) {
            AclAction::Deny
        } else {
            match first_line(self.lines, source, packet) {
                Some(i) => self.lines[i].rule.action,
                None => self.otherwise,
            }
        }
    }
}

/// Whether no two devices have the same address.
pub open spec fn distinct_addresses(peers: Seq<PeerView>) -> bool {
    forall|i: int, j: int|
        0 <= i < j < peers.len() ==> (#[trigger] peers[i]).allowed_address
            != (#[trigger] peers[j]).allowed_address
}

/// The first of some rules that speaks of a packet of a device.
spec fn first_rule(rules: Seq<RuleView>, peer: PeerView, packet: PacketContext) -> Option<int>
    decreases rules.len(),
{
    if rules.len() == 0 {
        None
    } else {
        match first_rule(rules.drop_last(), peer, packet) {
            Some(i) => Some(i),
            None => if rules.last().covers(peer) && rules.last().aims_at(packet) {
                Some(rules.len() - 1)
            } else {
                None
            },
        }
    }
}

proof fn lemma_covered(peers: Seq<PeerView>, rule: RuleView, i: int)
    requires
        distinct_addresses(peers),
        0 <= i < peers.len(),
    ensures
        has_address(covered(peers, rule), peers[i].allowed_address) == rule.covers(peers[i]),
    decreases peers.len(),
{
    let rest = peers.drop_last();
    let before = covered(rest, rule);
    let all = covered(peers, rule);
    let address = peers[i].allowed_address;
    assert(distinct_addresses(rest)) by {
        assert forall|a: int, b: int| 0 <= a < b < rest.len() implies (
        #[trigger] rest[a]).allowed_address != (#[trigger] rest[b]).allowed_address by {
            assert(peers[a].allowed_address != peers[b].allowed_address);
        }
    }
    if i < peers.len() - 1 {
        lemma_covered(rest, rule, i);
        assert(peers[i].allowed_address != peers[peers.len() - 1].allowed_address);
        if has_address(before, address) {
            let k = choose|k: int|
                0 <= k < before.len() && (#[trigger] before[k]).allowed_address == address;
            assert(all[k].allowed_address == address);
        }
        if has_address(all, address) {
            let k = choose|k: int|
                0 <= k < all.len() && (#[trigger] all[k]).allowed_address == address;
            assert(k < before.len());
            assert(before[k].allowed_address == address);
        }
    } else {
        lemma_covered_are_peers(rest, rule);
        if rule.covers(peers[i]) {
            assert(all[before.len() as int].allowed_address == address);
        } else if has_address(all, address) {
            let k = choose|k: int|
                0 <= k < all.len() && (#[trigger] all[k]).allowed_address == address;
            assert(rest.contains(before[k]));
            let m = choose|m: int| 0 <= m < rest.len() && rest[m] == before[k];
            assert(peers[m].allowed_address != peers[peers.len() - 1].allowed_address);
        }
    }
}

proof fn lemma_covered_are_peers(peers: Seq<PeerView>, rule: RuleView)
    ensures
        forall|k: int|
            0 <= k < covered(peers, rule).len() ==> peers.contains(#[trigger] covered(peers, rule)[k]),
    decreases peers.len(),
{
    if peers.len() > 0 {
        let rest = peers.drop_last();
        lemma_covered_are_peers(rest, rule);
        assert forall|k: int| 0 <= k < covered(peers, rule).len() implies peers.contains(
            #[trigger] covered(peers, rule)[k],
        ) by {
            if k < covered(rest, rule).len() {
                assert(rest.contains(covered(rest, rule)[k]));
                let m = choose|m: int| 0 <= m < rest.len() && rest[m] == covered(rest, rule)[k];
                assert(peers[m] == covered(peers, rule)[k]);
            } else {
                assert(peers[peers.len() - 1] == covered(peers, rule)[k]);
            }
        }
    }
}

proof fn lemma_first_line(
    rules: Seq<RuleView>,
    peers: Seq<PeerView>,
    i: int,
    packet: PacketContext,
)
    requires
        distinct_addresses(peers),
        0 <= i < peers.len(),
    ensures
        match first_rule(rules, peers[i], packet) {
            Some(j) => {
                &&& 0 <= j < rules.len()
                &&& rules[j].covers(peers[i]) && rules[j].aims_at(packet)
                &&& forall|k: int|
                    0 <= k < j ==> !((#[trigger] rules[k]).covers(peers[i]) && rules[k].aims_at(
                        packet,
                    ))
                &&& first_line(
                    policy_lines(rules, peers),
                    peers[i].allowed_address,
                    packet,
                ) matches Some(m)
                &&& 0 <= m < policy_lines(rules, peers).len()
                &&& policy_lines(rules, peers)[m].rule == rules[j]
            },
            None => {
                &&& forall|k: int|
                    0 <= k < rules.len() ==> !((#[trigger] rules[k]).covers(peers[i])
                        && rules[k].aims_at(packet))
                &&& first_line(
                    policy_lines(rules, peers),
                    peers[i].allowed_address,
                    packet,
                ) is None
            },
        },
    decreases rules.len(),
{
    if rules.len() > 0 {
        let rest = rules.drop_last();
        lemma_first_line(rest, peers, i, packet);
        lemma_covered(peers, rules.last(), i);
        let before = policy_lines(rest, peers);
        let all = policy_lines(rules, peers);
        assert(forall|k: int| 0 <= k < rest.len() ==> rules[k] == rest[k]);
        if covered(peers, rules.last()).len() > 0 {
            assert(all.drop_last() =~= before);
        } else {
            assert(!has_address(covered(peers, rules.last()), peers[i].allowed_address));
        }
        assert(rules[rules.len() - 1] == rules.last());
    }
}

proof fn lemma_enabled(rules: Seq<RuleView>, x: RuleView)
    ensures
        enabled_rules(rules).contains(x) <==> rules.contains(x) && x.enabled,
    decreases rules.len(),
{
    if rules.len() > 0 {
        let rest = rules.drop_last();
        lemma_enabled(rest, x);
        assert(rules =~= rest.push(rules.last()));
        assert(rules.contains(x) <==> rest.contains(x) || x == rules.last()) by {
            if rest.contains(x) {
                let k = choose|k: int| 0 <= k < rest.len() && rest[k] == x;
                assert(rules[k] == x);
            }
            if x == rules.last() {
                assert(rules[rules.len() - 1] == x);
            }
        }
        if rules.last().enabled {
            let before = enabled_rules(rest);
            let all = before.push(rules.last());
            assert(all.contains(x) <==> before.contains(x) || x == rules.last()) by {
                if before.contains(x) {
                    let k = choose|k: int| 0 <= k < before.len() && before[k] == x;
                    assert(all[k] == x);
                }
                assert(all[before.len() as int] == rules.last());
            }
        }
    }
}

/// The rules in turn are the enabled ones, and none stands behind one that is tried later.
proof fn lemma_in_turn(rules: Seq<RuleView>)
    ensures
        forall|x: RuleView| #[trigger] in_turn(rules).contains(x) <==> rules.contains(x) && x.enabled,
        forall|i: int, j: int|
            0 <= i < j < in_turn(rules).len() ==> (#[trigger] in_turn(rules)[i]).tried_no_later(
                #[trigger] in_turn(rules)[j],
            ),
{
    broadcast use vstd::seq_lib::group_to_multiset_ensures;

    let enabled = enabled_rules(rules);
    let turns = enabled.map_values(|r: RuleView| Turn { rule: r });
    let sorted = stable_sorted(turns);
    lemma_stable_sorted(turns);
    assert forall|x: RuleView| #[trigger]
        in_turn(rules).contains(x) <==> rules.contains(x) && x.enabled by {
        lemma_enabled(rules, x);
        let turn = Turn { rule: x };
        assert(sorted.contains(turn) <==> turns.contains(turn)) by {
            assert(sorted.to_multiset().count(turn) == turns.to_multiset().count(turn));
        }
        if in_turn(rules).contains(x) {
            let k = choose|k: int| 0 <= k < in_turn(rules).len() && in_turn(rules)[k] == x;
            assert(sorted[k] == turn);
            let m = choose|m: int| 0 <= m < turns.len() && turns[m] == turn;
            assert(enabled[m] == x);
        }
        if enabled.contains(x) {
            let k = choose|k: int| 0 <= k < enabled.len() && enabled[k] == x;
            assert(turns[k] == turn);
            let m = choose|m: int| 0 <= m < sorted.len() && sorted[m] == turn;
            assert(in_turn(rules)[m] == x);
        }
    }
    assert forall|i: int, j: int| 0 <= i < j < in_turn(rules).len() implies (#[trigger] in_turn(
        rules,
    )[i]).tried_no_later(#[trigger] in_turn(rules)[j]) by {
        assert(sorted[i].no_later(sorted[j]));
    }
}

/// The rule of a line is one of the rules, and enabled.
pub proof fn lemma_lines_have_rules(rules: Seq<RuleView>, peers: Seq<PeerView>, i: int)
    requires
        0 <= i < policy_lines(in_turn(rules), peers).len(),
    ensures
        rules.contains(policy_lines(in_turn(rules), peers)[i].rule),
        policy_lines(in_turn(rules), peers)[i].rule.enabled,
{
    let turns = in_turn(rules);
    lemma_in_turn(rules);
    lemma_lines_of(turns, peers, i);
    assert(turns.contains(policy_lines(turns, peers)[i].rule));
}

proof fn lemma_lines_of(turns: Seq<RuleView>, peers: Seq<PeerView>, i: int)
    requires
        0 <= i < policy_lines(turns, peers).len(),
    ensures
        turns.contains(policy_lines(turns, peers)[i].rule),
    decreases turns.len(),
{
    if turns.len() > 0 {
        let less = turns.drop_last();
        let before = policy_lines(less, peers);
        if i < before.len() {
            lemma_lines_of(less, peers, i);
            let k = choose|k: int| 0 <= k < less.len() && less[k] == before[i].rule;
            assert(turns[k] == before[i].rule);
        } else {
            assert(turns[turns.len() - 1] == turns.last());
        }
    }
}

/// What a packet filter is told is what the access rules say: a packet of a device to a protected
/// network meets with what the rules decide for the user of the device and its groups.
pub proof fn law_policy_is_the_acl(
    state: StateView,
    rules: Seq<AclRule>,
    packet: PacketContext,
    peer: int,
    action: AclAction,
)
    requires
        state.acl_rules == rules.map_values(|r: AclRule| r@),
        distinct_addresses(state.peers),
        0 <= peer < state.peers.len(),
        packet.user_id == state.peers[peer].user_id,
        packet.group_ids@ == state.peers[peer].group_ids,
        is_routed(state.routes, packet.destination),
        acl_outcome(rules, state.acl_default, packet, action),
    ensures
        policy_of(state).verdict(state.peers[peer].allowed_address, packet) == action,
{
    let device = state.peers[peer];
    let turns = in_turn(state.acl_rules);
    lemma_in_turn(state.acl_rules);
    lemma_first_line(turns, state.peers, peer, packet);
    assert(has_address(state.peers, device.allowed_address));
    assert forall|k: int| 0 <= k < rules.len() implies (#[trigger] rules[k]).applies_to(packet) == (
    rules[k].enabled && rules[k]@.covers(device) && rules[k]@.aims_at(packet)) by {}
    if exists|i: int| 0 <= i < rules.len() && (#[trigger] rules[i]).applies_to(packet) {
        let i = choose|i: int| #[trigger] first_match(rules, packet, i) && action == rules[i].action;
        assert(state.acl_rules[i] == rules[i]@);
        assert(turns.contains(rules[i]@));
        let m = choose|m: int| 0 <= m < turns.len() && turns[m] == rules[i]@;
        assert(turns[m].covers(device) && turns[m].aims_at(packet));
        let j = first_rule(turns, device, packet)->0;
        assert(turns.contains(turns[j]));
        let n = choose|n: int| 0 <= n < state.acl_rules.len() && state.acl_rules[n] == turns[j];
        assert(rules[n]@ == turns[j]);
        assert(rules[n].applies_to(packet));
        assert(rules[i].tried_no_later(rules[n]));
        if j < m {
            assert(turns[j].tried_no_later(turns[m]));
        }
    } else {
        if first_rule(turns, device, packet) is Some {
            let j = first_rule(turns, device, packet)->0;
            assert(turns.contains(turns[j]));
            let n = choose|n: int| 0 <= n < state.acl_rules.len() && state.acl_rules[n] == turns[j];
            assert(rules[n]@ == turns[j]);
            assert(rules[n].applies_to(packet));
        }
    }
}

} // verus!
