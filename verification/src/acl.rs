//! Access rules: which packets of a user may reach which destinations.

use std::collections::BTreeSet;
use std::ops::RangeInclusive;

use vstd::prelude::*;

use crate::ids::Uuid;
use crate::ipv4::{Ipv4Addr, Ipv4Net};
use crate::sets::{has_id, sorted_ids};

verus! {

/// What happens to a packet.
#[derive(Debug, Clone, Copy, PartialEq, Eq, Structural)]
pub enum AclAction {
    Allow,
    Deny,
}

/// Which packets a rule speaks of.
#[derive(Debug, Clone, Copy, PartialEq, Eq, Structural)]
pub enum IpProtocol {
    Any,
    Tcp,
    Udp,
    Icmp,
}

/// Destination ports, both ends included.
#[derive(Debug, Clone, Copy, PartialEq, Eq, Structural)]
pub struct PortRange {
    pub start: u16,
    pub end: u16,
}

impl PortRange {
    /// The ports of the range.
    pub fn values(&self) -> (r: RangeInclusive<u16>)
        ensures
            r@.start == self.start,
            r@.end == self.end,
            !r@.exhausted,
    {
        RangeInclusive::new(self.start, self.end)
    }
}

/// Whom a rule speaks of: some users and groups, or everyone where both are empty.
#[derive(Debug, Clone, PartialEq, Eq)]
pub struct AclSubjects {
    pub users: BTreeSet<Uuid>,
    pub groups: BTreeSet<Uuid>,
}

/// Whether some users and groups cover a user who is in some groups: both are empty, the user
/// is named, or a group is shared.
pub open spec fn subjects_cover(
    users: Set<Uuid>,
    groups: Set<Uuid>,
    user_id: Uuid,
    group_ids: Set<Uuid>,
) -> bool {
    ||| users.is_empty() && groups.is_empty()
    ||| users.contains(user_id)
    ||| exists|g: Uuid| #[trigger] groups.contains(g) && group_ids.contains(g)
}

impl AclSubjects {
    /// Whether the subjects cover a user who is in some groups.
    pub open spec fn covers(self, user_id: Uuid, group_ids: Set<Uuid>) -> bool {
        subjects_cover(self.users@, self.groups@, user_id, group_ids)
    }

    /// The subjects of a rule for everyone.
    pub fn everyone() -> (r: Self)
        ensures
            r.users@.is_empty(),
            r.groups@.is_empty(),
            forall|user_id: Uuid, group_ids: Set<Uuid>| r.covers(user_id, group_ids),
    {
        Self { users: BTreeSet::new(), groups: BTreeSet::new() }
    }

    /// Whether the subjects cover a user who is in some groups.
    pub fn matches(&self, user_id: Uuid, group_ids: &BTreeSet<Uuid>) -> (r: bool)
        ensures
            r == self.covers(user_id, group_ids@),
    {
        (self.users.is_empty() && self.groups.is_empty()) || has_id(&self.users, user_id)
            || share_member(&self.groups, group_ids)
    }
}

/// Whether two sets of identifiers have a member in common.
pub fn share_member(a: &BTreeSet<Uuid>, b: &BTreeSet<Uuid>) -> (r: bool)
    ensures
        r == (exists|g: Uuid| #[trigger] a@.contains(g) && b@.contains(g)),
{
    let members = sorted_ids(a);
    let mut i: usize = 0;
    while i < members.len()
        invariant
            i <= members@.len(),
            members@.to_set() == a@,
            forall|k: int| 0 <= k < i ==> !b@.contains(#[trigger] members@[k]),
        decreases members@.len() - i,
    {
        if has_id(b, members[i]) {
            assert(members@.to_set().contains(members@[i as int]));
            return true;
        }
        i = i + 1;
    }
    assert forall|g: Uuid| #[trigger] a@.contains(g) implies !b@.contains(g) by {
        assert(members@.to_set().contains(g));
    }
    false
}

/// One access rule.
#[derive(Debug, Clone, PartialEq, Eq)]
pub struct AclRule {
    pub id: Uuid,
    pub position: u32,
    pub action: AclAction,
    pub destination: Ipv4Net,
    pub protocol: IpProtocol,
    pub destination_ports: Option<PortRange>,
    pub subjects: AclSubjects,
    pub enabled: bool,
}

/// What a rule is held against.
#[derive(Debug, Clone, PartialEq, Eq)]
pub struct PacketContext {
    pub user_id: Uuid,
    pub group_ids: BTreeSet<Uuid>,
    pub destination: Ipv4Addr,
    pub protocol: IpProtocol,
    pub destination_port: Option<u16>,
}

/// Whether a port restriction admits a packet's destination port.
pub open spec fn port_admitted(ports: Option<PortRange>, port: Option<u16>) -> bool {
    match (ports, port) {
        (None, _) => true,
        (Some(range), Some(p)) => range.start <= p <= range.end,
        (Some(_), None) => false,
    }
}

impl AclRule {
    /// Whether the rule speaks of a packet.
    pub open spec fn applies_to(self, packet: PacketContext) -> bool {
        &&& self.enabled
        &&& self.destination.holds(packet.destination)
        &&& self.subjects.covers(packet.user_id, packet.group_ids@)
        &&& (self.protocol == IpProtocol::Any || self.protocol == packet.protocol)
        &&& port_admitted(self.destination_ports, packet.destination_port)
    }

    /// The order in which rules are tried: by position, denials before permissions, then by
    /// identifier.
    pub open spec fn tried_no_later(self, other: Self) -> bool {
        if self.position != other.position {
            self.position < other.position
        } else if self.action != other.action {
            self.action == AclAction::Deny
        } else {
            self.id <= other.id
        }
    }

    /// Whether the rule speaks of a packet.
    pub fn matches(&self, packet: &PacketContext) -> (r: bool)
        ensures
            r == self.applies_to(*packet),
    {
        if !self.enabled || !self.destination.contains(packet.destination)
            || !self.subjects.matches(packet.user_id, &packet.group_ids) || (self.protocol
            != IpProtocol::Any && self.protocol != packet.protocol) {
            return false;
        }
        match (&self.destination_ports, packet.destination_port) {
            (None, _) => true,
            (Some(range), Some(port)) => range.values().contains(&port),
            (Some(_), None) => false,
        }
    }

    pub(crate) fn tried_before_or_with(&self, other: &AclRule) -> (r: bool)
        ensures
            r == self.tried_no_later(*other),
    {
        if self.position != other.position {
            self.position < other.position
        } else if self.action != other.action {
            self.action == AclAction::Deny
        } else {
            self.id <= other.id
        }
    }
}

/// Rule `i` speaks of the packet and no rule that does is tried before it.
pub open spec fn first_match(rules: Seq<AclRule>, packet: PacketContext, i: int) -> bool {
    &&& 0 <= i < rules.len()
    &&& rules[i].applies_to(packet)
    &&& forall|j: int|
        0 <= j < rules.len() && (#[trigger] rules[j]).applies_to(packet)
            ==> rules[i].tried_no_later(rules[j])
}

/// What happens to a packet: the action of the first rule that speaks of it, else the default.
pub open spec fn acl_outcome(
    rules: Seq<AclRule>,
    default_action: AclAction,
    packet: PacketContext,
    action: AclAction,
) -> bool {
    if exists|i: int| 0 <= i < rules.len() && (#[trigger] rules[i]).applies_to(packet) {
        exists|i: int| #[trigger] first_match(rules, packet, i) && action == rules[i].action
    } else {
        action == default_action
    }
}

/// What happens to a packet under some rules.
pub fn evaluate_acl(rules: &[AclRule], default_action: AclAction, packet: &PacketContext) -> (r:
    AclAction)
    ensures
        acl_outcome(rules@, default_action, *packet, r),
{
    let mut best: Option<usize> = None;
    let mut i: usize = 0;
    while i < rules.len()
        invariant
            i <= rules@.len(),
            match best {
                None => forall|j: int|
                    0 <= j < i ==> !(#[trigger] rules@[j]).applies_to(*packet),
                Some(b) => {
                    &&& b < i
                    &&& rules@[b as int].applies_to(*packet)
                    &&& forall|j: int|
                        0 <= j < i && (#[trigger] rules@[j]).applies_to(*packet)
                            ==> rules@[b as int].tried_no_later(rules@[j])
                },
            },
        decreases rules@.len() - i,
    {
        if rules[i].matches(packet) {
            match best {
                None => {
                    best = Some(i);
                },
                Some(b) => {
                    if !rules[b].tried_before_or_with(&rules[i]) {
                        best = Some(i);
                    }
                },
            }
        }
        i = i + 1;
    }
    match best {
        Some(b) => {
            assert(first_match(rules@, *packet, b as int));
            rules[b].action
        },
        None => default_action,
    }
}

/// The rules, the default and the packet fix what happens: two outcomes are the same.
pub proof fn law_outcome_is_unique(
    rules: Seq<AclRule>,
    default_action: AclAction,
    packet: PacketContext,
    a: AclAction,
    b: AclAction,
)
    requires
        acl_outcome(rules, default_action, packet, a),
        acl_outcome(rules, default_action, packet, b),
    ensures
        a == b,
{
}

/// The order in which the rules are written down does not matter.
pub proof fn law_order_of_rules_is_immaterial(
    rules: Seq<AclRule>,
    reordered: Seq<AclRule>,
    default_action: AclAction,
    packet: PacketContext,
    action: AclAction,
)
    requires
        rules.to_multiset() == reordered.to_multiset(),
        acl_outcome(rules, default_action, packet, action),
    ensures
        acl_outcome(reordered, default_action, packet, action),
{
    broadcast use vstd::seq_lib::group_to_multiset_ensures;

    assert forall|i: int| 0 <= i < rules.len() implies reordered.contains(#[trigger] rules[i]) by {
        assert(rules.contains(rules[i]));
        assert(rules.to_multiset().count(rules[i]) > 0);
    }
    assert forall|i: int| 0 <= i < reordered.len() implies rules.contains(
        #[trigger] reordered[i],
    ) by {
        assert(reordered.contains(reordered[i]));
        assert(reordered.to_multiset().count(reordered[i]) > 0);
    }
    if exists|i: int| 0 <= i < rules.len() && (#[trigger] rules[i]).applies_to(packet) {
        let i = choose|i: int| #[trigger] first_match(rules, packet, i) && action == rules[i].action;
        assert(reordered.contains(rules[i]));
        let j = choose|j: int| 0 <= j < reordered.len() && reordered[j] == rules[i];
        assert(first_match(reordered, packet, j)) by {
            assert forall|k: int|
                0 <= k < reordered.len() && (#[trigger] reordered[k]).applies_to(
                    packet,
                ) implies reordered[j].tried_no_later(reordered[k]) by {
                assert(rules.contains(reordered[k]));
                let m = choose|m: int| 0 <= m < rules.len() && rules[m] == reordered[k];
                assert(rules[m].applies_to(packet));
            }
        }
        assert(reordered[j].applies_to(packet));
    } else {
        assert forall|k: int| 0 <= k < reordered.len() implies !(
        #[trigger] reordered[k]).applies_to(packet) by {
            assert(rules.contains(reordered[k]));
            let m = choose|m: int| 0 <= m < rules.len() && rules[m] == reordered[k];
            assert(!rules[m].applies_to(packet));
        }
    }
}

/// Where a denial and a permission of the same position both speak of a packet, it is denied
/// unless an earlier position decides.
pub proof fn law_denial_wins_at_its_position(
    rules: Seq<AclRule>,
    default_action: AclAction,
    packet: PacketContext,
    action: AclAction,
    d: int,
)
    requires
        acl_outcome(rules, default_action, packet, action),
        0 <= d < rules.len(),
        rules[d].applies_to(packet),
        rules[d].action == AclAction::Deny,
        forall|j: int|
            0 <= j < rules.len() && (#[trigger] rules[j]).applies_to(packet) ==> rules[d].position
                <= rules[j].position,
    ensures
        action == AclAction::Deny,
{
}

/// A disabled rule changes nothing: leaving it out gives the same outcome.
pub proof fn law_disabled_rules_do_nothing(
    rules: Seq<AclRule>,
    default_action: AclAction,
    packet: PacketContext,
    action: AclAction,
    d: int,
)
    requires
        0 <= d < rules.len(),
        !rules[d].enabled,
        acl_outcome(rules, default_action, packet, action),
    ensures
        acl_outcome(rules.remove(d), default_action, packet, action),
{
    let rest = rules.remove(d);
    assert forall|k: int| 0 <= k < rest.len() implies #[trigger] rest[k] == rules[if k < d {
        k
    } else {
        k + 1
    }] by {}
    if exists|i: int| 0 <= i < rules.len() && (#[trigger] rules[i]).applies_to(packet) {
        let i = choose|i: int| #[trigger] first_match(rules, packet, i) && action == rules[i].action;
        let j = if i < d {
            i
        } else {
            i - 1
        };
        assert(rest[j] == rules[i]);
        assert(first_match(rest, packet, j));
    }
}

} // verus!
