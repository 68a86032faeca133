//! What the gateways are asked to be, by what the database holds.

use std::collections::BTreeSet;

use vstd::prelude::*;
use vstd::string::*;

use crate::acl::{AclAction, AclRule, AclSubjects, IpProtocol, PortRange};
use crate::audit::{success, AuditEntry};
use crate::error::{
    checks, conflict, conflict_error, internal, internal_error, not_found, not_found_error,
    ApiError, ErrorView,
};
use crate::fingerprint::{copy_addresses, state_hash, state_json, state_text};
use crate::ids::{uuid_parsed, Uuid};
use crate::ipv4::{address_parsed, network_parsed, parse_address, Ipv4Addr, Ipv4Net};
use crate::json::{json_quoted, json_string};
use crate::lines::holds_text;
use crate::protocol::{action_named, find_action, find_protocol, protocol_named};
use crate::rows::{net_of, read_net, named_id, named_id_fault, or_fault, unless};
use crate::sets::{insert_id, sorted_ids};
use crate::state::{
    canonical, DesiredGatewayState, DesiredPeer, PeerView, RuleView, StateView,
};
use crate::text::{copy_text, decimal, decimal_text, same_text, texts};

verus! {

/// What is wrong with a network in a row.
pub open spec fn net_fault(s: Seq<char>, field: Seq<char>) -> Option<ErrorView> {
    unless(
        network_parsed(s) is Some,
        internal("invalid "@ + field + ": invalid IP address syntax"@),
    )
}

/// The network in a row.
pub fn parse_net(value: &str, field: &str) -> (r: Result<Ipv4Net, ApiError>)
    ensures
        match r {
            Ok(net) => network_parsed(value@) is Some && net == net_of(value@) && net.wf(),
            Err(e) => net_fault(value@, field@) == Some(e@),
        },
{
    match read_net(value) {
        Some(net) => Ok(net),
        None => Err(
            internal_error(
                String::from_str("invalid ").concat(field).concat(
                    ": invalid IP address syntax",
                ).as_str(),
            ),
        ),
    }
}

/// What is wrong with an address in a row.
pub open spec fn address_fault(s: Seq<char>, field: Seq<char>) -> Option<ErrorView> {
    unless(
        address_parsed(s) is Some,
        internal("invalid "@ + field + ": invalid IPv4 address syntax"@),
    )
}

/// The address in a row.
pub fn stored_address(value: &str, field: &str) -> (r: Result<Ipv4Addr, ApiError>)
    ensures
        match r {
            Ok(address) => address_parsed(value@) == Some(address),
            Err(e) => address_fault(value@, field@) == Some(e@),
        },
{
    match parse_address(value) {
        Some(address) => Ok(address),
        None => Err(
            internal_error(
                String::from_str("invalid ").concat(field).concat(
                    ": invalid IPv4 address syntax",
                ).as_str(),
            ),
        ),
    }
}

/// The action in a row.
pub fn parse_action(value: &str) -> (r: Result<AclAction, ApiError>)
    ensures
        match r {
            Ok(action) => action_named(value@) == Some(action),
            Err(e) => action_named(value@) is None && e@ == internal("invalid ACL action"@),
        },
{
    match find_action(value) {
        Some(action) => Ok(action),
        None => Err(internal_error("invalid ACL action")),
    }
}

/// The protocol in a row.
pub fn parse_protocol(value: &str) -> (r: Result<IpProtocol, ApiError>)
    ensures
        match r {
            Ok(protocol) => protocol_named(value@) == Some(protocol),
            Err(e) => protocol_named(value@) is None && e@ == internal("invalid ACL protocol"@),
        },
{
    match find_protocol(value) {
        Some(protocol) => Ok(protocol),
        None => Err(internal_error("invalid ACL protocol")),
    }
}

/// What is wrong with the first id that something is wrong with.
pub open spec fn ids_fault(values: Seq<Seq<char>>, field: Seq<char>) -> Option<ErrorView>
    decreases values.len(),
{
    if values.len() == 0 {
        None
    } else {
        or_fault(ids_fault(values.drop_last(), field), named_id_fault(values.last(), field))
    }
}

/// The ids that some texts write.
pub open spec fn ids_of(values: Seq<Seq<char>>) -> Set<Uuid>
    decreases values.len(),
{
    if values.len() == 0 {
        Set::empty()
    } else {
        ids_of(values.drop_last()).insert(uuid_parsed(values.last())->Ok_0)
    }
}

proof fn lemma_later_ids(values: Seq<Seq<char>>, field: Seq<char>, i: int)
    requires
        0 <= i <= values.len(),
        ids_fault(values.take(i), field) is Some,
    ensures
        ids_fault(values, field) == ids_fault(values.take(i), field),
    decreases values.len(),
{
    if i == values.len() {
        assert(values.take(i) =~= values);
    } else {
        assert(values.drop_last().take(i) =~= values.take(i));
        lemma_later_ids(values.drop_last(), field, i);
    }
}

/// The ids in some rows.
pub fn parse_ids(values: &[String], field: &str) -> (r: Result<BTreeSet<Uuid>, ApiError>)
    ensures
        match r {
            Ok(set) => ids_fault(texts(values@), field@) is None && set@ == ids_of(texts(values@)),
            Err(e) => ids_fault(texts(values@), field@) == Some(e@),
        },
{
    let ghost all = texts(values@);
    let mut out: BTreeSet<Uuid> = BTreeSet::new();
    let mut i: usize = 0;
    while i < values.len()
        invariant
            i <= values@.len(),
            all == texts(values@),
            ids_fault(all.take(i as int), field@) is None,
            out@ == ids_of(all.take(i as int)),
        decreases values@.len() - i,
    {
        let ghost next = all.take(i + 1);
        proof {
            assert(next.drop_last() =~= all.take(i as int));
            assert(next.last() == values@[i as int]@);
        }
        match named_id(values[i].as_str(), field) {
            Ok(id) => {
                insert_id(&mut out, id);
            },
            Err(e) => {
                proof {
                    lemma_later_ids(all, field@, i + 1);
                }
                return Err(e);
            },
        }
        i = i + 1;
    }
    assert(all.take(i as int) =~= all);
    Ok(out)
}

/// A device in the database, with what decides whether it is let in.
pub struct DeviceRow {
    pub id: String,
    pub user_id: String,
    pub public_key: String,
    pub vpn_address: String,
    pub status: String,
    pub manual_disabled: bool,
    pub ldap_disabled: bool,
    pub soft_deleted_at: Option<String>,
    /// The effective groups of the user.
    pub group_ids: Vec<String>,
}

/// Whether two lists have a text in common.
pub open spec fn in_common(a: Seq<Seq<char>>, b: Seq<Seq<char>>) -> bool {
    exists|i: int| 0 <= i < a.len() && b.contains(#[trigger] a[i])
}

impl DeviceRow {
    /// Whether a site lets the device in: it is active, its user is enabled, and the user is in a
    /// group that the site is granted to.
    pub open spec fn let_in(self, grants: Seq<Seq<char>>) -> bool {
        &&& self.status@ == "active"@
        &&& !self.manual_disabled && !self.ldap_disabled && self.soft_deleted_at is None
        &&& in_common(texts(self.group_ids@), grants)
    }

    /// Whether a site lets the device in.
    pub fn is_let_in(&self, grants: &[String]) -> (r: bool)
        ensures
            r == self.let_in(texts(grants@)),
    {
        if !same_text(self.status.as_str(), "active") || self.manual_disabled || self.ldap_disabled
            || self.soft_deleted_at.is_some() {
            return false;
        }
        let ghost groups = texts(self.group_ids@);
        let mut i: usize = 0;
        while i < self.group_ids.len()
            invariant
                i <= self.group_ids@.len(),
                groups == texts(self.group_ids@),
                self.status@ == "active"@,
                !self.manual_disabled && !self.ldap_disabled && self.soft_deleted_at is None,
                forall|k: int| 0 <= k < i ==> !texts(grants@).contains(#[trigger] groups[k]),
            decreases self.group_ids@.len() - i,
        {
            assert(groups[i as int] == self.group_ids@[i as int]@);
            if holds_text(grants, self.group_ids[i].as_str()) {
                return true;
            }
            i = i + 1;
        }
        false
    }

    /// What is wrong with the device.
    pub open spec fn fault(self) -> Option<ErrorView> {
        or_fault(
            named_id_fault(self.user_id@, "user"@),
            or_fault(
                named_id_fault(self.id@, "device"@),
                or_fault(
                    address_fault(self.vpn_address@, "VPN address"@),
                    ids_fault(texts(self.group_ids@), "group"@),
                ),
            ),
        )
    }

    /// The device as a gateway sees it.
    pub open spec fn peer(self) -> PeerView {
        PeerView {
            device_id: uuid_parsed(self.id@)->Ok_0,
            user_id: uuid_parsed(self.user_id@)->Ok_0,
            public_key: self.public_key@,
            allowed_address: address_parsed(self.vpn_address@)->0,
            group_ids: ids_of(texts(self.group_ids@)),
        }
    }

    /// The device as a gateway sees it.
    pub fn to_peer(&self) -> (r: Result<DesiredPeer, ApiError>)
        ensures
            match r {
                Ok(p) => self.fault() is None && p@ == self.peer(),
                Err(e) => self.fault() == Some(e@),
            },
    {
        let user_id = named_id(self.user_id.as_str(), "user")?;
        let device_id = named_id(self.id.as_str(), "device")?;
        let allowed_address = stored_address(self.vpn_address.as_str(), "VPN address")?;
        let group_ids = parse_ids(self.group_ids.as_slice(), "group")?;
        Ok(
            DesiredPeer {
                device_id,
                user_id,
                public_key: copy_text(&self.public_key),
                allowed_address,
                group_ids,
            },
        )
    }
}

/// What is wrong with the first device that is let in and that something is wrong with.
pub open spec fn devices_fault(devices: Seq<DeviceRow>, grants: Seq<Seq<char>>) -> Option<ErrorView>
    decreases devices.len(),
{
    if devices.len() == 0 {
        None
    } else {
        or_fault(
            devices_fault(devices.drop_last(), grants),
            if devices.last().let_in(grants) {
                devices.last().fault()
            } else {
                None
            },
        )
    }
}

/// The devices that a site lets in.
pub open spec fn peers_of(devices: Seq<DeviceRow>, grants: Seq<Seq<char>>) -> Seq<PeerView>
    decreases devices.len(),
{
    if devices.len() == 0 {
        Seq::empty()
    } else if devices.last().let_in(grants) {
        peers_of(devices.drop_last(), grants).push(devices.last().peer())
    } else {
        peers_of(devices.drop_last(), grants)
    }
}

proof fn lemma_later_devices(devices: Seq<DeviceRow>, grants: Seq<Seq<char>>, i: int)
    requires
        0 <= i <= devices.len(),
        devices_fault(devices.take(i), grants) is Some,
    ensures
        devices_fault(devices, grants) == devices_fault(devices.take(i), grants),
    decreases devices.len(),
{
    if i == devices.len() {
        assert(devices.take(i) =~= devices);
    } else {
        assert(devices.drop_last().take(i) =~= devices.take(i));
        lemma_later_devices(devices.drop_last(), grants, i);
    }
}

fn read_devices(devices: &[DeviceRow], grants: &[String]) -> (r: Result<Vec<DesiredPeer>, ApiError>)
    ensures
        match r {
            Ok(v) => devices_fault(devices@, texts(grants@)) is None && v@.map_values(
                |p: DesiredPeer| p@,
            ) == peers_of(devices@, texts(grants@)),
            Err(e) => devices_fault(devices@, texts(grants@)) == Some(e@),
        },
{
    let ghost granted = texts(grants@);
    let mut out: Vec<DesiredPeer> = Vec::new();
    let mut i: usize = 0;
    assert(out@.map_values(|p: DesiredPeer| p@) =~= peers_of(devices@.take(0), granted));
    while i < devices.len()
        invariant
            i <= devices@.len(),
            granted == texts(grants@),
            devices_fault(devices@.take(i as int), granted) is None,
            out@.map_values(|p: DesiredPeer| p@) =~= peers_of(devices@.take(i as int), granted),
        decreases devices@.len() - i,
    {
        let ghost next = devices@.take(i + 1);
        proof {
            assert(next.drop_last() =~= devices@.take(i as int));
            assert(next.last() == devices@[i as int]);
        }
        if devices[i].is_let_in(grants) {
            match devices[i].to_peer() {
                Ok(peer) => {
                    let ghost before = out@;
                    out.push(peer);
                    assert(out@.map_values(|p: DesiredPeer| p@) =~= before.map_values(
                        |p: DesiredPeer| p@,
                    ).push(peer@));
                },
                Err(e) => {
                    proof {
                        lemma_later_devices(devices@, granted, i + 1);
                    }
                    return Err(e);
                },
            }
        }
        i = i + 1;
    }
    assert(devices@.take(i as int) =~= devices@);
    Ok(out)
}

/// An access rule in the database.
pub struct RuleRow {
    pub id: String,
    pub position: i64,
    pub action: String,
    pub destination: String,
    pub protocol: String,
    pub port_start: Option<i64>,
    pub port_end: Option<i64>,
    pub enabled: bool,
    pub users: Vec<String>,
    pub groups: Vec<String>,
}

impl RuleRow {
    /// Whether the ports of the rule can be read.
    pub open spec fn ports_readable(self) -> bool {
        match (self.port_start, self.port_end) {
            (None, None) => true,
            (Some(start), Some(end)) => 0 <= start <= 65535 && start <= end,
            _ => false,
        }
    }

    /// The ports of the rule.
    pub open spec fn ports(self) -> Option<PortRange> {
        match (self.port_start, self.port_end) {
            (Some(start), Some(end)) => Some(PortRange { start: start as u16, end: end as u16 }),
            _ => None,
        }
    }

    /// What is wrong with the rule.
    pub open spec fn fault(self) -> Option<ErrorView> {
        or_fault(
            named_id_fault(self.id@, "ACL rule"@),
            or_fault(
                ids_fault(texts(self.users@), "ACL user"@),
                or_fault(
                    ids_fault(texts(self.groups@), "ACL group"@),
                    or_fault(
                        unless(
                            self.ports_readable(),
                            internal("invalid ACL port range in database"@),
                        ),
                        or_fault(
                            unless(
                                action_named(self.action@) is Some,
                                internal("invalid ACL action"@),
                            ),
                            or_fault(
                                net_fault(self.destination@, "ACL destination"@),
                                unless(
                                    protocol_named(self.protocol@) is Some,
                                    internal("invalid ACL protocol"@),
                                ),
                            ),
                        ),
                    ),
                ),
            ),
        )
    }

    /// The rule as a gateway sees it.
    pub open spec fn rule(self) -> RuleView {
        RuleView {
            id: uuid_parsed(self.id@)->Ok_0,
            position: self.position as u32,
            action: action_named(self.action@)->0,
            destination: net_of(self.destination@),
            protocol: protocol_named(self.protocol@)->0,
            destination_ports: self.ports(),
            users: ids_of(texts(self.users@)),
            groups: ids_of(texts(self.groups@)),
            enabled: self.enabled,
        }
    }

    fn read_ports(&self) -> (r: Result<Option<PortRange>, ApiError>)
        ensures
            match r {
                Ok(p) => self.ports_readable() && p == self.ports(),
                Err(e) => !self.ports_readable() && e@ == internal(
                    "invalid ACL port range in database"@,
                ),
            },
    {
        match (self.port_start, self.port_end) {
            (None, None) => Ok(None),
            (Some(start), Some(end)) => if 0 <= start && start <= 65535 && start <= end {
                Ok(
                    Some(
                        PortRange {
                            start: #[verifier::truncate] (start as u16),
                            end: #[verifier::truncate] (end as u16),
                        },
                    ),
                )
            } else {
                Err(internal_error("invalid ACL port range in database"))
            },
            _ => Err(internal_error("invalid ACL port range in database")),
        }
    }

    /// The rule as a gateway sees it.
    pub fn to_rule(&self) -> (r: Result<AclRule, ApiError>)
        ensures
            match r {
                Ok(rule) => self.fault() is None && rule@ == self.rule(),
                Err(e) => self.fault() == Some(e@),
            },
    {
        let id = named_id(self.id.as_str(), "ACL rule")?;
        let users = parse_ids(self.users.as_slice(), "ACL user")?;
        let groups = parse_ids(self.groups.as_slice(), "ACL group")?;
        let destination_ports = self.read_ports()?;
        let action = parse_action(self.action.as_str())?;
        let destination = parse_net(self.destination.as_str(), "ACL destination")?;
        let protocol = parse_protocol(self.protocol.as_str())?;
        Ok(
            AclRule {
                id,
                position: #[verifier::truncate] (self.position as u32),
                action,
                destination,
                protocol,
                destination_ports,
                subjects: AclSubjects { users, groups },
                enabled: self.enabled,
            },
        )
    }
}

/// What is wrong with the first rule that something is wrong with.
pub open spec fn rules_fault(rules: Seq<RuleRow>) -> Option<ErrorView>
    decreases rules.len(),
{
    if rules.len() == 0 {
        None
    } else {
        or_fault(rules_fault(rules.drop_last()), rules.last().fault())
    }
}

proof fn lemma_later_rules(rules: Seq<RuleRow>, i: int)
    requires
        0 <= i <= rules.len(),
        rules_fault(rules.take(i)) is Some,
    ensures
        rules_fault(rules) == rules_fault(rules.take(i)),
    decreases rules.len(),
{
    if i == rules.len() {
        assert(rules.take(i) =~= rules);
    } else {
        assert(rules.drop_last().take(i) =~= rules.take(i));
        lemma_later_rules(rules.drop_last(), i);
    }
}

fn read_rules(rules: &[RuleRow]) -> (r: Result<Vec<AclRule>, ApiError>)
    ensures
        match r {
            Ok(v) => rules_fault(rules@) is None && v@.map_values(|a: AclRule| a@)
                == rules@.map_values(|a: RuleRow| a.rule()),
            Err(e) => rules_fault(rules@) == Some(e@),
        },
{
    let ghost goal = rules@.map_values(|a: RuleRow| a.rule());
    let mut out: Vec<AclRule> = Vec::new();
    let mut i: usize = 0;
    assert(out@.map_values(|a: AclRule| a@) =~= goal.take(0));
    while i < rules.len()
        invariant
            i <= rules@.len(),
            goal == rules@.map_values(|a: RuleRow| a.rule()),
            rules_fault(rules@.take(i as int)) is None,
            out@.map_values(|a: AclRule| a@) =~= goal.take(i as int),
        decreases rules@.len() - i,
    {
        let ghost next = rules@.take(i + 1);
        proof {
            assert(next.drop_last() =~= rules@.take(i as int));
            assert(next.last() == rules@[i as int]);
        }
        match rules[i].to_rule() {
            Ok(rule) => {
                let ghost before = out@;
                out.push(rule);
                assert(out@.map_values(|a: AclRule| a@) =~= before.map_values(
                    |a: AclRule| a@,
                ).push(rule@));
                assert(goal.take(i + 1) =~= goal.take(i as int).push(goal[i as int]));
            },
            Err(e) => {
                proof {
                    lemma_later_rules(rules@, i + 1);
                }
                return Err(e);
            },
        }
        i = i + 1;
    }
    assert(rules@.take(i as int) =~= rules@);
    assert(goal.take(i as int) =~= goal);
    Ok(out)
}

/// What is wrong with the first network that something is wrong with.
pub open spec fn nets_fault(values: Seq<Seq<char>>, field: Seq<char>) -> Option<ErrorView>
    decreases values.len(),
{
    if values.len() == 0 {
        None
    } else {
        or_fault(nets_fault(values.drop_last(), field), net_fault(values.last(), field))
    }
}

/// The networks that some texts write.
pub open spec fn nets_of(values: Seq<Seq<char>>) -> Seq<Ipv4Net> {
    values.map_values(|s: Seq<char>| net_of(s))
}

proof fn lemma_later_nets(values: Seq<Seq<char>>, field: Seq<char>, i: int)
    requires
        0 <= i <= values.len(),
        nets_fault(values.take(i), field) is Some,
    ensures
        nets_fault(values, field) == nets_fault(values.take(i), field),
    decreases values.len(),
{
    if i == values.len() {
        assert(values.take(i) =~= values);
    } else {
        assert(values.drop_last().take(i) =~= values.take(i));
        lemma_later_nets(values.drop_last(), field, i);
    }
}

/// The networks in some rows.
pub fn parse_nets(values: &[String], field: &str) -> (r: Result<Vec<Ipv4Net>, ApiError>)
    ensures
        match r {
            Ok(v) => nets_fault(texts(values@), field@) is None && v@ == nets_of(texts(values@)),
            Err(e) => nets_fault(texts(values@), field@) == Some(e@),
        },
{
    let ghost all = texts(values@);
    let ghost goal = nets_of(all);
    let mut out: Vec<Ipv4Net> = Vec::new();
    let mut i: usize = 0;
    assert(out@ =~= goal.take(0));
    while i < values.len()
        invariant
            i <= values@.len(),
            all == texts(values@),
            goal == nets_of(all),
            nets_fault(all.take(i as int), field@) is None,
            out@ =~= goal.take(i as int),
        decreases values@.len() - i,
    {
        let ghost next = all.take(i + 1);
        proof {
            assert(next.drop_last() =~= all.take(i as int));
            assert(next.last() == values@[i as int]@);
        }
        match parse_net(values[i].as_str(), field) {
            Ok(net) => {
                out.push(net);
                assert(goal.take(i + 1) =~= goal.take(i as int).push(goal[i as int]));
            },
            Err(e) => {
                proof {
                    lemma_later_nets(all, field@, i + 1);
                }
                return Err(e);
            },
        }
        i = i + 1;
    }
    assert(all.take(i as int) =~= all);
    assert(goal.take(i as int) =~= goal);
    Ok(out)
}

/// The first address of a network that a host can have.
pub open spec fn first_host_of(net: Ipv4Net) -> int {
    if net.bits() < 31 {
        net.first() + 1
    } else {
        net.first() as int
    }
}

/// The first address of a network that a host can have.
pub fn first_host(net: &Ipv4Net) -> (r: Ipv4Addr)
    ensures
        r == first_host_of(*net),
{
    let network = net.network();
    if net.prefix_len() < 31 {
        proof {
            crate::ipv4::lemma_block(net.base(), net.bits());
            let shift = (32 - net.bits()) as nat;
            vstd::arithmetic::power2::lemma2_to64();
            if shift > 1 {
                vstd::arithmetic::power2::lemma_pow2_strictly_increases(1, shift);
            }
        }
        network + 1
    } else {
        network
    }
}

/// A gateway in the database.
pub struct GatewayRow {
    pub site_id: String,
    pub interface_name: String,
    pub listen_port: Option<i64>,
    pub desired_revision: i64,
    pub kind: String,
    pub compatibility_address: bool,
    pub acl_default: String,
}

impl GatewayRow {
    /// Whether the interface of the gateway has an address of its own.
    pub open spec fn numbered(self) -> bool {
        self.compatibility_address && self.kind@ == "mikrotik"@
    }
}

/// What is wrong while a migration goes on.
pub open spec fn paused_fault(active_migrations: i64) -> Option<ErrorView> {
    unless(
        active_migrations <= 0,
        conflict("configuration changes are paused during an active subnet migration"@),
    )
}

/// Lets changes pass while no migration goes on.
pub fn ensure_no_active_migration(active_migrations: i64) -> (r: Result<(), ApiError>)
    ensures
        checks(r, paused_fault(active_migrations)),
{
    if active_migrations > 0 {
        Err(conflict_error("configuration changes are paused during an active subnet migration"))
    } else {
        Ok(())
    }
}

/// What the database holds of a gateway and its site.
pub struct GatewaySources {
    pub gateway: Option<GatewayRow>,
    pub routes: Vec<String>,
    /// The groups that the site is granted to.
    pub grants: Vec<String>,
    pub devices: Vec<DeviceRow>,
    pub rules: Vec<RuleRow>,
    pub mtu: Option<u16>,
    pub client_pool: String,
}

/// What is wrong with what the database holds of a gateway.
pub open spec fn sources_fault(s: GatewaySources) -> Option<ErrorView> {
    match s.gateway {
        None => Some(not_found("gateway does not exist"@)),
        Some(g) => or_fault(
            named_id_fault(g.site_id@, "site"@),
            or_fault(
                nets_fault(texts(s.routes@), "site route"@),
                or_fault(
                    devices_fault(s.devices@, texts(s.grants@)),
                    or_fault(
                        rules_fault(s.rules@),
                        or_fault(
                            if g.numbered() {
                                net_fault(s.client_pool@, "client pool"@)
                            } else {
                                None
                            },
                            unless(
                                action_named(g.acl_default@) is Some,
                                internal("invalid ACL action"@),
                            ),
                        ),
                    ),
                ),
            ),
        ),
    }
}

/// What a gateway is asked to be, before its parts are put in order.
pub open spec fn drafted(gateway_id: Uuid, s: GatewaySources, terminate: Seq<Ipv4Addr>) -> StateView {
    let g = s.gateway->0;
    StateView {
        gateway_id,
        revision: (g.desired_revision as u64 + 1) as u64,
        interface_name: g.interface_name@,
        listen_port: match g.listen_port {
            Some(port) => port as u16,
            None => 51820,
        },
        mtu: s.mtu,
        compatibility_address: if g.numbered() {
            Some(first_host_of(net_of(s.client_pool@)) as u32)
        } else {
            None
        },
        routes: nets_of(texts(s.routes@)),
        peers: peers_of(s.devices@, texts(s.grants@)),
        acl_default: action_named(g.acl_default@)->0,
        acl_rules: s.rules@.map_values(|a: RuleRow| a.rule()),
        terminate_sources: terminate,
    }
}

/// While a migration goes on, no gateway is asked for another state.
pub proof fn law_changes_are_paused(active_migrations: i64, sources: GatewaySources)
    requires
        active_migrations > 0,
    ensures
        or_fault(paused_fault(active_migrations), sources_fault(sources)) == Some(
            conflict("configuration changes are paused during an active subnet migration"@),
        ),
{
}

/// What a gateway is asked to be next: its routes, the devices that its site lets in and its
/// rules, one revision on.
pub fn rebuild_gateway(
    active_migrations: i64,
    gateway_id: Uuid,
    sources: &GatewaySources,
    terminate_sources: &[Ipv4Addr],
) -> (r: Result<DesiredGatewayState, ApiError>)
    requires
        sources.gateway matches Some(g) ==> g.desired_revision != -1,
    ensures
        match or_fault(paused_fault(active_migrations), sources_fault(*sources)) {
            None => r matches Ok(state) && state@ == canonical(
                drafted(gateway_id, *sources, terminate_sources@),
            ),
            Some(e) => r matches Err(f) && f@ == e,
        },
{
    ensure_no_active_migration(active_migrations)?;
    let gateway = match &sources.gateway {
        Some(g) => g,
        None => return Err(not_found_error("gateway does not exist")),
    };
    let _site = named_id(gateway.site_id.as_str(), "site")?;
    let current = #[verifier::truncate] (gateway.desired_revision as u64);
    proof {
        let known = gateway.desired_revision;
        assert(known != -1 ==> (known as u64) < 0xffff_ffff_ffff_ffffu64) by (bit_vector);
    }
    let revision = current + 1;
    let routes = parse_nets(sources.routes.as_slice(), "site route")?;
    let peers = read_devices(sources.devices.as_slice(), sources.grants.as_slice())?;
    let acl_rules = read_rules(sources.rules.as_slice())?;
    let compatibility_address = if gateway.compatibility_address && same_text(
        gateway.kind.as_str(),
        "mikrotik",
    ) {
        let pool = parse_net(sources.client_pool.as_str(), "client pool")?;
        Some(first_host(&pool))
    } else {
        None
    };
    let acl_default = parse_action(gateway.acl_default.as_str())?;
    let mut state = DesiredGatewayState {
        gateway_id,
        revision,
        interface_name: copy_text(&gateway.interface_name),
        listen_port: match gateway.listen_port {
            Some(port) => #[verifier::truncate] (port as u16),
            None => 51820,
        },
        mtu: sources.mtu,
        compatibility_address,
        routes,
        peers,
        acl_default,
        acl_rules,
        terminate_sources: copy_addresses(terminate_sources),
    };
    assert(state@ =~= drafted(gateway_id, *sources, terminate_sources@));
    state.canonicalize();
    Ok(state)
}

/// What is kept of a state: its text and its digest.
pub fn encode_state(state: &DesiredGatewayState) -> (r: (String, String))
    ensures
        r.0@ == state_json(canonical(state@)),
        r.1@ == crate::crypto::text_fingerprint(state_json(canonical(state@))),
{
    (state_text(state), state_hash(state))
}

/// A device is let in only while it is active, its user is enabled, and the user is in a group
/// that the site is granted to.
pub proof fn law_only_granted_devices_are_let_in(
    gateway_id: Uuid,
    s: GatewaySources,
    terminate: Seq<Ipv4Addr>,
    peer: PeerView,
)
    requires
        s.gateway is Some,
        canonical(drafted(gateway_id, s, terminate)).peers.contains(peer),
    ensures
        exists|i: int|
            0 <= i < s.devices@.len() && (#[trigger] s.devices@[i]).let_in(texts(s.grants@))
                && s.devices@[i].peer() == peer,
{
    let peers = peers_of(s.devices@, texts(s.grants@));
    crate::sort::lemma_stable_sorted(peers);
    vstd::seq_lib::to_multiset_contains(peers, peer);
    vstd::seq_lib::to_multiset_contains(crate::sort::stable_sorted(peers), peer);
    lemma_peers(s.devices@, texts(s.grants@), peer);
}

proof fn lemma_peers(devices: Seq<DeviceRow>, grants: Seq<Seq<char>>, peer: PeerView)
    ensures
        peers_of(devices, grants).contains(peer) <==> exists|i: int|
            0 <= i < devices.len() && (#[trigger] devices[i]).let_in(grants) && devices[i].peer()
                == peer,
    decreases devices.len(),
{
    if devices.len() > 0 {
        let d = devices.drop_last();
        let all = peers_of(devices, grants);
        let some = peers_of(d, grants);
        lemma_peers(d, grants, peer);
        if all.contains(peer) {
            let k = choose|k: int| 0 <= k < all.len() && all[k] == peer;
            if k < some.len() {
                assert(some[k] == peer);
                assert(some.contains(peer));
                let i = choose|i: int|
                    0 <= i < d.len() && (#[trigger] d[i]).let_in(grants) && d[i].peer() == peer;
                assert(devices[i].let_in(grants) && devices[i].peer() == peer);
            } else {
                assert(devices[devices.len() - 1].let_in(grants));
            }
        }
        if exists|i: int|
            0 <= i < devices.len() && (#[trigger] devices[i]).let_in(grants) && devices[i].peer()
                == peer {
            let i = choose|i: int|
                0 <= i < devices.len() && (#[trigger] devices[i]).let_in(grants)
                    && devices[i].peer() == peer;
            if i < d.len() {
                assert(d[i].let_in(grants) && d[i].peer() == peer);
                let k = choose|k: int| 0 <= k < some.len() && some[k] == peer;
                assert(all[k] == peer);
            } else {
                assert(all[all.len() - 1] == peer);
            }
        }
    }
}

/// Every device that a site lets in is let in.
pub proof fn law_granted_devices_are_let_in(
    gateway_id: Uuid,
    s: GatewaySources,
    terminate: Seq<Ipv4Addr>,
    i: int,
)
    requires
        s.gateway is Some,
        0 <= i < s.devices@.len(),
        s.devices@[i].let_in(texts(s.grants@)),
    ensures
        canonical(drafted(gateway_id, s, terminate)).peers.contains(s.devices@[i].peer()),
{
    let peers = peers_of(s.devices@, texts(s.grants@));
    let peer = s.devices@[i].peer();
    lemma_peers(s.devices@, texts(s.grants@), peer);
    crate::sort::lemma_stable_sorted(peers);
    vstd::seq_lib::to_multiset_contains(peers, peer);
    vstd::seq_lib::to_multiset_contains(crate::sort::stable_sorted(peers), peer);
}

/// A state that a gateway was asked to be, and how far the gateway has got.
pub struct HistoryRow {
    pub gateway_id: String,
    pub applied_revision: i64,
    pub revision: i64,
    pub state: DesiredGatewayState,
}

impl HistoryRow {
    /// Whether the gateway may hold a device because of the state: the state is the last one that
    /// the gateway acknowledged or a later one, and the device is in it.
    pub open spec fn may_hold(self, device_id: Uuid) -> bool {
        self.revision >= self.applied_revision && exists|k: int|
            0 <= k < self.state.peers@.len() && (#[trigger] self.state.peers@[k]).device_id
                == device_id
    }

    /// Whether the gateway may hold a device because of the state.
    pub fn holds(&self, device_id: Uuid) -> (r: bool)
        ensures
            r == self.may_hold(device_id),
    {
        if self.revision < self.applied_revision {
            return false;
        }
        let mut k: usize = 0;
        while k < self.state.peers.len()
            invariant
                k <= self.state.peers@.len(),
                self.revision >= self.applied_revision,
                forall|j: int|
                    0 <= j < k ==> (#[trigger] self.state.peers@[j]).device_id != device_id,
            decreases self.state.peers@.len() - k,
        {
            if self.state.peers[k].device_id == device_id {
                return true;
            }
            k = k + 1;
        }
        false
    }
}

/// What is wrong with the first gateway that may hold a device and that something is wrong with.
pub open spec fn exposure_fault(history: Seq<HistoryRow>, device_id: Uuid) -> Option<ErrorView>
    decreases history.len(),
{
    if history.len() == 0 {
        None
    } else {
        or_fault(
            exposure_fault(history.drop_last(), device_id),
            if history.last().may_hold(device_id) {
                named_id_fault(history.last().gateway_id@, "gateway"@)
            } else {
                None
            },
        )
    }
}

/// The gateways that may hold a device.
pub open spec fn exposed(history: Seq<HistoryRow>, device_id: Uuid) -> Set<Uuid>
    decreases history.len(),
{
    if history.len() == 0 {
        Set::empty()
    } else if history.last().may_hold(device_id) {
        exposed(history.drop_last(), device_id).insert(
            uuid_parsed(history.last().gateway_id@)->Ok_0,
        )
    } else {
        exposed(history.drop_last(), device_id)
    }
}

proof fn lemma_later_history(history: Seq<HistoryRow>, device_id: Uuid, i: int)
    requires
        0 <= i <= history.len(),
        exposure_fault(history.take(i), device_id) is Some,
    ensures
        exposure_fault(history, device_id) == exposure_fault(history.take(i), device_id),
    decreases history.len(),
{
    if i == history.len() {
        assert(history.take(i) =~= history);
    } else {
        assert(history.drop_last().take(i) =~= history.take(i));
        lemma_later_history(history.drop_last(), device_id, i);
    }
}

/// A gateway is asked to give a device up if and only if its last acknowledged state has the
/// device, or a later one that it was asked for: one that was out of reach is not missed after its
/// site is no longer granted.
pub proof fn law_retained_states_are_consulted(
    history: Seq<HistoryRow>,
    device_id: Uuid,
    gateway_id: Uuid,
)
    requires
        exposure_fault(history, device_id) is None,
    ensures
        exposed(history, device_id).contains(gateway_id) == exists|i: int|
            0 <= i < history.len() && (#[trigger] history[i]).may_hold(device_id) && uuid_parsed(
                history[i].gateway_id@,
            ) == Ok::<Uuid, Seq<char>>(gateway_id),
    decreases history.len(),
{
    if history.len() > 0 {
        let less = history.drop_last();
        law_retained_states_are_consulted(less, device_id, gateway_id);
        if exposed(less, device_id).contains(gateway_id) {
            let i = choose|i: int|
                0 <= i < less.len() && (#[trigger] less[i]).may_hold(device_id) && uuid_parsed(
                    less[i].gateway_id@,
                ) == Ok::<Uuid, Seq<char>>(gateway_id);
            assert(history[i] == less[i]);
        }
        if exists|i: int|
            0 <= i < history.len() && (#[trigger] history[i]).may_hold(device_id) && uuid_parsed(
                history[i].gateway_id@,
            ) == Ok::<Uuid, Seq<char>>(gateway_id) {
            let i = choose|i: int|
                0 <= i < history.len() && (#[trigger] history[i]).may_hold(device_id)
                    && uuid_parsed(history[i].gateway_id@) == Ok::<Uuid, Seq<char>>(gateway_id);
            if i < history.len() - 1 {
                assert(less[i] == history[i]);
            }
        }
        assert(history[history.len() - 1] == history.last());
    }
}

/// The gateways that may hold a device, by their ids in increasing order: those whose last
/// acknowledged state has it, and those that were since asked to have it.
pub fn gateway_ids_that_may_hold_device(history: &[HistoryRow], device_id: Uuid) -> (r: Result<
    Vec<Uuid>,
    ApiError,
>)
    ensures
        match r {
            Ok(ids) => {
                &&& exposure_fault(history@, device_id) is None
                &&& ids@.to_set() == exposed(history@, device_id)
                &&& crate::sets::increasing(ids@)
            },
            Err(e) => exposure_fault(history@, device_id) == Some(e@),
        },
{
    let mut ids: BTreeSet<Uuid> = BTreeSet::new();
    let mut i: usize = 0;
    while i < history.len()
        invariant
            i <= history@.len(),
            exposure_fault(history@.take(i as int), device_id) is None,
            ids@ == exposed(history@.take(i as int), device_id),
        decreases history@.len() - i,
    {
        let ghost next = history@.take(i + 1);
        proof {
            assert(next.drop_last() =~= history@.take(i as int));
            assert(next.last() == history@[i as int]);
        }
        if history[i].holds(device_id) {
            match named_id(history[i].gateway_id.as_str(), "gateway") {
                Ok(id) => {
                    insert_id(&mut ids, id);
                },
                Err(e) => {
                    proof {
                        lemma_later_history(history@, device_id, i + 1);
                    }
                    return Err(e);
                },
            }
        }
        i = i + 1;
    }
    assert(history@.take(i as int) =~= history@);
    Ok(sorted_ids(&ids))
}

/// What is wrong with the acknowledgement of a state.
pub open spec fn applied_fault(desired: Option<i64>, revision: u64) -> Option<ErrorView> {
    match desired {
        None => Some(not_found("gateway does not exist"@)),
        Some(d) => unless(
            revision <= d as u64,
            conflict("agent acknowledged an unknown future revision"@),
        ),
    }
}

/// What is written down when a gateway acknowledges a state.
pub struct AppliedPlan {
    pub applied_revision: i64,
    pub actual_state_hash: String,
    pub status: &'static str,
    /// What the record of the event says.
    pub event: &'static str,
    pub audit: AuditEntry,
    pub details_json: String,
}

/// What is written down of an acknowledgement.
pub open spec fn applied_details(revision: u64, hash: Seq<char>) -> Seq<char> {
    "{\"actual_state_hash\":"@ + json_quoted(hash) + ",\"revision\":"@ + decimal(revision as nat)
        + "}"@
}

/// What is written down when a gateway acknowledges a state. How far a gateway has got never
/// goes back.
pub fn record_applied(
    gateway_id: Uuid,
    desired: Option<i64>,
    applied: i64,
    revision: u64,
    hash: &str,
) -> (r: Result<AppliedPlan, ApiError>)
    ensures
        match r {
            Ok(p) => {
                &&& applied_fault(desired, revision) is None
                &&& p.applied_revision == (if applied >= revision as i64 {
                    applied
                } else {
                    revision as i64
                })
                &&& p.actual_state_hash@ == hash@
                &&& p.status@ == "ready"@
                &&& p.event@ == "applied"@
                &&& p.audit.says(
                    None,
                    "agent"@,
                    "gateway.reconcile.applied"@,
                    "gateway"@,
                    Some(gateway_id),
                    "success"@,
                )
                &&& p.details_json@ == applied_details(revision, hash@)
            },
            Err(e) => applied_fault(desired, revision) == Some(e@),
        },
{
    let known = match desired {
        Some(d) => d,
        None => return Err(not_found_error("gateway does not exist")),
    };
    if revision > #[verifier::truncate] (known as u64) {
        return Err(conflict_error("agent acknowledged an unknown future revision"));
    }
    let got = #[verifier::truncate] (revision as i64);
    Ok(
        AppliedPlan {
            applied_revision: if applied >= got {
                applied
            } else {
                got
            },
            actual_state_hash: hash.to_owned(),
            status: "ready",
            event: "applied",
            audit: success(None, "agent", "gateway.reconcile.applied", "gateway", Some(gateway_id)),
            details_json: String::from_str("{\"actual_state_hash\":").concat(
                json_string(hash).as_str(),
            ).concat(",\"revision\":").concat(decimal_text(revision).as_str()).concat("}"),
        },
    )
}

/// What a gateway still has to acknowledge before something is given up.
#[derive(Debug, Clone, Copy, PartialEq, Eq, Structural)]
pub struct AckRow {
    pub gateway_id: Uuid,
    pub required_revision: i64,
    pub acknowledged: bool,
}

impl AckRow {
    /// The requirement after a gateway acknowledged a state.
    pub open spec fn after(self, gateway_id: Uuid, revision: i64) -> AckRow {
        AckRow {
            acknowledged: self.acknowledged || (self.gateway_id == gateway_id
                && self.required_revision <= revision),
            ..self
        }
    }

    /// Whether the requirement is met when a gateway acknowledges a state, and was not before.
    pub fn is_met_by(&self, gateway_id: Uuid, revision: i64) -> (r: bool)
        ensures
            r == (!self.acknowledged && self.after(gateway_id, revision).acknowledged),
    {
        !self.acknowledged && self.gateway_id == gateway_id && self.required_revision <= revision
    }
}

/// The requirements after a gateway acknowledged a state: those of the gateway are met that ask
/// for no later state.
pub fn acknowledge(acks: &[AckRow], gateway_id: Uuid, revision: i64) -> (r: Vec<AckRow>)
    ensures
        r@ == acks@.map_values(|a: AckRow| a.after(gateway_id, revision)),
{
    let ghost goal = acks@.map_values(|a: AckRow| a.after(gateway_id, revision));
    let mut out: Vec<AckRow> = Vec::new();
    let mut i: usize = 0;
    while i < acks.len()
        invariant
            i <= acks@.len(),
            goal == acks@.map_values(|a: AckRow| a.after(gateway_id, revision)),
            out@ =~= goal.take(i as int),
        decreases acks@.len() - i,
    {
        let a = acks[i];
        out.push(
            AckRow {
                gateway_id: a.gateway_id,
                required_revision: a.required_revision,
                acknowledged: a.acknowledged || a.is_met_by(gateway_id, revision),
            },
        );
        assert(goal.take(i + 1) =~= goal.take(i as int).push(goal[i as int]));
        i = i + 1;
    }
    assert(goal.take(i as int) =~= goal);
    out
}

/// Whether all requirements are met.
pub open spec fn all_met(acks: Seq<AckRow>) -> bool {
    forall|i: int| 0 <= i < acks.len() ==> (#[trigger] acks[i]).acknowledged
}

/// Whether all requirements are met.
pub fn is_all_met(acks: &[AckRow]) -> (r: bool)
    ensures
        r == all_met(acks@),
{
    let mut i: usize = 0;
    while i < acks.len()
        invariant
            i <= acks@.len(),
            forall|k: int| 0 <= k < i ==> (#[trigger] acks@[k]).acknowledged,
        decreases acks@.len() - i,
    {
        if !acks[i].acknowledged {
            return false;
        }
        i = i + 1;
    }
    true
}

/// Whether an address in quarantine can be given out again: once every gateway that may hold it
/// has acknowledged that it does not.
pub fn lease_is_released(quarantined: bool, released: bool, acks: &[AckRow]) -> (r: bool)
    ensures
        r == (quarantined && !released && all_met(acks@)),
{
    quarantined && !released && is_all_met(acks)
}

/// Whether a key is given up for good: once every gateway that may hold it has acknowledged that
/// it does not. A key that no gateway has to acknowledge stays as it is.
pub fn key_is_retired(retired: bool, acks: &[AckRow]) -> (r: bool)
    ensures
        r == (!retired && acks@.len() > 0 && all_met(acks@)),
{
    !retired && acks.len() > 0 && is_all_met(acks)
}

/// An acknowledgement meets no requirement of another gateway, and none that asks for a later
/// state.
pub proof fn law_acknowledgements_are_exact(a: AckRow, gateway_id: Uuid, revision: i64)
    requires
        !a.acknowledged,
    ensures
        a.after(gateway_id, revision).acknowledged <==> a.gateway_id == gateway_id
            && a.required_revision <= revision,
{
}

/// What was acknowledged stays acknowledged.
pub proof fn law_acknowledgements_stay(acks: Seq<AckRow>, gateway_id: Uuid, revision: i64)
    requires
        all_met(acks),
    ensures
        all_met(acks.map_values(|a: AckRow| a.after(gateway_id, revision))),
{
}

/// What is written down when a gateway reports an error.
pub open spec fn error_details(revision: u64, code: Seq<char>, message: Seq<char>) -> Seq<char> {
    "{\"code\":"@ + json_quoted(code) + ",\"message\":"@ + json_quoted(message) + ",\"revision\":"@
        + decimal(revision as nat) + "}"@
}

/// What is written down when a gateway reports an error.
pub struct ErrorPlan {
    pub status: &'static str,
    pub last_error: String,
    /// What the record of the event says.
    pub event: &'static str,
    pub error_code: String,
    pub audit: AuditEntry,
    pub details_json: String,
}

/// What is written down when a gateway reports an error.
pub fn record_error(gateway_id: Uuid, revision: u64, code: &str, message: &str) -> (r: ErrorPlan)
    ensures
        r.status@ == "error"@,
        r.last_error@ == message@,
        r.event@ == "error"@,
        r.error_code@ == code@,
        r.audit.says(
            None,
            "agent"@,
            "gateway.reconcile.error"@,
            "gateway"@,
            Some(gateway_id),
            "failure"@,
        ),
        r.details_json@ == error_details(revision, code@, message@),
{
    let done = success(None, "agent", "gateway.reconcile.error", "gateway", Some(gateway_id));
    let details_json = String::from_str("{\"code\":").concat(json_string(code).as_str()).concat(
        ",\"message\":",
    ).concat(json_string(message).as_str()).concat(",\"revision\":").concat(
        decimal_text(revision).as_str(),
    ).concat("}");
    ErrorPlan {
        status: "error",
        last_error: message.to_owned(),
        event: "error",
        error_code: code.to_owned(),
        audit: AuditEntry { outcome: "failure", ..done },
        details_json,
    }
}

} // verus!
