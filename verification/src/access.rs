//! The access rules of sites, as they are written and read.

use std::collections::BTreeSet;

use vstd::prelude::*;
use vstd::string::*;

use crate::acl::{IpProtocol, PortRange};
use crate::audit::{success, AuditEntry};
use crate::desired::RuleRow;
use crate::error::{
    internal, internal_error, not_found, not_found_error, validation, validation_error, ApiError,
    ErrorView,
};
use crate::ids::{copy_ids, uuid_parsed, Uuid};
use crate::json::json_quoted;
use crate::models::{AclResponse, AclRuleModel, ReplaceAclRequest};
use crate::protocol::{
    action_name, action_named, action_text, find_protocol, protocol_name, protocol_named,
    protocol_text,
};
use crate::rows::{
    db_id, db_id_fault, db_ids, db_ids_fault, db_ids_of, db_net, db_net_fault, net_of, opt_str,
    or_fault, unless,
};
use crate::sites::{db_action, db_action_fault};
use crate::text::{decimal, decimal_text, texts};

verus! {

/// What is wrong with a protocol in the database.
pub open spec fn db_protocol_fault(s: Seq<char>) -> Option<ErrorView> {
    unless(protocol_named(s) is Some, internal("invalid ACL protocol in database"@))
}

/// The protocol in a row of the database.
pub fn db_protocol(s: &str) -> (r: Result<IpProtocol, ApiError>)
    ensures
        match r {
            Ok(protocol) => protocol_named(s@) == Some(protocol),
            Err(e) => db_protocol_fault(s@) == Some(e@),
        },
{
    match find_protocol(s) {
        Some(protocol) => Ok(protocol),
        None => Err(internal_error("invalid ACL protocol in database")),
    }
}

/// What is wrong with a rule in the database.
pub open spec fn db_rule_fault(row: RuleRow) -> Option<ErrorView> {
    or_fault(
        db_id_fault(row.id@, "ACL rule"@),
        or_fault(
            db_action_fault(row.action@),
            or_fault(
                db_net_fault(row.destination@, "ACL destination"@),
                or_fault(
                    db_protocol_fault(row.protocol@),
                    or_fault(
                        db_ids_fault(texts(row.users@), "ACL user"@),
                        db_ids_fault(texts(row.groups@), "ACL group"@),
                    ),
                ),
            ),
        ),
    )
}

/// Whether a rule is told as it stands in the database.
pub open spec fn tells_rule(m: AclRuleModel, row: RuleRow) -> bool {
    &&& (m.id matches Some(id) && uuid_parsed(row.id@) == Ok::<Uuid, Seq<char>>(id))
    &&& m.position == row.position as u32
    &&& action_named(row.action@) == Some(m.action)
    &&& m.destination == net_of(row.destination@)
    &&& protocol_named(row.protocol@) == Some(m.protocol)
    &&& m.destination_ports == row.ports()
    &&& m.user_ids@ == db_ids_of(texts(row.users@))
    &&& m.group_ids@ == db_ids_of(texts(row.groups@))
    &&& m.enabled == row.enabled
}

fn cut_ports(row: &RuleRow) -> (r: Option<PortRange>)
    ensures
        r == row.ports(),
{
    match (row.port_start, row.port_end) {
        (Some(start), Some(end)) => Some(
            PortRange {
                start: #[verifier::truncate] (start as u16),
                end: #[verifier::truncate] (end as u16),
            },
        ),
        _ => None,
    }
}

fn read_rule(row: &RuleRow) -> (r: Result<AclRuleModel, ApiError>)
    ensures
        match r {
            Ok(m) => db_rule_fault(*row) is None && tells_rule(m, *row),
            Err(e) => db_rule_fault(*row) == Some(e@),
        },
{
    let id = db_id(row.id.as_str(), "ACL rule")?;
    let action = db_action(row.action.as_str())?;
    let destination = db_net(row.destination.as_str(), "ACL destination")?;
    let protocol = db_protocol(row.protocol.as_str())?;
    let user_ids = db_ids(row.users.as_slice(), "ACL user")?;
    let group_ids = db_ids(row.groups.as_slice(), "ACL group")?;
    Ok(
        AclRuleModel {
            id: Some(id),
            position: #[verifier::truncate] (row.position as u32),
            action,
            destination,
            protocol,
            destination_ports: cut_ports(row),
            user_ids,
            group_ids,
            enabled: row.enabled,
        },
    )
}

/// What is wrong with the first rule that something is wrong with.
pub open spec fn db_rules_fault(rows: Seq<RuleRow>) -> Option<ErrorView>
    decreases rows.len(),
{
    if rows.len() == 0 {
        None
    } else {
        or_fault(db_rules_fault(rows.drop_last()), db_rule_fault(rows.last()))
    }
}

proof fn lemma_later_rules(rows: Seq<RuleRow>, i: int)
    requires
        0 <= i <= rows.len(),
        db_rules_fault(rows.take(i)) is Some,
    ensures
        db_rules_fault(rows) == db_rules_fault(rows.take(i)),
    decreases rows.len(),
{
    if i == rows.len() {
        assert(rows.take(i) =~= rows);
    } else {
        assert(rows.drop_last().take(i) =~= rows.take(i));
        lemma_later_rules(rows.drop_last(), i);
    }
}

/// What is wrong with the rules of a site in the database.
pub open spec fn acl_fault(default_action: Option<Seq<char>>, rows: Seq<RuleRow>) -> Option<
    ErrorView,
> {
    match default_action {
        None => Some(not_found("site does not exist"@)),
        Some(action) => or_fault(db_rules_fault(rows), db_action_fault(action)),
    }
}

/// What is told of the rules of a site.
pub fn get_acl(default_action: Option<&str>, rows: &[RuleRow]) -> (r: Result<AclResponse, ApiError>)
    ensures
        match r {
            Ok(a) => {
                &&& acl_fault(opt_str(default_action), rows@) is None
                &&& default_action is Some
                &&& action_named(default_action->0@) == Some(a.default_action)
                &&& a.rules@.len() == rows@.len()
                &&& forall|i: int|
                    0 <= i < rows@.len() ==> tells_rule(#[trigger] a.rules@[i], rows@[i])
            },
            Err(e) => acl_fault(opt_str(default_action), rows@) == Some(e@),
        },
{
    let name = match default_action {
        Some(action) => action,
        None => return Err(not_found_error("site does not exist")),
    };
    let mut rules: Vec<AclRuleModel> = Vec::new();
    let mut i: usize = 0;
    while i < rows.len()
        invariant
            i <= rows@.len(),
            default_action == Some(name),
            rules@.len() == i,
            db_rules_fault(rows@.take(i as int)) is None,
            forall|k: int| 0 <= k < i ==> tells_rule(#[trigger] rules@[k], rows@[k]),
        decreases rows@.len() - i,
    {
        let ghost next = rows@.take(i + 1);
        proof {
            assert(next.drop_last() =~= rows@.take(i as int));
            assert(next.last() == rows@[i as int]);
        }
        match read_rule(&rows[i]) {
            Ok(rule) => {
                rules.push(rule);
            },
            Err(e) => {
                proof {
                    lemma_later_rules(rows@, i + 1);
                }
                return Err(e);
            },
        }
        i = i + 1;
    }
    assert(rows@.take(i as int) =~= rows@);
    let default_action = db_action(name)?;
    Ok(AclResponse { default_action, rules })
}

/// What is wrong with a rule to be written, given the rules before it.
pub open spec fn new_rule_fault(rule: AclRuleModel, earlier: Seq<AclRuleModel>) -> Option<ErrorView> {
    if exists|k: int| 0 <= k < earlier.len() && (#[trigger] earlier[k]).position == rule.position {
        Some(validation("ACL positions must be unique"@))
    } else {
        match rule.destination_ports {
            Some(ports) => unless(
                ports.start <= ports.end && (rule.protocol == IpProtocol::Tcp || rule.protocol
                    == IpProtocol::Udp),
                validation("ACL ports require TCP or UDP and an ordered range"@),
            ),
            None => None,
        }
    }
}

/// What is wrong with the first rule to be written that something is wrong with.
pub open spec fn new_rules_fault(rules: Seq<AclRuleModel>) -> Option<ErrorView>
    decreases rules.len(),
{
    if rules.len() == 0 {
        None
    } else {
        or_fault(
            new_rules_fault(rules.drop_last()),
            new_rule_fault(rules.last(), rules.drop_last()),
        )
    }
}

proof fn lemma_later_new_rules(rules: Seq<AclRuleModel>, i: int)
    requires
        0 <= i <= rules.len(),
        new_rules_fault(rules.take(i)) is Some,
    ensures
        new_rules_fault(rules) == new_rules_fault(rules.take(i)),
    decreases rules.len(),
{
    if i == rules.len() {
        assert(rules.take(i) =~= rules);
    } else {
        assert(rules.drop_last().take(i) =~= rules.take(i));
        lemma_later_new_rules(rules.drop_last(), i);
    }
}

fn insert_position(set: &mut BTreeSet<u32>, position: u32) -> (r: bool)
    ensures
        final(set)@ == old(set)@.insert(position),
        r == !old(set)@.contains(position),
{
    broadcast use vstd::laws_cmp::group_laws_cmp;

    set.insert(position)
}

/// Lets rules pass that can be written: no two at one position, and ports only where there are
/// ports, in order.
pub fn check_new_rules(rules: &[AclRuleModel]) -> (r: Result<(), ApiError>)
    ensures
        crate::error::checks(r, new_rules_fault(rules@)),
{
    let mut positions: BTreeSet<u32> = BTreeSet::new();
    let mut i: usize = 0;
    while i < rules.len()
        invariant
            i <= rules@.len(),
            new_rules_fault(rules@.take(i as int)) is None,
            forall|p: u32| #[trigger]
                positions@.contains(p) == (exists|k: int|
                    0 <= k < i && (#[trigger] rules@[k]).position == p),
        decreases rules@.len() - i,
    {
        let ghost before = rules@.take(i as int);
        let ghost next = rules@.take(i + 1);
        let ghost known = positions@;
        let rule = &rules[i];
        proof {
            assert(next.drop_last() =~= before);
            assert(next.last() == rules@[i as int]);
            assert(known.contains(rule.position) == (exists|k: int|
                0 <= k < before.len() && (#[trigger] before[k]).position == rule.position)) by {
                if known.contains(rule.position) {
                    let k = choose|k: int|
                        0 <= k < i && (#[trigger] rules@[k]).position == rule.position;
                    assert(before[k].position == rule.position);
                }
                if exists|k: int|
                    0 <= k < before.len() && (#[trigger] before[k]).position == rule.position {
                    let k = choose|k: int|
                        0 <= k < before.len() && (#[trigger] before[k]).position == rule.position;
                    assert(rules@[k].position == rule.position);
                }
            }
        }
        if !insert_position(&mut positions, rule.position) {
            proof {
                lemma_later_new_rules(rules@, i + 1);
            }
            return Err(validation_error("ACL positions must be unique"));
        }
        if let Some(ports) = &rule.destination_ports {
            let ported = match rule.protocol {
                IpProtocol::Tcp => true,
                IpProtocol::Udp => true,
                _ => false,
            };
            if ports.start > ports.end || !ported {
                proof {
                    lemma_later_new_rules(rules@, i + 1);
                }
                return Err(validation_error("ACL ports require TCP or UDP and an ordered range"));
            }
        }
        proof {
            assert forall|p: u32| #[trigger] positions@.contains(p) == (exists|k: int|
                0 <= k < i + 1 && (#[trigger] rules@[k]).position == p) by {
                if known.contains(p) {
                    let k = choose|k: int| 0 <= k < i && (#[trigger] rules@[k]).position == p;
                    assert(0 <= k < i + 1 && rules@[k].position == p);
                }
                if p == rule.position {
                    assert(rules@[i as int].position == p);
                }
            }
        }
        i = i + 1;
    }
    assert(rules@.take(i as int) =~= rules@);
    Ok(())
}

/// A rule to be written to the database.
pub struct NewRule {
    pub id: Uuid,
    pub position: i64,
    pub action: &'static str,
    pub destination: String,
    pub protocol: &'static str,
    pub port_start: Option<i64>,
    pub port_end: Option<i64>,
    pub user_ids: Vec<Uuid>,
    pub group_ids: Vec<Uuid>,
    pub enabled: bool,
}

/// Whether a rule to be written is the one that was asked for; one without an id gets a new one.
pub open spec fn is_new_rule(n: NewRule, rule: AclRuleModel, new_id: Uuid) -> bool {
    &&& n.id == (match rule.id {
        Some(id) => id,
        None => new_id,
    })
    &&& n.position == rule.position
    &&& n.action@ == action_text(rule.action)
    &&& n.destination@ == rule.destination.text()
    &&& n.protocol@ == protocol_text(rule.protocol)
    &&& (match rule.destination_ports {
        Some(ports) => n.port_start == Some(ports.start as i64) && n.port_end == Some(
            ports.end as i64,
        ),
        None => n.port_start is None && n.port_end is None,
    })
    &&& n.user_ids@ == rule.user_ids@
    &&& n.group_ids@ == rule.group_ids@
    &&& n.enabled == rule.enabled
}

fn new_rule(rule: &AclRuleModel, new_id: Uuid) -> (r: NewRule)
    ensures
        is_new_rule(r, *rule, new_id),
{
    let (port_start, port_end) = match &rule.destination_ports {
        Some(ports) => (Some(ports.start as i64), Some(ports.end as i64)),
        None => (None, None),
    };
    NewRule {
        id: match rule.id {
            Some(id) => id,
            None => new_id,
        },
        position: rule.position as i64,
        action: action_name(rule.action),
        destination: rule.destination.to_text(),
        protocol: protocol_name(rule.protocol),
        port_start,
        port_end,
        user_ids: copy_ids(rule.user_ids.as_slice()),
        group_ids: copy_ids(rule.group_ids.as_slice()),
        enabled: rule.enabled,
    }
}

/// What replacing the rules of a site writes.
pub struct AclPlan {
    pub gateway_id: Uuid,
    pub default_action: &'static str,
    pub rules: Vec<NewRule>,
    pub audit: AuditEntry,
    pub details_json: String,
}

/// What is wrong with replacing the rules of a site.
pub open spec fn replace_fault(request: ReplaceAclRequest, gateway_id: Option<Seq<char>>) -> Option<
    ErrorView,
> {
    or_fault(
        new_rules_fault(request.rules@),
        match gateway_id {
            None => Some(not_found("site does not exist"@)),
            Some(id) => db_id_fault(id, "gateway"@),
        },
    )
}

/// What replacing the rules of a site writes; `new_ids` holds an id for each rule that may need
/// one.
pub fn replace_acl(
    request: &ReplaceAclRequest,
    site_id: Uuid,
    gateway_id: Option<&str>,
    new_ids: &[Uuid],
) -> (r: Result<AclPlan, ApiError>)
    requires
        new_ids@.len() == request.rules@.len(),
    ensures
        match r {
            Ok(p) => {
                &&& replace_fault(*request, opt_str(gateway_id)) is None
                &&& gateway_id is Some
                &&& uuid_parsed(gateway_id->0@) == Ok::<Uuid, Seq<char>>(p.gateway_id)
                &&& p.default_action@ == action_text(request.default_action)
                &&& p.rules@.len() == request.rules@.len()
                &&& forall|i: int|
                    0 <= i < p.rules@.len() ==> is_new_rule(
                        #[trigger] p.rules@[i],
                        request.rules@[i],
                        new_ids@[i],
                    )
                &&& p.audit.says(
                    None,
                    "system"@,
                    "acl.replace"@,
                    "site"@,
                    Some(site_id),
                    "success"@,
                )
                &&& p.details_json@ == "{\"default\":"@ + json_quoted(
                    action_text(request.default_action),
                ) + ",\"rules\":"@ + decimal(request.rules@.len()) + "}"@
            },
            Err(e) => replace_fault(*request, opt_str(gateway_id)) == Some(e@),
        },
{
    check_new_rules(request.rules.as_slice())?;
    let gateway = match gateway_id {
        Some(id) => db_id(id, "gateway")?,
        None => return Err(not_found_error("site does not exist")),
    };
    let mut rules: Vec<NewRule> = Vec::new();
    let mut i: usize = 0;
    while i < request.rules.len()
        invariant
            i <= request.rules@.len(),
            new_ids@.len() == request.rules@.len(),
            rules@.len() == i,
            forall|k: int|
                0 <= k < i ==> is_new_rule(
                    #[trigger] rules@[k],
                    request.rules@[k],
                    new_ids@[k],
                ),
        decreases request.rules@.len() - i,
    {
        rules.push(new_rule(&request.rules[i], new_ids[i]));
        i = i + 1;
    }
    let default_action = action_name(request.default_action);
    let details_json = String::from_str("{\"default\":").concat(
        crate::json::json_string(default_action).as_str(),
    ).concat(",\"rules\":").concat(decimal_text(request.rules.len() as u64).as_str()).concat("}");
    Ok(
        AclPlan {
            gateway_id: gateway,
            default_action,
            rules,
            audit: success(None, "system", "acl.replace", "site", Some(site_id)),
            details_json,
        },
    )
}

/// Rules that were accepted stand at different positions, so which one comes first is certain.
pub proof fn law_positions_are_unique(rules: Seq<AclRuleModel>, i: int, j: int)
    requires
        new_rules_fault(rules) is None,
        0 <= i < j < rules.len(),
    ensures
        rules[i].position != rules[j].position,
    decreases rules.len(),
{
    let d = rules.drop_last();
    if j == rules.len() - 1 {
        assert(d[i].position == rules[i].position);
    } else {
        law_positions_are_unique(d, i, j);
    }
}

} // verus!
