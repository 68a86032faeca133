//! What the firewall records of a router promise, read as a router reads them.

use vstd::prelude::*;

use crate::acl::{acl_outcome, AclAction, AclRule, IpProtocol, PacketContext};
use crate::ids::uuid_text;
use crate::ipv4::{address_text, Ipv4Addr};
use crate::laws::reading::{
    lemma_names_host, lemma_names_network, lemma_names_port, names_network_of, names_port,
    names_protocol,
};
use crate::linux::has_stray_ports;
use crate::mikrotik::{
    all_rule_records, chain_start, default_record, filter_record, firewall_plan,
    law_lists_are_not_shared, lines_at, list_of, list_record, peer_sources, prefix_text,
    protected_destinations, router_problem, rule_members, rule_records, rule_sources, short_text,
    OperationView,
};
use crate::policy::{
    distinct_addresses, first_line, has_address, is_routed, law_policy_is_the_acl, policy_of,
    PolicyLine,
};
use crate::state::StateView;

verus! {

/// Whether a record has a member with a value.
pub open spec fn bears(record: OperationView, name: Seq<char>, value: Seq<char>) -> bool {
    record.body.contains((name, value))
}

/// Whether an address list holds an address.
pub open spec fn listed(
    records: Seq<OperationView>,
    list: Seq<char>,
    address: Ipv4Addr,
) -> bool {
    exists|j: int, entry: Seq<char>|
        0 <= j < records.len() && (#[trigger] records[j]).resource == "/ip/firewall/address-list"@
            && bears(records[j], "list"@, list) && #[trigger] bears(records[j], "address"@, entry)
            && names_network_of(entry, address)
}

/// Whether a member of a firewall rule that names an address list lets an address pass: it is in
/// the list, or, behind an exclamation mark, is not in it.
pub open spec fn list_admits(
    records: Seq<OperationView>,
    value: Seq<char>,
    address: Ipv4Addr,
) -> bool {
    if value.len() > 0 && value[0] == '!' {
        !listed(records, value.skip(1), address)
    } else {
        listed(records, value, address)
    }
}

/// Whether a member of a firewall rule lets a packet pass that opens a connection.
pub open spec fn member_admits(
    records: Seq<OperationView>,
    name: Seq<char>,
    value: Seq<char>,
    source: Ipv4Addr,
    packet: PacketContext,
) -> bool {
    if name == "src-address-list"@ {
        list_admits(records, value, source)
    } else if name == "dst-address-list"@ {
        list_admits(records, value, packet.destination)
    } else if name == "dst-address"@ {
        names_network_of(value, packet.destination)
    } else if name == "protocol"@ {
        names_protocol(value, packet.protocol)
    } else if name == "dst-port"@ {
        names_port(value, packet.destination_port)
    } else {
        name != "connection-state"@
    }
}

/// Whether a record is a firewall rule of a chain that speaks of a packet that opens a connection.
pub open spec fn speaks_of(
    records: Seq<OperationView>,
    record: OperationView,
    chain: Seq<char>,
    source: Ipv4Addr,
    packet: PacketContext,
) -> bool {
    &&& record.resource == "/ip/firewall/filter"@
    &&& bears(record, "chain"@, chain)
    &&& forall|i: int|
        0 <= i < record.body.len() ==> member_admits(
            records,
            (#[trigger] record.body[i]).0,
            record.body[i].1,
            source,
            packet,
        )
}

/// What a chain of firewall rules does with a packet that opens a connection: what the first rule
/// says that speaks of it, if one does.
pub open spec fn decided(
    records: Seq<OperationView>,
    rules: Seq<OperationView>,
    chain: Seq<char>,
    source: Ipv4Addr,
    packet: PacketContext,
) -> Option<OperationView>
    decreases rules.len(),
{
    if rules.len() == 0 {
        None
    } else {
        match decided(records, rules.drop_last(), chain, source, packet) {
            Some(rule) => Some(rule),
            None => if speaks_of(records, rules.last(), chain, source, packet) {
                Some(rules.last())
            } else {
                None
            },
        }
    }
}

/// Whether a rule accepts or drops, and does nothing else.
pub open spec fn acts(rule: OperationView, action: AclAction) -> bool {
    &&& action == AclAction::Allow ==> bears(rule, "action"@, "accept"@)
    &&& action == AclAction::Deny ==> bears(rule, "action"@, "drop"@)
    &&& forall|value: Seq<char>| #[trigger]
        bears(rule, "action"@, value) ==> value == (match action {
            AclAction::Allow => "accept"@,
            AclAction::Deny => "drop"@,
        })
}

proof fn lemma_decided_adds(
    records: Seq<OperationView>,
    a: Seq<OperationView>,
    b: Seq<OperationView>,
    chain: Seq<char>,
    source: Ipv4Addr,
    packet: PacketContext,
)
    ensures
        decided(records, a + b, chain, source, packet) == (match decided(
            records,
            a,
            chain,
            source,
            packet,
        ) {
            Some(rule) => Some(rule),
            None => decided(records, b, chain, source, packet),
        }),
    decreases b.len(),
{
    if b.len() == 0 {
        assert(a + b =~= a);
    } else {
        lemma_decided_adds(records, a, b.drop_last(), chain, source, packet);
        assert((a + b).drop_last() =~= a + b.drop_last());
        assert((a + b).last() == b.last());
    }
}

proof fn lemma_entries_decide_nothing(
    records: Seq<OperationView>,
    rules: Seq<OperationView>,
    chain: Seq<char>,
    source: Ipv4Addr,
    packet: PacketContext,
)
    requires
        forall|i: int|
            0 <= i < rules.len() ==> (#[trigger] rules[i]).resource
                == "/ip/firewall/address-list"@,
    ensures
        decided(records, rules, chain, source, packet) is None,
    decreases rules.len(),
{
    if rules.len() > 0 {
        lemma_entries_decide_nothing(records, rules.drop_last(), chain, source, packet);
        reveal_strlit("/ip/firewall/address-list");
        reveal_strlit("/ip/firewall/filter");
        assert(rules[rules.len() - 1].resource == "/ip/firewall/address-list"@);
    }
}

proof fn lemma_names()
    ensures
        "chain"@.len() == 5,
        "action"@.len() == 6,
        "comment"@.len() == 7,
        "protocol"@.len() == 8 && "protocol"@[0] == 'p',
        "dst-port"@.len() == 8 && "dst-port"@[0] == 'd',
        "dst-address"@.len() == 11 && "dst-address"@[0] == 'd',
        "jump-target"@.len() == 11 && "jump-target"@[0] == 'j',
        "in-interface"@.len() == 12,
        "src-address-list"@.len() == 16 && "src-address-list"@[0] == 's',
        "dst-address-list"@.len() == 16 && "dst-address-list"@[0] == 'd',
        "connection-state"@.len() == 16 && "connection-state"@[0] == 'c',
        "list"@.len() == 4,
        "address"@.len() == 7 && "address"@[0] == 'a',
        "comment"@[0] == 'c',
        "accept"@.len() == 6,
        "drop"@.len() == 4 && "drop"@[0] == 'd',
        "jump"@.len() == 4 && "jump"@[0] == 'j',
        "forward"@.len() == 7 && "forward"@[0] == 'f',
        "/ip/firewall/address-list"@.len() == 25,
        "/ip/firewall/filter"@.len() == 19,
        "wm_"@.len() == 3 && "wm_"@[0] == 'w',
        "!"@.len() == 1 && "!"@[0] == '!',
        "_peers"@.len() == 6 && "_peers"@[1] == 'p',
        "_dst"@.len() == 4 && "_dst"@[1] == 'd',
        "_r"@.len() == 2 && "_r"@[1] == 'r',
{
    reveal_strlit("chain");
    reveal_strlit("action");
    reveal_strlit("comment");
    reveal_strlit("protocol");
    reveal_strlit("dst-port");
    reveal_strlit("dst-address");
    reveal_strlit("jump-target");
    reveal_strlit("in-interface");
    reveal_strlit("src-address-list");
    reveal_strlit("dst-address-list");
    reveal_strlit("connection-state");
    reveal_strlit("list");
    reveal_strlit("address");
    reveal_strlit("accept");
    reveal_strlit("drop");
    reveal_strlit("jump");
    reveal_strlit("forward");
    reveal_strlit("/ip/firewall/address-list");
    reveal_strlit("/ip/firewall/filter");
    reveal_strlit("wm_");
    reveal_strlit("!");
    reveal_strlit("_peers");
    reveal_strlit("_dst");
    reveal_strlit("_r");
}

/// An entry of an address list lists the network that it names, in its list, and nothing else.
proof fn lemma_entry(list: Seq<char>, address: Seq<char>, comment: Seq<char>)
    ensures
        forall|name: Seq<char>| #[trigger]
            bears(list_record(list, address, comment), "list"@, name) <==> name == list,
        forall|entry: Seq<char>| #[trigger]
            bears(list_record(list, address, comment), "address"@, entry) <==> entry == address,
{
    lemma_names();
    let record = list_record(list, address, comment);
    assert(record.body[0] == ("list"@, list));
    assert(record.body[1] == ("address"@, address));
    assert(record.body[2] == ("comment"@, comment));
    assert(record.body.contains(record.body[0]));
    assert(record.body.contains(record.body[1]));
    assert forall|name: Seq<char>| #[trigger] bears(record, "list"@, name) implies name == list by {
        let i = choose|i: int| 0 <= i < record.body.len() && record.body[i] == ("list"@, name);
        assert(i == 0);
    }
    assert forall|entry: Seq<char>| #[trigger] bears(record, "address"@, entry) implies entry
        == address by {
        let i = choose|i: int| 0 <= i < record.body.len() && record.body[i] == ("address"@, entry);
        assert(i == 1);
    }
}

/// Whether a record is what line `i` adds: an entry for one of its devices, or its rule.
spec fn is_of_line(
    record: OperationView,
    state: StateView,
    lines: Seq<PolicyLine>,
    i: int,
) -> bool {
    let list = list_of("wm_"@ + short_text(state.gateway_id), lines, i);
    ||| record == filter_record(rule_members(state, list, lines[i].rule))
    ||| exists|p: int|
        0 <= p < lines[i].sources.len() && record == #[trigger] rule_sources(
            state,
            list,
            lines[i].rule,
            lines[i].sources,
        )[p]
}

/// Whether a record is what one of some lines adds.
spec fn is_of_some_line(record: OperationView, state: StateView, lines: Seq<PolicyLine>) -> bool {
    exists|i: int| 0 <= i < lines.len() && #[trigger] is_of_line(record, state, lines, i)
}

proof fn lemma_records_of_lines(state: StateView, lines: Seq<PolicyLine>)
    ensures
        forall|n: int|
            0 <= n < all_rule_records(state, lines).len() ==> is_of_some_line(
                #[trigger] all_rule_records(state, lines)[n],
                state,
                lines,
            ),
        forall|i: int, p: int|
            0 <= i < lines.len() && 0 <= p < (#[trigger] lines[i]).sources.len()
                ==> all_rule_records(state, lines).contains(
                #[trigger] rule_sources(
                    state,
                    list_of("wm_"@ + short_text(state.gateway_id), lines, i),
                    lines[i].rule,
                    lines[i].sources,
                )[p],
            ),
    decreases lines.len(),
{
    let chain = "wm_"@ + short_text(state.gateway_id);
    if lines.len() > 0 {
        let less = lines.drop_last();
        let last = lines.last();
        let n = less.len() as int;
        lemma_records_of_lines(state, less);
        let before = all_rule_records(state, less);
        let all = all_rule_records(state, lines);
        assert(lines.take(n) =~= less);
        let list = list_of(chain, lines, n);
        let added = rule_records(state, last, lines_at(less, last.rule.position));
        assert(all == before + added);
        let sources = rule_sources(state, list, last.rule, last.sources);
        assert(added =~= sources.push(filter_record(rule_members(state, list, last.rule))));
        assert forall|i: int| 0 <= i < less.len() implies list_of(chain, less, i) == list_of(
            chain,
            lines,
            i,
        ) by {
            assert(less.take(i) =~= lines.take(i));
        }
        assert forall|k: int| 0 <= k < all.len() implies is_of_some_line(
            #[trigger] all[k],
            state,
            lines,
        ) by {
            if k < before.len() {
                assert(all[k] == before[k]);
                assert(is_of_some_line(before[k], state, less));
                let i = choose|i: int|
                    0 <= i < less.len() && #[trigger] is_of_line(before[k], state, less, i);
                assert(less[i] == lines[i]);
                assert(is_of_line(all[k], state, lines, i));
            } else {
                assert(all[k] == added[k - before.len()]);
                if k - before.len() < sources.len() {
                    assert(all[k] == sources[k - before.len()]);
                }
                assert(is_of_line(all[k], state, lines, n));
            }
        }
        assert forall|i: int, p: int|
            0 <= i < lines.len() && 0 <= p < (#[trigger] lines[i]).sources.len() implies all.contains(
            #[trigger] rule_sources(
                state,
                list_of(chain, lines, i),
                lines[i].rule,
                lines[i].sources,
            )[p],
        ) by {
            let x = rule_sources(state, list_of(chain, lines, i), lines[i].rule, lines[i].sources)[p];
            if i < n {
                assert(less[i] == lines[i]);
                assert(before.contains(x));
                let k = choose|k: int| 0 <= k < before.len() && before[k] == x;
                assert(all[k] == x);
            } else {
                assert(all[before.len() + p] == x);
            }
        }
    }
}

/// The names of the lists differ: that of all devices, that of the protected networks, and those
/// of the lines.
proof fn lemma_list_names(chain: Seq<char>, lines: Seq<PolicyLine>, i: int)
    requires
        0 <= i < lines.len(),
    ensures
        chain + "_peers"@ != chain + "_dst"@,
        chain + "_peers"@ != list_of(chain, lines, i),
        chain + "_dst"@ != list_of(chain, lines, i),
{
    lemma_names();
    let n = chain.len() as int;
    assert((chain + "_peers"@)[n + 1] == 'p');
    assert((chain + "_dst"@)[n + 1] == 'd');
    let list = list_of(chain, lines, i);
    assert(list[n + 1] == 'r');
}

/// Whether a list is one that should hold an address: that of all devices, that of the protected
/// networks, or that of a line.
spec fn should_list(state: StateView, list: Seq<char>, address: Ipv4Addr) -> bool {
    let chain = "wm_"@ + short_text(state.gateway_id);
    let lines = policy_of(state).lines;
    ||| list == chain + "_peers"@ && has_address(state.peers, address)
    ||| list == chain + "_dst"@ && is_routed(state.routes, address)
    ||| exists|i: int|
        0 <= i < lines.len() && list == #[trigger] list_of(chain, lines, i) && has_address(
            lines[i].sources,
            address,
        )
}

/// What an entry lists should be listed.
proof fn lemma_listed_rightly(
    state: StateView,
    list: Seq<char>,
    j: int,
    entry: Seq<char>,
    address: Ipv4Addr,
)
    requires
        0 <= j < firewall_plan(state).len(),
        firewall_plan(state)[j].resource == "/ip/firewall/address-list"@,
        bears(firewall_plan(state)[j], "list"@, list),
        bears(firewall_plan(state)[j], "address"@, entry),
        names_network_of(entry, address),
    ensures
        should_list(state, list, address),
{
    let chain = "wm_"@ + short_text(state.gateway_id);
    let plan = firewall_plan(state);
    let lines = policy_of(state).lines;
    let a = peer_sources(state);
    let b = protected_destinations(state);
    let c = chain_start(state);
    let r = all_rule_records(state, lines);
    lemma_names();
    if j < a.len() {
        let p = state.peers[j];
        let comment = prefix_text(state.gateway_id) + ":peer-source:"@ + uuid_text(p.device_id);
        let text = address_text(p.allowed_address) + "/32"@;
        assert(plan[j] == a[j]);
        assert(a[j] == list_record(chain + "_peers"@, text, comment));
        lemma_entry(chain + "_peers"@, text, comment);
        lemma_names_host(p.allowed_address, address);
        assert(state.peers[j].allowed_address == address);
    } else if j < a.len() + b.len() {
        let k = j - a.len();
        let net = state.routes[k];
        let comment = prefix_text(state.gateway_id) + ":destination:"@ + net.text();
        assert(plan[j] == b[k]);
        assert(b[k] == list_record(chain + "_dst"@, net.text(), comment));
        lemma_entry(chain + "_dst"@, net.text(), comment);
        lemma_names_network(net, address);
        assert(state.routes[k].holds(address));
    } else if j < a.len() + b.len() + c.len() {
        assert(plan[j] == c[j - a.len() - b.len()]);
    } else if j < a.len() + b.len() + c.len() + r.len() {
        let n = j - a.len() - b.len() - c.len();
        assert(plan[j] == r[n]);
        lemma_records_of_lines(state, lines);
        assert(is_of_some_line(r[n], state, lines));
        let i = choose|i: int| 0 <= i < lines.len() && #[trigger] is_of_line(r[n], state, lines, i);
        lemma_entry_of_line(state, lines, i, r[n], list, entry, address);
    } else {
        assert(plan[j] == default_record(state));
    }
}

proof fn lemma_entry_of_line(
    state: StateView,
    lines: Seq<PolicyLine>,
    i: int,
    record: OperationView,
    list: Seq<char>,
    entry: Seq<char>,
    address: Ipv4Addr,
)
    requires
        0 <= i < lines.len(),
        is_of_line(record, state, lines, i),
        record.resource == "/ip/firewall/address-list"@,
        bears(record, "list"@, list),
        bears(record, "address"@, entry),
        names_network_of(entry, address),
    ensures
        list == list_of("wm_"@ + short_text(state.gateway_id), lines, i),
        has_address(lines[i].sources, address),
{
    lemma_names();
    let name = list_of("wm_"@ + short_text(state.gateway_id), lines, i);
    let sources = rule_sources(state, name, lines[i].rule, lines[i].sources);
    let p = choose|p: int| 0 <= p < lines[i].sources.len() && record == #[trigger] sources[p];
    lemma_source_entry(state, name, lines[i], p);
    let device = lines[i].sources[p];
    lemma_names_host(device.allowed_address, address);
    assert(lines[i].sources[p].allowed_address == address);
}

proof fn lemma_source_entry(state: StateView, name: Seq<char>, line: PolicyLine, p: int)
    requires
        0 <= p < line.sources.len(),
    ensures
        ({
            let record = rule_sources(state, name, line.rule, line.sources)[p];
            let text = address_text(line.sources[p].allowed_address) + "/32"@;
            &&& record.resource == "/ip/firewall/address-list"@
            &&& forall|list: Seq<char>| #[trigger] bears(record, "list"@, list) <==> list == name
            &&& forall|entry: Seq<char>| #[trigger]
                bears(record, "address"@, entry) <==> entry == text
        }),
{
    let device = line.sources[p];
    let comment = prefix_text(state.gateway_id) + ":rule-source:"@ + uuid_text(line.rule.id)
        + ":"@ + uuid_text(device.device_id);
    let text = address_text(device.allowed_address) + "/32"@;
    assert(rule_sources(state, name, line.rule, line.sources)[p] == list_record(
        name,
        text,
        comment,
    ));
    lemma_entry(name, text, comment);
}

/// The list of all devices holds their addresses.
proof fn lemma_devices_are_listed(state: StateView, address: Ipv4Addr)
    requires
        has_address(state.peers, address),
    ensures
        listed(
            firewall_plan(state),
            "wm_"@ + short_text(state.gateway_id) + "_peers"@,
            address,
        ),
{
    let chain = "wm_"@ + short_text(state.gateway_id);
    let plan = firewall_plan(state);
    let j = choose|j: int|
        0 <= j < state.peers.len() && (#[trigger] state.peers[j]).allowed_address == address;
    let p = state.peers[j];
    let comment = prefix_text(state.gateway_id) + ":peer-source:"@ + uuid_text(p.device_id);
    let text = address_text(p.allowed_address) + "/32"@;
    assert(plan[j] == peer_sources(state)[j]);
    assert(plan[j] == list_record(chain + "_peers"@, text, comment));
    lemma_entry(chain + "_peers"@, text, comment);
    lemma_names_host(p.allowed_address, address);
    assert(bears(plan[j], "address"@, text));
}

/// The list of the protected networks holds their addresses.
proof fn lemma_routes_are_listed(state: StateView, address: Ipv4Addr)
    requires
        is_routed(state.routes, address),
    ensures
        listed(firewall_plan(state), "wm_"@ + short_text(state.gateway_id) + "_dst"@, address),
{
    let chain = "wm_"@ + short_text(state.gateway_id);
    let plan = firewall_plan(state);
    let k = choose|k: int|
        0 <= k < state.routes.len() && (#[trigger] state.routes[k]).holds(address);
    let net = state.routes[k];
    let comment = prefix_text(state.gateway_id) + ":destination:"@ + net.text();
    let j = peer_sources(state).len() + k;
    assert(plan[j] == protected_destinations(state)[k]);
    assert(plan[j] == list_record(chain + "_dst"@, net.text(), comment));
    lemma_entry(chain + "_dst"@, net.text(), comment);
    lemma_names_network(net, address);
    assert(bears(plan[j], "address"@, net.text()));
}

/// The list of a line holds the addresses of its devices.
proof fn lemma_sources_are_listed(state: StateView, i: int, address: Ipv4Addr)
    requires
        0 <= i < policy_of(state).lines.len(),
        has_address(policy_of(state).lines[i].sources, address),
    ensures
        listed(
            firewall_plan(state),
            list_of("wm_"@ + short_text(state.gateway_id), policy_of(state).lines, i),
            address,
        ),
{
    let plan = firewall_plan(state);
    let lines = policy_of(state).lines;
    let name = list_of("wm_"@ + short_text(state.gateway_id), lines, i);
    let r = all_rule_records(state, lines);
    let p = choose|p: int|
        0 <= p < lines[i].sources.len() && (#[trigger] lines[i].sources[p]).allowed_address
            == address;
    let x = rule_sources(state, name, lines[i].rule, lines[i].sources)[p];
    lemma_records_of_lines(state, lines);
    assert(r.contains(x));
    let n = choose|n: int| 0 <= n < r.len() && r[n] == x;
    let j = peer_sources(state).len() + protected_destinations(state).len() + chain_start(
        state,
    ).len() + n;
    assert(plan[j] == r[n]);
    lemma_source_entry(state, name, lines[i], p);
    lemma_names_host(lines[i].sources[p].allowed_address, address);
    assert(bears(plan[j], "address"@, address_text(address) + "/32"@));
}

/// The lists of a gateway's plan hold what they should: all devices, the protected networks, and
/// the devices of each line.
proof fn lemma_lists(state: StateView, address: Ipv4Addr)
    ensures
        ({
            let chain = "wm_"@ + short_text(state.gateway_id);
            let plan = firewall_plan(state);
            let lines = policy_of(state).lines;
            &&& listed(plan, chain + "_peers"@, address) == has_address(state.peers, address)
            &&& listed(plan, chain + "_dst"@, address) == is_routed(state.routes, address)
            &&& forall|i: int|
                0 <= i < lines.len() ==> listed(plan, #[trigger] list_of(chain, lines, i), address)
                    == has_address(lines[i].sources, address)
        }),
{
    let chain = "wm_"@ + short_text(state.gateway_id);
    let plan = firewall_plan(state);
    let lines = policy_of(state).lines;
    assert forall|list: Seq<char>| #[trigger] listed(plan, list, address) implies should_list(
        state,
        list,
        address,
    ) by {
        let (j, entry) = choose|j: int, entry: Seq<char>|
            0 <= j < plan.len() && (#[trigger] plan[j]).resource == "/ip/firewall/address-list"@
                && bears(plan[j], "list"@, list) && #[trigger] bears(plan[j], "address"@, entry)
                && names_network_of(entry, address);
        lemma_listed_rightly(state, list, j, entry, address);
    }
    assert forall|i: int| 0 <= i < lines.len() implies chain + "_peers"@ != #[trigger] list_of(
        chain,
        lines,
        i,
    ) && chain + "_dst"@ != list_of(chain, lines, i) by {
        lemma_list_names(chain, lines, i);
    }
    lemma_names();
    assert((chain + "_peers"@)[chain.len() as int + 1] == 'p');
    assert((chain + "_dst"@)[chain.len() as int + 1] == 'd');
    if has_address(state.peers, address) {
        lemma_devices_are_listed(state, address);
    }
    if is_routed(state.routes, address) {
        lemma_routes_are_listed(state, address);
    }
    assert forall|i: int| 0 <= i < lines.len() implies listed(
        plan,
        #[trigger] list_of(chain, lines, i),
        address,
    ) == has_address(lines[i].sources, address) by {
        let name = list_of(chain, lines, i);
        if has_address(lines[i].sources, address) {
            lemma_sources_are_listed(state, i, address);
        }
        if listed(plan, name, address) {
            let k = choose|k: int|
                0 <= k < lines.len() && name == #[trigger] list_of(chain, lines, k) && has_address(
                    lines[k].sources,
                    address,
                );
            if k < i {
                law_lists_are_not_shared(chain, lines, k, i);
            }
            if i < k {
                law_lists_are_not_shared(chain, lines, i, k);
            }
        }
    }
}

/// The rule of a line speaks of a packet exactly where the line does, and does what its rule says.
proof fn lemma_rule_of_line(
    state: StateView,
    list: Seq<char>,
    line: PolicyLine,
    source: Ipv4Addr,
    packet: PacketContext,
)
    requires
        list.len() > 0 && list[0] == 'w',
        !has_stray_ports(line.rule),
        listed(firewall_plan(state), list, source) == has_address(line.sources, source),
    ensures
        ({
            let rule = filter_record(rule_members(state, list, line.rule));
            &&& speaks_of(
                firewall_plan(state),
                rule,
                "wm_"@ + short_text(state.gateway_id),
                source,
                packet,
            ) == line.matches(source, packet)
            &&& acts(rule, line.rule.action)
        }),
{
    lemma_names();
    let plan = firewall_plan(state);
    let rule = line.rule;
    let chain = "wm_"@ + short_text(state.gateway_id);
    let body = rule_members(state, list, rule);
    let record = filter_record(body);
    let n = if rule.protocol == IpProtocol::Any { 5int } else { 6 };
    assert(body[0] == ("chain"@, chain));
    assert(body[1] == ("src-address-list"@, list));
    assert(body[2] == ("dst-address"@, rule.destination.text()));
    assert(body[3].0 == "action"@);
    assert(body[4].0 == "comment"@);
    reveal_strlit("tcp");
    reveal_strlit("udp");
    reveal_strlit("icmp");
    assert("tcp"@[0] == 't' && "udp"@[0] == 'u' && "icmp"@.len() == 4);
    if rule.protocol != IpProtocol::Any {
        assert(body[5].0 == "protocol"@);
        assert(names_protocol(body[5].1, packet.protocol) == (rule.protocol == packet.protocol));
    }
    if rule.destination_ports is Some {
        let ports = rule.destination_ports->0;
        assert(body[n].0 == "dst-port"@);
        reveal_strlit("-");
        assert("-"@ =~= seq!['-']);
        lemma_names_port(ports, packet.destination_port, body[n].1);
    }
    lemma_names_network(rule.destination, packet.destination);
    assert(body.contains(body[0]));
    assert(bears(record, "chain"@, chain));
    assert(body.len() == n + (if rule.destination_ports is Some { 1int } else { 0 }));
    if speaks_of(plan, record, chain, source, packet) {
        assert(member_admits(plan, body[1].0, body[1].1, source, packet));
        assert(member_admits(plan, body[2].0, body[2].1, source, packet));
        if rule.protocol != IpProtocol::Any {
            assert(member_admits(plan, body[5].0, body[5].1, source, packet));
        }
        if rule.destination_ports is Some {
            assert(member_admits(plan, body[n].0, body[n].1, source, packet));
        }
    }
    if line.matches(source, packet) {
        assert forall|i: int| 0 <= i < body.len() implies member_admits(
            plan,
            (#[trigger] body[i]).0,
            body[i].1,
            source,
            packet,
        ) by {
            if i >= 5 {
                assert(i == 5 || i == 6);
            }
        }
        assert(speaks_of(plan, record, chain, source, packet));
    }
    assert(body.contains(body[3]));
    assert forall|value: Seq<char>| #[trigger] bears(record, "action"@, value) implies value
        == body[3].1 by {
        let i = choose|i: int| 0 <= i < body.len() && body[i] == ("action"@, value);
        if i >= 5 {
            assert(i == 5 || i == 6);
        }
        assert(i == 3);
    }
}

proof fn lemma_rules_of_lines(
    state: StateView,
    lines: Seq<PolicyLine>,
    source: Ipv4Addr,
    packet: PacketContext,
)
    requires
        forall|i: int| 0 <= i < lines.len() ==> !has_stray_ports((#[trigger] lines[i]).rule),
        forall|i: int|
            0 <= i < lines.len() ==> listed(
                firewall_plan(state),
                #[trigger] list_of("wm_"@ + short_text(state.gateway_id), lines, i),
                source,
            ) == has_address(lines[i].sources, source),
    ensures
        ({
            let chain = "wm_"@ + short_text(state.gateway_id);
            let found = decided(
                firewall_plan(state),
                all_rule_records(state, lines),
                chain,
                source,
                packet,
            );
            match first_line(lines, source, packet) {
                Some(i) => 0 <= i < lines.len() && (found matches Some(rule) && acts(
                    rule,
                    lines[i].rule.action,
                )),
                None => found is None,
            }
        }),
    decreases lines.len(),
{
    let chain = "wm_"@ + short_text(state.gateway_id);
    let plan = firewall_plan(state);
    if lines.len() > 0 {
        let less = lines.drop_last();
        let last = lines.last();
        let n = less.len() as int;
        assert forall|i: int| 0 <= i < less.len() implies listed(
            plan,
            #[trigger] list_of(chain, less, i),
            source,
        ) == has_address(less[i].sources, source) by {
            assert(less.take(i) =~= lines.take(i));
            assert(list_of(chain, lines, i) == list_of(chain, less, i));
        }
        assert forall|i: int| 0 <= i < less.len() implies !has_stray_ports(
            (#[trigger] less[i]).rule,
        ) by {
            assert(less[i] == lines[i]);
        }
        lemma_rules_of_lines(state, less, source, packet);
        assert(lines.take(n) =~= less);
        let list = list_of(chain, lines, n);
        assert(lines[n] == last);
        lemma_names();
        assert(list[0] == 'w');
        lemma_rule_of_line(state, list, last, source, packet);
        let sources = rule_sources(state, list, last.rule, last.sources);
        let rule = filter_record(rule_members(state, list, last.rule));
        let added = rule_records(state, last, lines_at(less, last.rule.position));
        assert(added =~= sources + seq![rule]);
        lemma_entries_decide_nothing(plan, sources, chain, source, packet);
        lemma_decided_adds(plan, sources, seq![rule], chain, source, packet);
        lemma_decided_one(plan, rule, chain, source, packet);
        lemma_decided_adds(plan, all_rule_records(state, less), added, chain, source, packet);
    }
}

proof fn lemma_decided_one(
    records: Seq<OperationView>,
    rule: OperationView,
    chain: Seq<char>,
    source: Ipv4Addr,
    packet: PacketContext,
)
    ensures
        decided(records, seq![rule], chain, source, packet) == (if speaks_of(
            records,
            rule,
            chain,
            source,
            packet,
        ) {
            Some(rule)
        } else {
            None
        }),
{
    let one = seq![rule];
    assert(one.drop_last() =~= Seq::<OperationView>::empty());
    assert(decided(records, one.drop_last(), chain, source, packet) is None);
}

/// What the start of a chain does with a packet that opens a connection: it drops what comes from
/// no device, and what goes to no protected network.
proof fn lemma_start(state: StateView, source: Ipv4Addr, packet: PacketContext)
    ensures
        ({
            let chain = "wm_"@ + short_text(state.gateway_id);
            let found = decided(firewall_plan(state), chain_start(state), chain, source, packet);
            if has_address(state.peers, source) && is_routed(state.routes, packet.destination) {
                found is None
            } else {
                found matches Some(rule) && acts(rule, AclAction::Deny)
            }
        }),
{
    let chain = "wm_"@ + short_text(state.gateway_id);
    let plan = firewall_plan(state);
    let c = chain_start(state);
    lemma_names();
    lemma_lists(state, source);
    lemma_lists(state, packet.destination);
    assert(chain[0] == 'w');
    assert(c =~= seq![c[0]] + seq![c[1]] + seq![c[2]] + seq![c[3]]);
    lemma_decided_adds(plan, seq![c[0]], seq![c[1]], chain, source, packet);
    lemma_decided_adds(plan, seq![c[0]] + seq![c[1]], seq![c[2]], chain, source, packet);
    lemma_decided_adds(
        plan,
        seq![c[0]] + seq![c[1]] + seq![c[2]],
        seq![c[3]],
        chain,
        source,
        packet,
    );
    lemma_decided_one(plan, c[0], chain, source, packet);
    lemma_decided_one(plan, c[1], chain, source, packet);
    lemma_decided_one(plan, c[2], chain, source, packet);
    lemma_decided_one(plan, c[3], chain, source, packet);
    // The jump is a rule of another chain.
    assert(!bears(c[0], "chain"@, chain)) by {
        let body = c[0].body;
        assert(body[0] == ("chain"@, "forward"@));
        assert(body[1].0 == "in-interface"@ && body[2].0 == "action"@ && body[3].0
            == "jump-target"@ && body[4].0 == "comment"@);
        if body.contains(("chain"@, chain)) {
            let i = choose|i: int| 0 <= i < body.len() && body[i] == ("chain"@, chain);
            assert(i == 0);
        }
    }
    // A packet that opens a connection belongs to no other one.
    assert(!member_admits(plan, c[1].body[1].0, c[1].body[1].1, source, packet));
    lemma_guard(state, c[2], "src-address-list"@, chain + "_peers"@, source, packet);
    lemma_guard(state, c[3], "dst-address-list"@, chain + "_dst"@, source, packet);
}

proof fn lemma_guard(
    state: StateView,
    guard: OperationView,
    name: Seq<char>,
    list: Seq<char>,
    source: Ipv4Addr,
    packet: PacketContext,
)
    requires
        name == "src-address-list"@ || name == "dst-address-list"@,
        guard.resource == "/ip/firewall/filter"@,
        guard.body.len() == 4,
        guard.body[0] == ("chain"@, "wm_"@ + short_text(state.gateway_id)),
        guard.body[1] == (name, "!"@ + list),
        guard.body[2] == ("action"@, "drop"@),
        guard.body[3].0 == "comment"@,
    ensures
        speaks_of(
            firewall_plan(state),
            guard,
            "wm_"@ + short_text(state.gateway_id),
            source,
            packet,
        ) == !listed(
            firewall_plan(state),
            list,
            if name == "src-address-list"@ {
                source
            } else {
                packet.destination
            },
        ),
        acts(guard, AclAction::Deny),
{
    lemma_names();
    let plan = firewall_plan(state);
    let body = guard.body;
    let chain = "wm_"@ + short_text(state.gateway_id);
    assert(("!"@ + list)[0] == '!');
    assert(("!"@ + list).skip(1) =~= list);
    assert(body.contains(body[0]));
    assert(body.contains(body[2]));
    if speaks_of(plan, guard, chain, source, packet) {
        assert(member_admits(plan, body[1].0, body[1].1, source, packet));
    }
    assert forall|value: Seq<char>| #[trigger] bears(guard, "action"@, value) implies value
        == "drop"@ by {
        let i = choose|i: int| 0 <= i < body.len() && body[i] == ("action"@, value);
        assert(i == 2);
    }
}

/// The last record is the site's default, and speaks of every packet.
proof fn lemma_default(state: StateView, source: Ipv4Addr, packet: PacketContext)
    ensures
        speaks_of(
            firewall_plan(state),
            default_record(state),
            "wm_"@ + short_text(state.gateway_id),
            source,
            packet,
        ),
        acts(default_record(state), state.acl_default),
{
    lemma_names();
    let body = default_record(state).body;
    let chain = "wm_"@ + short_text(state.gateway_id);
    assert(body[0] == ("chain"@, chain));
    assert(body[1].0 == "action"@);
    assert(body[2].0 == "comment"@);
    assert(body.contains(body[0]));
    assert(body.contains(body[1]));
    assert forall|value: Seq<char>| #[trigger] bears(
        default_record(state),
        "action"@,
        value,
    ) implies value == body[1].1 by {
        let i = choose|i: int| 0 <= i < body.len() && body[i] == ("action"@, value);
        assert(i == 1);
    }
}

/// Read in order, the firewall rules of a gateway decide every packet that opens a connection, and
/// the first one that speaks of it accepts or drops it as the access rules say: of a device, to a
/// protected network, as they say for the user of the device and its groups; any other packet is
/// dropped.
pub proof fn law_firewall_records_say_what_the_rules_say(
    state: StateView,
    rules: Seq<AclRule>,
    packet: PacketContext,
    source: Ipv4Addr,
)
    requires
        router_problem(state) is None,
        distinct_addresses(state.peers),
        state.acl_rules == rules.map_values(|r: AclRule| r@),
    ensures
        ({
            let chain = "wm_"@ + short_text(state.gateway_id);
            let found = decided(
                firewall_plan(state),
                firewall_plan(state),
                chain,
                source,
                packet,
            );
            &&& found is Some
            &&& forall|peer: int, action: AclAction|
                {
                    &&& 0 <= peer < state.peers.len()
                    &&& (#[trigger] state.peers[peer]).allowed_address == source
                    &&& packet.user_id == state.peers[peer].user_id
                    &&& packet.group_ids@ == state.peers[peer].group_ids
                    &&& is_routed(state.routes, packet.destination)
                    &&& #[trigger] acl_outcome(rules, state.acl_default, packet, action)
                } ==> acts(found->0, action)
            &&& acts(found->0, policy_of(state).verdict(source, packet))
            &&& !has_address(state.peers, source) || !is_routed(state.routes, packet.destination)
                ==> acts(found->0, AclAction::Deny)
        }),
{
    let chain = "wm_"@ + short_text(state.gateway_id);
    let plan = firewall_plan(state);
    let lines = policy_of(state).lines;
    let a = peer_sources(state);
    let b = protected_destinations(state);
    let c = chain_start(state);
    let r = all_rule_records(state, lines);
    let d = seq![default_record(state)];
    assert(plan =~= a + b + c + r + d);
    lemma_entries_decide_nothing(plan, a, chain, source, packet);
    lemma_entries_decide_nothing(plan, b, chain, source, packet);
    lemma_decided_adds(plan, a, b, chain, source, packet);
    lemma_decided_adds(plan, a + b, c, chain, source, packet);
    lemma_decided_adds(plan, a + b + c, r, chain, source, packet);
    lemma_decided_adds(plan, a + b + c + r, d, chain, source, packet);
    lemma_start(state, source, packet);
    lemma_lists(state, source);
    assert forall|i: int| 0 <= i < lines.len() implies !has_stray_ports(
        (#[trigger] lines[i]).rule,
    ) by {
        crate::policy::lemma_lines_have_rules(state.acl_rules, state.peers, i);
        let k = choose|k: int|
            0 <= k < state.acl_rules.len() && state.acl_rules[k] == lines[i].rule;
        assert(!has_stray_ports(state.acl_rules[k]));
    }
    lemma_rules_of_lines(state, lines, source, packet);
    lemma_decided_one(plan, default_record(state), chain, source, packet);
    lemma_default(state, source, packet);
    assert forall|peer: int, action: AclAction|
        {
            &&& 0 <= peer < state.peers.len()
            &&& (#[trigger] state.peers[peer]).allowed_address == source
            &&& packet.user_id == state.peers[peer].user_id
            &&& packet.group_ids@ == state.peers[peer].group_ids
            &&& is_routed(state.routes, packet.destination)
            &&& #[trigger] acl_outcome(rules, state.acl_default, packet, action)
        } implies policy_of(state).verdict(source, packet) == action by {
        law_policy_is_the_acl(state, rules, packet, peer, action);
    }
}

/// What comes in from the gateway's interface, and nothing else, is handed to its chain. The last
/// rule of the chain accepts where the site allows by default, and drops where it denies.
pub proof fn law_firewall_records_frame_the_chain(state: StateView)
    requires
        router_problem(state) is None,
    ensures
        ({
            let plan = firewall_plan(state);
            let chain = "wm_"@ + short_text(state.gateway_id);
            let last = plan.last();
            &&& last.resource == "/ip/firewall/filter"@
            &&& bears(last, "chain"@, chain)
            &&& last.body.len() == 3
            &&& acts(last, state.acl_default)
            &&& exists|j: int|
                {
                    &&& 0 <= j < plan.len()
                    &&& (#[trigger] plan[j]).resource == "/ip/firewall/filter"@
                    &&& plan[j].body.len() == 5
                    &&& bears(plan[j], "chain"@, "forward"@)
                    &&& bears(plan[j], "in-interface"@, state.interface_name)
                    &&& bears(plan[j], "action"@, "jump"@)
                    &&& bears(plan[j], "jump-target"@, chain)
                }
            &&& exists|j: int|
                {
                    &&& 0 <= j < plan.len()
                    &&& (#[trigger] plan[j]).resource == "/ip/firewall/filter"@
                    &&& bears(plan[j], "chain"@, chain)
                    &&& bears(plan[j], "connection-state"@, "established,related"@)
                    &&& bears(plan[j], "action"@, "accept"@)
                }
        }),
{
    let plan = firewall_plan(state);
    let c = chain_start(state);
    let n = peer_sources(state).len() + protected_destinations(state).len();
    lemma_default(state, 0, arbitrary());
    let jump = c[0];
    let flow = c[1];
    assert(plan[n as int] == jump);
    assert(plan[n as int + 1] == flow);
    assert(jump.body.contains(jump.body[0]) && jump.body.contains(jump.body[1])
        && jump.body.contains(jump.body[2]) && jump.body.contains(jump.body[3]));
    assert(flow.body.contains(flow.body[0]) && flow.body.contains(flow.body[1])
        && flow.body.contains(flow.body[2]));
}

} // verus!
