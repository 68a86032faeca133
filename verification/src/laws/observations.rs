//! What looking at gateways, and recording what was done, promises.

use vstd::prelude::*;

use crate::audit::{audit_limit_of, AuditEntry};
use crate::fleet::create_agent_fault;
use crate::ids::{uuid_text, Uuid};
use crate::ipv4::address_text;
use crate::json::{
    json_array, json_canonical, json_items, json_members, json_quoted, string_member_of,
};
use crate::laws::plans::lemma_end_occurs;
use crate::lines::{fields_of, utf8_lossy};
use crate::linux::{dump_interface, dump_peers, full_lines, kept_fields, nftables_text, CommandView};
use crate::linux_plan::LinuxStage;
use crate::mikrotik::{firewall_plan, peer_record, route_record};
use crate::models::CreateAgentRequest;
use crate::router::{
    answer_document, only_record, record_named, router_json, steady_records, RouterState,
};
use crate::router_plan::{cleared, RouterStage};
use crate::scrub::{steady_json, steady_members};
use crate::sort::{lemma_stable_sorted, stable_sorted};
use crate::state::StateView;
use crate::text::{byte_count, occurs_in, texts, trimmed};

verus! {

/// Counters and the like do not count: two objects that differ in nothing else are the same to one
/// who looks for drift.
pub proof fn law_counters_do_not_count(
    a: Seq<(Seq<char>, Seq<char>)>,
    b: Seq<(Seq<char>, Seq<char>)>,
    volatile: Seq<Seq<char>>,
    depth: nat,
)
    requires
        a.len() == b.len(),
        forall|i: int|
            0 <= i < a.len() ==> (#[trigger] a[i]).0 == b[i].0 && (a[i].1 == b[i].1
                || volatile.contains(a[i].0)),
    ensures
        steady_members(a, volatile, depth) == steady_members(b, volatile, depth),
    decreases a.len(),
{
    if a.len() > 0 {
        let less_a = a.drop_last();
        let less_b = b.drop_last();
        assert forall|i: int| 0 <= i < less_a.len() implies (#[trigger] less_a[i]).0 == less_b[i].0
            && (less_a[i].1 == less_b[i].1 || volatile.contains(less_a[i].0)) by {
            assert(a[i].0 == b[i].0);
        }
        law_counters_do_not_count(less_a, less_b, volatile, depth);
        assert(a[a.len() - 1].0 == b[b.len() - 1].0);
    }
}

/// All other members count, with what they hold; and so does every item of a list.
pub proof fn law_everything_else_counts(
    members: Seq<(Seq<char>, Seq<char>)>,
    key: Seq<char>,
    value: Seq<char>,
    items: Seq<Seq<char>>,
    volatile: Seq<Seq<char>>,
    depth: nat,
)
    ensures
        steady_members(Seq::<(Seq<char>, Seq<char>)>::empty(), volatile, depth).len() == 0,
        !volatile.contains(key) ==> steady_members(members.push((key, value)), volatile, depth)
            == steady_members(members, volatile, depth).push(
            json_quoted(key) + ":"@ + steady_json(value, volatile, depth),
        ),
        volatile.contains(key) ==> steady_members(members.push((key, value)), volatile, depth)
            == steady_members(members, volatile, depth),
        crate::scrub::steady_items(Seq::<Seq<char>>::empty(), volatile, depth).len() == 0,
        crate::scrub::steady_items(items.push(value), volatile, depth)
            == crate::scrub::steady_items(items, volatile, depth).push(
            steady_json(value, volatile, depth),
        ),
        depth > 0 && json_members(value) is None && json_items(value) is None ==> steady_json(
            value,
            volatile,
            depth,
        ) == value,
{
    assert(members.push((key, value)).drop_last() =~= members);
    assert(items.push(value).drop_last() =~= items);
}

/// Of a packet filter, the handles, the counters and the version of the program do not count.
pub proof fn law_volatile_parts_of_filters(key: Seq<char>)
    ensures
        crate::linux::volatile_members().contains(key) <==> key == "handle"@ || key == "packets"@
            || key == "bytes"@ || key == "metainfo"@,
{
    let v = crate::linux::volatile_members();
    assert(v[0] == "handle"@ && v[1] == "packets"@ && v[2] == "bytes"@ && v[3] == "metainfo"@);
}

/// Of a router's records, identifiers, the private key, counters and what a connection is doing do
/// not count.
pub proof fn law_volatile_parts_of_records(key: Seq<char>)
    ensures
        crate::router::volatile_members().contains(key) <==> {
            ||| key == ".id"@
            ||| key == "private-key"@
            ||| key == "last-handshake"@
            ||| key == "rx"@
            ||| key == "tx"@
            ||| key == "current-endpoint-address"@
            ||| key == "current-endpoint-port"@
            ||| key == "dynamic"@
            ||| key == "running"@
            ||| key == "packets"@
            ||| key == "bytes"@
        },
{
    let v = crate::router::volatile_members();
    assert(v[0] == ".id"@ && v[1] == "private-key"@ && v[2] == "last-handshake"@ && v[3] == "rx"@
        && v[4] == "tx"@ && v[5] == "current-endpoint-address"@ && v[6] == "current-endpoint-port"@
        && v[7] == "dynamic"@ && v[8] == "running"@ && v[9] == "packets"@ && v[10] == "bytes"@);
}

/// Of the interface its public key, its port and its mark are seen, and not its private key.
pub proof fn law_private_keys_are_not_seen(lines: Seq<Seq<char>>)
    requires
        lines.len() > 0,
        fields_of(lines[0], '\t').len() == 4,
    ensures
        ({
            let fields = fields_of(lines[0], '\t');
            dump_interface(lines) == "interface"@ + ":"@ + fields[1] + ":"@ + fields[2] + ":"@
                + fields[3]
        }),
{
}

/// Every device that WireGuard tells of is seen: its key, its addresses and how it is kept alive.
pub proof fn law_every_device_is_seen(lines: Seq<Seq<char>>, i: int)
    requires
        0 < i < lines.len(),
        fields_of(lines[i], '\t').len() == 8,
    ensures
        ({
            let fields = fields_of(lines[i], '\t');
            dump_peers(lines).contains(
                "peer"@ + ":"@ + fields[0] + ":"@ + fields[3] + ":"@ + fields[7],
            )
        }),
        dump_peers(lines).len() == lines.len() - 1,
{
    broadcast use vstd::seq_lib::group_to_multiset_ensures;

    let kept = Seq::new(
        (lines.len() - 1) as nat,
        |k: int| kept_fields("peer"@, lines[k + 1], 0, 3, 7),
    );
    lemma_stable_sorted(kept);
    let one = kept[i - 1];
    assert(kept.contains(one));
    assert(kept.to_multiset().count(one) > 0);
    assert(stable_sorted(kept).to_multiset().count(one) > 0);
    assert(stable_sorted(kept).to_multiset().len() == kept.to_multiset().len());
}

/// Of a listing the lines that hold something are seen, without the blanks around it.
pub proof fn law_full_lines_are_seen(lines: Seq<Seq<char>>, line: Seq<char>)
    ensures
        full_lines(lines).contains(line) <==> line.len() > 0 && exists|i: int|
            0 <= i < lines.len() && trimmed(#[trigger] lines[i]) == line,
    decreases lines.len(),
{
    if lines.len() > 0 {
        let less = lines.drop_last();
        law_full_lines_are_seen(less, line);
        assert(lines[lines.len() - 1] == lines.last());
        let some = full_lines(less);
        let all = full_lines(lines);
        if some.contains(line) {
            let k = choose|k: int| 0 <= k < some.len() && some[k] == line;
            assert(all[k] == line);
            let i = choose|i: int| 0 <= i < less.len() && trimmed(#[trigger] less[i]) == line;
            assert(lines[i] == less[i]);
        }
        if all.len() > some.len() {
            assert(all[some.len() as int] == trimmed(lines.last()));
            if all.contains(line) && !some.contains(line) {
                let k = choose|k: int| 0 <= k < all.len() && all[k] == line;
                if k < some.len() {
                    assert(some[k] == line);
                }
            }
        }
        if exists|i: int| 0 <= i < lines.len() && trimmed(#[trigger] lines[i]) == line {
            let i = choose|i: int| 0 <= i < lines.len() && trimmed(#[trigger] lines[i]) == line;
            if i < less.len() {
                assert(less[i] == lines[i]);
            }
        }
    }
}

/// Every part of a router is seen: its filters in their order, all else sorted.
pub proof fn law_every_part_of_a_router_is_seen(state: RouterState)
    ensures
        occurs_in(
            json_array(stable_sorted(steady_records(texts(state.address_lists@)))),
            router_json(state),
        ),
        occurs_in(
            json_array(stable_sorted(steady_records(texts(state.addresses@)))),
            router_json(state),
        ),
        occurs_in(json_array(steady_records(texts(state.filters@))), router_json(state)),
        occurs_in(
            steady_json(state.interface@, crate::router::volatile_members(), 128),
            router_json(state),
        ),
        occurs_in(
            json_array(stable_sorted(steady_records(texts(state.peers@)))),
            router_json(state),
        ),
        occurs_in(
            json_array(stable_sorted(steady_records(texts(state.routes@)))),
            router_json(state),
        ),
{
    let p0 = "{\"address_lists\":"@;
    let p1 = json_array(stable_sorted(steady_records(texts(state.address_lists@))));
    let p3 = json_array(stable_sorted(steady_records(texts(state.addresses@))));
    let p5 = json_array(steady_records(texts(state.filters@)));
    let p7 = crate::router::steady_record(state.interface@);
    let p9 = json_array(stable_sorted(steady_records(texts(state.peers@))));
    let p11 = json_array(stable_sorted(steady_records(texts(state.routes@))));
    let s1 = p0 + p1;
    let s2 = s1 + ",\"addresses\":"@;
    let s3 = s2 + p3;
    let s4 = s3 + ",\"filters\":"@;
    let s5 = s4 + p5;
    let s6 = s5 + ",\"interface\":"@;
    let s7 = s6 + p7;
    let s8 = s7 + ",\"peers\":"@;
    let s9 = s8 + p9;
    let s10 = s9 + ",\"routes\":"@;
    let s11 = s10 + p11;
    lemma_end_occurs(p0, p1);
    lemma_end_occurs(s1, ",\"addresses\":"@);
    lemma_end_occurs(s2, p3);
    lemma_end_occurs(s3, ",\"filters\":"@);
    lemma_end_occurs(s4, p5);
    lemma_end_occurs(s5, ",\"interface\":"@);
    lemma_end_occurs(s6, p7);
    lemma_end_occurs(s7, ",\"peers\":"@);
    lemma_end_occurs(s8, p9);
    lemma_end_occurs(s9, ",\"routes\":"@);
    lemma_end_occurs(s10, p11);
    lemma_end_occurs(s11, "}"@);
}

/// What a router answers is read where it succeeded; no answer at all is nothing.
pub proof fn law_answers_of_routers_are_read(
    success: bool,
    path: Seq<char>,
    status: Seq<char>,
    bytes: Seq<u8>,
)
    ensures
        ({
            let answer = answer_document(success, path, status, bytes);
            &&& answer is Ok <==> success && (bytes.len() == 0 || json_canonical(bytes) is Ok)
            &&& success && bytes.len() == 0 ==> answer->Ok_0 == "null"@
            &&& success && bytes.len() > 0 && answer is Ok ==> answer->Ok_0
                == json_canonical(bytes)->Ok_0
            &&& !success ==> occurs_in(utf8_lossy(bytes), answer->Err_0)
        }),
{
    lemma_end_occurs("RouterOS "@ + path + " returned "@ + status + ": "@, utf8_lossy(bytes));
}

/// A record is the answer itself, or the first one of a list.
pub proof fn law_single_records_are_found(document: Seq<char>)
    ensures
        json_members(document) is Some ==> only_record(document) == Some(document),
        json_members(document) is None && json_items(document) is Some && json_items(
            document,
        )->0.len() > 0 ==> only_record(document) == Some(json_items(document)->0[0]),
        json_members(document) is None && (json_items(document) is None || json_items(
            document,
        )->0.len() == 0) ==> only_record(document) is None,
{
}

/// The interface of a name is the first record that has it.
pub proof fn law_interfaces_are_found_by_name(records: Seq<Seq<char>>, name: Seq<char>, i: int)
    ensures
        0 <= i < records.len() && string_member_of(records[i], "name"@) == Some(name) && (forall|
            k: int,
        |
            0 <= k < i ==> string_member_of(#[trigger] records[k], "name"@) != Some(name))
            ==> record_named(records, name) == Some(records[i]),
        (forall|k: int|
            0 <= k < records.len() ==> string_member_of(#[trigger] records[k], "name"@) != Some(
                name,
            )) ==> record_named(records, name) is None,
    decreases records.len(),
{
    if records.len() > 0 {
        let rest = records.drop_first();
        law_interfaces_are_found_by_name(rest, name, i - 1);
        if 0 < i < records.len() && (forall|k: int|
            0 <= k < i ==> string_member_of(#[trigger] records[k], "name"@) != Some(name)) {
            assert(string_member_of(records[0], "name"@) != Some(name));
            assert forall|k: int| 0 <= k < i - 1 implies string_member_of(
                #[trigger] rest[k],
                "name"@,
            ) != Some(name) by {
                assert(string_member_of(records[k + 1], "name"@) != Some(name));
            }
            assert(rest[i - 1] == records[i]);
        }
        if forall|k: int|
            0 <= k < records.len() ==> string_member_of(#[trigger] records[k], "name"@) != Some(
                name,
            ) {
            assert(string_member_of(records[0], "name"@) != Some(name));
            assert forall|k: int| 0 <= k < rest.len() implies string_member_of(
                #[trigger] rest[k],
                "name"@,
            ) != Some(name) by {
                assert(string_member_of(records[k + 1], "name"@) != Some(name));
            }
        }
    }
}

/// On Linux packets are forwarded, the interface is made where there is none, and the packet filter
/// is loaded in one piece.
pub proof fn law_linux_stages_do_their_work(
    state: StateView,
    interface_exists: bool,
    key_path: Seq<char>,
    listing: Seq<u8>,
)
    ensures
        crate::linux_plan::stage_plan(
            LinuxStage::Forwarding,
            state,
            interface_exists,
            key_path,
            listing,
        ) == seq![
            CommandView {
                program: "sysctl"@,
                arguments: seq!["-q"@, "-w"@, "net.ipv4.ip_forward=1"@],
                stdin: None,
            },
        ],
        crate::linux_plan::stage_plan(LinuxStage::Interface, state, true, key_path, listing).len()
            == 0,
        crate::linux_plan::stage_plan(LinuxStage::Interface, state, false, key_path, listing)
            == seq![
            CommandView {
                program: "ip"@,
                arguments: seq![
                    "link"@,
                    "add"@,
                    "dev"@,
                    state.interface_name,
                    "type"@,
                    "wireguard"@,
                ],
                stdin: None,
            },
        ],
        crate::linux_plan::stage_plan(LinuxStage::Table, state, interface_exists, key_path, listing)
            == seq![
            CommandView {
                program: "nft"@,
                arguments: seq!["-f"@, "-"@],
                stdin: Some(nftables_text(state)),
            },
        ],
{
}

/// A router gets every device and its route in turn, the address for old clients where there is
/// one, and its firewall; what was there before of each is removed.
pub proof fn law_router_stages_do_their_work(state: StateView, i: int)
    ensures
        ({
            let peers = crate::router_plan::stage_plan(RouterStage::AddPeers, state);
            let routes = crate::router_plan::stage_plan(RouterStage::Routes, state);
            let addresses = crate::router_plan::stage_plan(RouterStage::Address, state);
            &&& peers.len() == state.peers.len()
            &&& routes.len() == state.peers.len()
            &&& 0 <= i < state.peers.len() ==> peers[i] == peer_record(state, state.peers[i])
                && routes[i] == route_record(state, state.peers[i])
            &&& state.compatibility_address is None ==> addresses.len() == 0
            &&& state.compatibility_address is Some ==> {
                &&& addresses.len() == 1
                &&& addresses[0].resource == "/ip/address"@
                &&& addresses[0].body.contains(
                    ("address"@, address_text(state.compatibility_address->0) + "/32"@),
                )
                &&& addresses[0].body.contains(("interface"@, state.interface_name))
                &&& addresses[0].body.contains(
                    (
                        "comment"@,
                        "wiremesh:"@ + uuid_text(state.gateway_id) + ":compatibility-address"@,
                    ),
                )
            }
            &&& crate::router_plan::stage_plan(RouterStage::Firewall, state) == firewall_plan(state)
        }),
        cleared(RouterStage::RemovePeers) == seq!["interface/wireguard/peers"@],
        cleared(RouterStage::Routes) == seq!["ip/route"@],
        cleared(RouterStage::Address) == seq!["ip/address"@],
        cleared(RouterStage::Firewall) == seq![
            "ip/firewall/filter"@,
            "ip/firewall/address-list"@,
        ],
        cleared(RouterStage::Interface).len() == 0,
        cleared(RouterStage::AddPeers).len() == 0,
{
    if state.compatibility_address is Some {
        let body = crate::router_plan::stage_plan(RouterStage::Address, state)[0].body;
        assert(body.contains(body[0]) && body.contains(body[1]) && body.contains(body[2]));
    }
}

/// A record says who did what to what, and how it ended.
pub proof fn law_records_say_who_did_what(
    entry: AuditEntry,
    actor: Uuid,
    action: Seq<char>,
    object_kind: Seq<char>,
    object_id: Option<Uuid>,
)
    requires
        entry.by_user(actor, action, object_kind, object_id),
    ensures
        entry.actor_user_id == Some(actor),
        entry.actor_kind@ == "user"@,
        entry.action@ == action,
        entry.object_kind@ == object_kind,
        entry.object_id == object_id,
        entry.outcome@ == "success"@,
{
}

/// Between one and 500 records are told at a time, as many as were asked for where that is allowed.
pub proof fn law_records_are_told_in_portions(limit: u32)
    ensures
        1 <= audit_limit_of(limit) <= 500,
        1 <= limit <= 500 ==> audit_limit_of(limit) == limit,
        limit > 500 ==> audit_limit_of(limit) == 500,
{
}

/// An agent has a name of at most 128 bytes.
pub proof fn law_agents_have_names(request: CreateAgentRequest)
    ensures
        create_agent_fault(request) is None <==> trimmed(request.name@).len() > 0 && byte_count(
            trimmed(request.name@),
        ) <= 128,
{
}

} // verus!
