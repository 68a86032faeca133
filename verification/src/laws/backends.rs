//! What the backends of gateways promise besides their packet filters.

use vstd::prelude::*;

use crate::acl::IpProtocol;
use crate::config::is_public_key;
use crate::ids::{uuid_text, Uuid};
use crate::ipv4::{address_text, Ipv4Addr};
use crate::json::string_member_of;
use crate::lines::{fields_of, first_word_of, is_suffix, lines_of, utf8_lossy};
use crate::linux::{
    is_interface_char, peer_problem, peers_problem, state_problem, wireguard_sections, CommandView,
};
use crate::linux_plan::{plain, route_plan, stale_routes, tunnel_plan, wanted_routes};
use crate::mikrotik::{
    interface_members, is_supported_version, leading_numbers, peer_record, route_record,
    router_problem,
};
use crate::router::{comes_from, credential_problem, record_ids, selected, selects, RecordFilter};
use crate::sort::{lemma_stable_sorted, lemma_without_repeats, stable_sorted, without_repeats};
use crate::state::{PeerView, StateView};
use crate::text::{before, decimal, is_digit, leading_number, lemma_decimal, trimmed};
use crate::urls::url_parsed;

verus! {

proof fn lemma_peers(peers: Seq<PeerView>, n: int)
    requires
        0 <= n <= peers.len(),
    ensures
        peers_problem(peers, n) is None <==> {
            &&& forall|i: int| 0 <= i < n ==> is_public_key((#[trigger] peers[i]).public_key)
            &&& forall|i: int, j: int|
                0 <= i < j < n ==> (#[trigger] peers[i]).allowed_address != (
                #[trigger] peers[j]).allowed_address && peers[i].public_key != peers[j].public_key
        },
    decreases n,
{
    if n > 0 {
        lemma_peers(peers, n - 1);
        if peers_problem(peers, n) is None {
            assert forall|i: int, j: int| 0 <= i < j < n implies (
            #[trigger] peers[i]).allowed_address != (#[trigger] peers[j]).allowed_address
                && peers[i].public_key != peers[j].public_key by {
                if j == n - 1 {
                    assert(peer_problem(peers, n - 1) is None);
                }
            }
        }
        if {
            &&& forall|i: int| 0 <= i < n ==> is_public_key((#[trigger] peers[i]).public_key)
            &&& forall|i: int, j: int|
                0 <= i < j < n ==> (#[trigger] peers[i]).allowed_address != (
                #[trigger] peers[j]).allowed_address && peers[i].public_key != peers[j].public_key
        } {
            assert(is_public_key(peers[n - 1].public_key));
            assert forall|k: int| 0 <= k < n - 1 implies (#[trigger] peers[k]).allowed_address
                != peers[n - 1].allowed_address && peers[k].public_key != peers[n - 1].public_key by {
                assert(peers[n - 1].allowed_address == peers[n - 1].allowed_address);
            }
        }
    }
}

/// Linux takes a state if and only if its interface has a name that Linux knows, there are a port
/// and protected routes, every device has a key of 32 bytes, no two have the same key or address,
/// and ports are restricted for TCP and UDP alone.
pub proof fn law_linux_takes_consistent_states(state: StateView)
    ensures
        state_problem(state) is None <==> {
            &&& 0 < state.interface_name.len()
            &&& crate::text::byte_count(state.interface_name) <= 15
            &&& forall|i: int|
                0 <= i < state.interface_name.len() ==> is_interface_char(
                    #[trigger] state.interface_name[i],
                )
            &&& state.listen_port > 0
            &&& state.routes.len() > 0
            &&& forall|i: int|
                0 <= i < state.peers.len() ==> is_public_key((#[trigger] state.peers[i]).public_key)
            &&& forall|i: int, j: int|
                0 <= i < j < state.peers.len() ==> (#[trigger] state.peers[i]).allowed_address != (
                #[trigger] state.peers[j]).allowed_address && state.peers[i].public_key
                    != state.peers[j].public_key
            &&& forall|i: int|
                0 <= i < state.acl_rules.len() && (
                #[trigger] state.acl_rules[i]).destination_ports is Some
                    ==> state.acl_rules[i].protocol == IpProtocol::Tcp
                    || state.acl_rules[i].protocol == IpProtocol::Udp
        },
{
    lemma_peers(state.peers, state.peers.len() as int);
}

/// A router takes a state if and only if its interface has a name, there are a port and protected
/// routes, every device has a key of 32 bytes, and ports are restricted for TCP and UDP alone.
pub proof fn law_routers_take_consistent_states(state: StateView)
    ensures
        router_problem(state) is None <==> {
            &&& 0 < state.interface_name.len()
            &&& crate::text::byte_count(state.interface_name) <= 63
            &&& state.listen_port > 0
            &&& state.routes.len() > 0
            &&& forall|i: int|
                0 <= i < state.peers.len() ==> is_public_key((#[trigger] state.peers[i]).public_key)
            &&& forall|i: int|
                0 <= i < state.acl_rules.len() && (
                #[trigger] state.acl_rules[i]).destination_ports is Some
                    ==> state.acl_rules[i].protocol == IpProtocol::Tcp
                    || state.acl_rules[i].protocol == IpProtocol::Udp
        },
{
}

/// WireGuard is told of every device in turn: its key, and its address alone.
pub proof fn law_wireguard_is_told_of_every_device(peers: Seq<PeerView>, peer: PeerView)
    ensures
        wireguard_sections(Seq::<PeerView>::empty()).len() == 0,
        wireguard_sections(peers.push(peer)) == wireguard_sections(peers) + (
        "\n[Peer]\nPublicKey = "@ + peer.public_key + "\nAllowedIPs = "@ + address_text(
            peer.allowed_address,
        ) + "/32\n"@),
{
    assert(peers.push(peer).drop_last() =~= peers);
}

/// The tunnel gets its key and port first, then the devices, then its size, and is switched on
/// last.
pub proof fn law_tunnels_are_set_up_in_order(state: StateView, key_path: Seq<char>)
    ensures
        ({
            let plan = tunnel_plan(state, key_path);
            &&& plan.len() == (if state.mtu is Some {
                4nat
            } else {
                3nat
            })
            &&& plan[0].program == "wg"@
            &&& plan[0].arguments == seq![
                "set"@,
                state.interface_name,
                "private-key"@,
                key_path,
                "listen-port"@,
                decimal(state.listen_port as nat),
            ]
            &&& plan[1].program == "wg"@
            &&& plan[1].arguments == seq!["syncconf"@, state.interface_name, "/dev/stdin"@]
            &&& plan[1].stdin == Some("[Interface]\n"@ + wireguard_sections(state.peers))
            &&& state.mtu is Some ==> plan[2].program == "ip"@ && plan[2].arguments == seq![
                "link"@,
                "set"@,
                "dev"@,
                state.interface_name,
                "mtu"@,
                decimal(state.mtu->0 as nat),
            ]
            &&& plan.last().program == "ip"@
            &&& plan.last().arguments == seq!["link"@, "set"@, "dev"@, state.interface_name, "up"@]
        }),
{
}

proof fn lemma_wanted(peers: Seq<PeerView>, cidr: Seq<char>)
    ensures
        wanted_routes(peers).contains(cidr) <==> exists|i: int|
            0 <= i < peers.len() && cidr == address_text((#[trigger] peers[i]).allowed_address)
                + "/32"@,
{
    broadcast use vstd::seq_lib::group_to_multiset_ensures;

    let hosts = peers.map_values(|p: PeerView| address_text(p.allowed_address) + "/32"@);
    let sorted = stable_sorted(hosts);
    lemma_stable_sorted(hosts);
    assert forall|a: Seq<char>, b: Seq<char>|
        crate::sort::Ranked::no_later(a, b) && crate::sort::Ranked::no_later(b, a) implies a
        == b by {
        crate::text::lemma_text_order_antisymmetric(a, b);
    }
    lemma_without_repeats(sorted);
    assert(sorted.to_multiset().count(cidr) == hosts.to_multiset().count(cidr));
    assert(without_repeats(sorted).to_set().contains(cidr) == sorted.to_set().contains(cidr));
    if hosts.contains(cidr) {
        let i = choose|i: int| 0 <= i < hosts.len() && hosts[i] == cidr;
        assert(cidr == address_text(peers[i].allowed_address) + "/32"@);
    }
    if exists|i: int|
        0 <= i < peers.len() && cidr == address_text((#[trigger] peers[i]).allowed_address)
            + "/32"@ {
        let i = choose|i: int|
            0 <= i < peers.len() && cidr == address_text((#[trigger] peers[i]).allowed_address)
                + "/32"@;
        assert(hosts[i] == cidr);
    }
}

proof fn lemma_stale(lines: Seq<Seq<char>>, wanted: Seq<Seq<char>>, cidr: Seq<char>)
    ensures
        stale_routes(lines, wanted).contains(cidr) <==> !wanted.contains(cidr) && is_suffix(
            "/32"@,
            cidr,
        ) && exists|i: int| 0 <= i < lines.len() && first_word_of(#[trigger] lines[i]) == cidr,
    decreases lines.len(),
{
    if lines.len() > 0 {
        let less = lines.drop_last();
        lemma_stale(less, wanted, cidr);
        assert(lines[lines.len() - 1] == lines.last());
        let some = stale_routes(less, wanted);
        let all = stale_routes(lines, wanted);
        if some.contains(cidr) {
            let k = choose|k: int| 0 <= k < some.len() && some[k] == cidr;
            assert(all[k] == cidr);
            let i = choose|i: int|
                0 <= i < less.len() && first_word_of(#[trigger] less[i]) == cidr;
            assert(lines[i] == less[i]);
        }
        if all.len() > some.len() {
            assert(all[some.len() as int] == first_word_of(lines.last()));
            if all.contains(cidr) && !some.contains(cidr) {
                let k = choose|k: int| 0 <= k < all.len() && all[k] == cidr;
                if k < some.len() {
                    assert(some[k] == cidr);
                }
            }
        }
        if exists|i: int| 0 <= i < lines.len() && first_word_of(#[trigger] lines[i]) == cidr {
            let i = choose|i: int|
                0 <= i < lines.len() && first_word_of(#[trigger] lines[i]) == cidr;
            if i < less.len() {
                assert(less[i] == lines[i]);
            }
        }
    }
}

/// The route to every device is set, and the routes that are listed to single addresses of which
/// no device has one are deleted; nothing else is done to routes.
pub proof fn law_routes_follow_the_devices(state: StateView, listing: Seq<u8>, cidr: Seq<char>)
    ensures
        ({
            let plan = route_plan(state, listing);
            let set_it = CommandView {
                program: "ip"@,
                arguments: seq!["-4"@, "route"@, "replace"@, cidr, "dev"@, state.interface_name],
                stdin: None,
            };
            let delete_it = CommandView {
                program: "ip"@,
                arguments: seq!["-4"@, "route"@, "delete"@, cidr, "dev"@, state.interface_name],
                stdin: None,
            };
            let is_device = exists|i: int|
                0 <= i < state.peers.len() && cidr == address_text(
                    (#[trigger] state.peers[i]).allowed_address,
                ) + "/32"@;
            let is_listed = exists|i: int|
                0 <= i < lines_of(utf8_lossy(listing)).len() && first_word_of(
                    #[trigger] lines_of(utf8_lossy(listing))[i],
                ) == cidr;
            &&& is_device ==> plan.contains(set_it)
            &&& plan.contains(set_it) ==> is_device
            &&& is_listed && !is_device && is_suffix("/32"@, cidr) ==> plan.contains(delete_it)
            &&& plan.contains(delete_it) ==> is_listed && !is_device
        }),
{
    let name = state.interface_name;
    let wanted = wanted_routes(state.peers);
    let lines = lines_of(utf8_lossy(listing));
    let stale = stale_routes(lines, wanted);
    let plan = route_plan(state, listing);
    lemma_wanted(state.peers, cidr);
    lemma_stale(lines, wanted, cidr);
    reveal_strlit("replace");
    reveal_strlit("delete");
    assert("replace"@.len() == 7 && "delete"@.len() == 6);
    let set_it = plain("ip"@, seq!["-4"@, "route"@, "replace"@, cidr, "dev"@, name]);
    let delete_it = plain("ip"@, seq!["-4"@, "route"@, "delete"@, cidr, "dev"@, name]);
    let n = stale.len() as int;
    if wanted.contains(cidr) {
        let k = choose|k: int| 0 <= k < wanted.len() && wanted[k] == cidr;
        assert(plan[n + k] == set_it);
    }
    if stale.contains(cidr) {
        let k = choose|k: int| 0 <= k < stale.len() && stale[k] == cidr;
        assert(plan[k] == delete_it);
    }
    if plan.contains(set_it) {
        let k = choose|k: int| 0 <= k < plan.len() && plan[k] == set_it;
        if k < n {
            assert(plan[k].arguments[2] == "delete"@);
            assert(set_it.arguments[2] == "replace"@);
        } else {
            assert(plan[k].arguments[3] == wanted[k - n]);
            assert(set_it.arguments[3] == cidr);
            assert(wanted.contains(wanted[k - n]));
        }
    }
    if plan.contains(delete_it) {
        let k = choose|k: int| 0 <= k < plan.len() && plan[k] == delete_it;
        if k < n {
            assert(plan[k].arguments[3] == stale[k]);
            assert(delete_it.arguments[3] == cidr);
            assert(stale.contains(stale[k]));
        } else {
            assert(plan[k].arguments[2] == "replace"@);
            assert(delete_it.arguments[2] == "delete"@);
        }
    }
}

/// A router gets a peer and a route for every device, with its key and its address alone, on the
/// gateway's interface, and marked as the gateway's own.
pub proof fn law_routers_get_every_device(state: StateView, peer: PeerView)
    ensures
        peer_record(state, peer).resource == "/interface/wireguard/peers"@,
        peer_record(state, peer).body.contains(("interface"@, state.interface_name)),
        peer_record(state, peer).body.contains(("public-key"@, peer.public_key)),
        peer_record(state, peer).body.contains(
            ("allowed-address"@, address_text(peer.allowed_address) + "/32"@),
        ),
        peer_record(state, peer).body.contains(
            (
                "comment"@,
                "wiremesh:"@ + uuid_text(state.gateway_id) + ":peer:"@ + uuid_text(peer.device_id),
            ),
        ),
        route_record(state, peer).resource == "/ip/route"@,
        route_record(state, peer).body.contains(
            ("dst-address"@, address_text(peer.allowed_address) + "/32"@),
        ),
        route_record(state, peer).body.contains(("gateway"@, state.interface_name)),
        route_record(state, peer).body.contains(
            (
                "comment"@,
                "wiremesh:"@ + uuid_text(state.gateway_id) + ":route:"@ + uuid_text(peer.device_id),
            ),
        ),
        interface_members(state).contains(("name"@, state.interface_name)),
        interface_members(state).contains(("listen-port"@, decimal(state.listen_port as nat))),
        interface_members(state).contains(("disabled"@, "false"@)),
        state.mtu is Some ==> interface_members(state).contains(
            ("mtu"@, decimal(state.mtu->0 as nat)),
        ),
{
    let p = peer_record(state, peer).body;
    assert(p.contains(p[0]) && p.contains(p[1]) && p.contains(p[2]) && p.contains(p[3]));
    let r = route_record(state, peer).body;
    assert(r.contains(r[0]) && r.contains(r[1]) && r.contains(r[2]));
    let m = interface_members(state);
    assert(m.contains(m[0]) && m.contains(m[1]) && m.contains(m[2]) && m.contains(m[4]));
}

/// Of a router's records those are chosen that are on an interface, or whose comment begins with
/// the gateway's mark, and no others.
pub proof fn law_records_are_chosen_by_interface_or_mark(
    filter: RecordFilter,
    records: Seq<Seq<char>>,
    record: Seq<char>,
)
    ensures
        filter matches RecordFilter::OnInterface(name) ==> (selects(filter, record)
            <==> string_member_of(record, "interface"@) == Some(name@)),
        filter matches RecordFilter::Managed(prefix) ==> (selects(filter, record)
            <==> string_member_of(record, "comment"@) is Some && prefix@.is_prefix_of(
            string_member_of(record, "comment"@)->0,
        )),
        selected(filter, records).contains(record) <==> records.contains(record) && selects(
            filter,
            record,
        ),
    decreases records.len(),
{
    if records.len() > 0 {
        let less = records.drop_last();
        law_records_are_chosen_by_interface_or_mark(filter, less, record);
        let some = selected(filter, less);
        let all = selected(filter, records);
        assert(records =~= less.push(records.last()));
        assert(records.contains(record) <==> less.contains(record) || record == records.last()) by {
            if less.contains(record) {
                let k = choose|k: int| 0 <= k < less.len() && less[k] == record;
                assert(records[k] == record);
            }
            assert(records[records.len() - 1] == records.last());
        }
        if some.contains(record) {
            let k = choose|k: int| 0 <= k < some.len() && some[k] == record;
            assert(all[k] == record);
        }
        if selects(filter, records.last()) {
            assert(all[some.len() as int] == records.last());
            if all.contains(record) && !some.contains(record) {
                let k = choose|k: int| 0 <= k < all.len() && all[k] == record;
                if k < some.len() {
                    assert(some[k] == record);
                }
            }
        }
    }
}

/// The identifiers of records are those that the records have.
pub proof fn law_identifiers_are_those_of_the_records(records: Seq<Seq<char>>, id: Seq<char>)
    ensures
        record_ids(records).contains(id) <==> exists|i: int|
            0 <= i < records.len() && string_member_of(#[trigger] records[i], ".id"@) == Some(id),
    decreases records.len(),
{
    if records.len() > 0 {
        let less = records.drop_last();
        law_identifiers_are_those_of_the_records(less, id);
        assert(records[records.len() - 1] == records.last());
        let some = record_ids(less);
        let all = record_ids(records);
        if some.contains(id) {
            let k = choose|k: int| 0 <= k < some.len() && some[k] == id;
            assert(all[k] == id);
            let i = choose|i: int|
                0 <= i < less.len() && string_member_of(#[trigger] less[i], ".id"@) == Some(id);
            assert(records[i] == less[i]);
        }
        if all.len() > some.len() {
            assert(all[some.len() as int] == string_member_of(records.last(), ".id"@)->0);
            if all.contains(id) && !some.contains(id) {
                let k = choose|k: int| 0 <= k < all.len() && all[k] == id;
                if k < some.len() {
                    assert(some[k] == id);
                }
            }
        }
        if exists|i: int|
            0 <= i < records.len() && string_member_of(#[trigger] records[i], ".id"@) == Some(id) {
            let i = choose|i: int|
                0 <= i < records.len() && string_member_of(#[trigger] records[i], ".id"@) == Some(
                    id,
                );
            if i < less.len() {
                assert(less[i] == records[i]);
            }
        }
    }
}

/// A connection is cut off if and only if it comes from one of the addresses that are to be cut
/// off, whatever its port.
pub proof fn law_connections_are_cut_off_by_their_sources(
    record: Seq<char>,
    sources: Seq<Ipv4Addr>,
)
    ensures
        comes_from(record, sources) <==> string_member_of(record, "src-address"@) is Some && exists|
            i: int,
        |
            0 <= i < sources.len() && address_text(#[trigger] sources[i]) == before(
                string_member_of(record, "src-address"@)->0,
                ':',
            ),
{
    if string_member_of(record, "src-address"@) is Some {
        let source = before(string_member_of(record, "src-address"@)->0, ':');
        if exists|i: int|
            0 <= i < sources.len() && address_text(#[trigger] sources[i]) == source {
            let i = choose|i: int|
                0 <= i < sources.len() && address_text(#[trigger] sources[i]) == source;
            assert(address_text(sources[i]) == source);
        }
    }
}

/// A router is reached over TLS at an address without path, query or fragment, with a user name
/// and a password, and by the agent that is for routers.
pub proof fn law_routers_are_reached_over_tls(
    gateway_id: Uuid,
    backend: Seq<char>,
    base_url: Seq<char>,
    username: Seq<char>,
    password: Seq<char>,
)
    ensures
        credential_problem(gateway_id, backend, base_url, username, password) is None <==> {
            &&& backend == "mikrotik"@
            &&& url_parsed(base_url) is Ok
            &&& url_parsed(base_url)->Ok_0.scheme == "https"@
            &&& url_parsed(base_url)->Ok_0.has_host
            &&& url_parsed(base_url)->Ok_0.path.len() == 0 || url_parsed(base_url)->Ok_0.path
                == "/"@
            &&& url_parsed(base_url)->Ok_0.query is None
            &&& url_parsed(base_url)->Ok_0.fragment is None
            &&& trimmed(username).len() > 0
            &&& password.len() > 0
        },
{
}

proof fn lemma_leading(n: nat)
    requires
        n <= u32::MAX,
    ensures
        leading_number(decimal(n)) == Some(n),
{
    let s = decimal(n);
    lemma_decimal(n);
    lemma_digit_run(s);
    assert(s.take(s.len() as int) =~= s);
}

proof fn lemma_digit_run(s: Seq<char>)
    requires
        forall|i: int| 0 <= i < s.len() ==> is_digit(#[trigger] s[i]),
    ensures
        crate::text::digit_run(s) == s.len(),
    decreases s.len(),
{
    if s.len() > 0 {
        let rest = s.drop_first();
        assert forall|i: int| 0 <= i < rest.len() implies is_digit(#[trigger] rest[i]) by {
            assert(rest[i] == s[i + 1]);
        }
        assert(is_digit(s[0]));
        lemma_digit_run(rest);
    }
}

proof fn lemma_no_blanks(s: Seq<char>)
    requires
        forall|i: int| 0 <= i < s.len() ==> !crate::text::whitespace(#[trigger] s[i]),
    ensures
        first_word_of(s) == s,
{
    assert(crate::text::trimmed_start(s) == s) by {
        if s.len() > 0 {
            assert(!crate::text::whitespace(s[0]));
        }
    }
    lemma_until(s);
}

proof fn lemma_until(s: Seq<char>)
    requires
        forall|i: int| 0 <= i < s.len() ==> !crate::text::whitespace(#[trigger] s[i]),
    ensures
        crate::lines::until_whitespace(s) == s,
    decreases s.len(),
{
    if s.len() > 0 {
        let rest = s.drop_first();
        assert forall|i: int| 0 <= i < rest.len() implies !crate::text::whitespace(
            #[trigger] rest[i],
        ) by {
            assert(rest[i] == s[i + 1]);
        }
        lemma_until(rest);
        assert(!crate::text::whitespace(s[0]));
        assert(crate::lines::until_whitespace(s) =~= s);
    }
}

/// A router of version 7.15 or a later one is supported, and one of an earlier version is not.
pub proof fn law_routers_are_supported_from_a_version_on(major: nat, minor: nat)
    requires
        major <= u32::MAX,
        minor <= u32::MAX,
    ensures
        is_supported_version(decimal(major) + seq!['.'] + decimal(minor)) <==> major > 7 || major
            == 7 && minor >= 15,
{
    let a = decimal(major);
    let b = decimal(minor);
    let s = a + seq!['.'] + b;
    lemma_decimal(major);
    lemma_decimal(minor);
    lemma_leading(major);
    lemma_leading(minor);
    assert forall|i: int| 0 <= i < s.len() implies !crate::text::whitespace(#[trigger] s[i]) by {
        if i < a.len() {
            assert(s[i] == a[i] && is_digit(a[i]));
        } else if i > a.len() {
            assert(s[i] == b[i - a.len() - 1] && is_digit(b[i - a.len() - 1]));
        }
    }
    lemma_no_blanks(s);
    assert(!a.contains('.')) by {
        assert forall|i: int| 0 <= i < a.len() implies a[i] != '.' by {
            assert(is_digit(a[i]));
        }
    }
    assert(!b.contains('.')) by {
        assert forall|i: int| 0 <= i < b.len() implies b[i] != '.' by {
            assert(is_digit(b[i]));
        }
    }
    crate::text::lemma_split_first(a, '.', b);
    crate::text::lemma_first_place(s, '.');
    crate::text::lemma_first_place(b, '.');
    assert(s[a.len() as int] == '.');
    assert(s.contains('.'));
    assert(before(s, '.') == a);
    assert(s.skip(a.len() as int + 1) =~= b);
    assert(fields_of(b, '.') =~= seq![b]);
    assert(fields_of(s, '.') =~= seq![a, b]);
    let parts = seq![a, b];
    assert(parts.drop_last() =~= seq![a]);
    assert(seq![a].drop_last() =~= Seq::<Seq<char>>::empty());
    assert(leading_numbers(Seq::<Seq<char>>::empty()) =~= Seq::<nat>::empty());
    assert(leading_numbers(seq![a]) =~= seq![major]);
    assert(leading_numbers(parts) =~= seq![major, minor]);
}

} // verus!
