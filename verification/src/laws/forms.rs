//! What the forms of profiles hold.

use vstd::prelude::*;

use crate::config::{
    address_texts, dns_line, interface_section, listed_order, network_texts, number_line,
    options_json, peer_json, peer_section, peer_sections, profile_json, ClientConfigModel,
    ClientPeer, ClientPeerView, OptionsView,
};
use crate::ids::{uuid_text, Uuid};
use crate::ipv4::{address_text, Ipv4Addr, Ipv4Net};
use crate::json::{all_quoted, json_array, json_opt_number, json_quoted};
use crate::laws::plans::lemma_end_occurs;
use crate::sort::lemma_stable_sorted;
use crate::text::{decimal, joined, lowercased, occurs_in, one_line, text_no_later};

verus! {

/// The stored form of a profile holds all that the profile does.
pub proof fn law_stored_profiles_hold_everything(
    device_id: Uuid,
    device_name: Seq<char>,
    revision: Seq<char>,
    address: Ipv4Addr,
    options: OptionsView,
    peers: Seq<ClientPeerView>,
)
    ensures
        ({
            let text = profile_json(device_id, device_name, revision, address, options, peers);
            &&& occurs_in(json_quoted(uuid_text(device_id)), text)
            &&& occurs_in(json_quoted(device_name), text)
            &&& occurs_in(revision, text)
            &&& occurs_in(json_quoted(address_text(address)), text)
            &&& occurs_in(options_json(options), text)
            &&& occurs_in(json_array(peers.map_values(|p: ClientPeerView| peer_json(p))), text)
        }),
{
    let listed = peers.map_values(|p: ClientPeerView| peer_json(p));
    let s0 = "{\"device_id\":"@;
    let s1 = s0 + json_quoted(uuid_text(device_id));
    lemma_end_occurs(s0, json_quoted(uuid_text(device_id)));
    let s2 = s1 + ",\"device_name\":"@;
    lemma_end_occurs(s1, ",\"device_name\":"@);
    let s3 = s2 + json_quoted(device_name);
    lemma_end_occurs(s2, json_quoted(device_name));
    let s4 = s3 + ",\"revision\":"@;
    lemma_end_occurs(s3, ",\"revision\":"@);
    let s5 = s4 + revision;
    lemma_end_occurs(s4, revision);
    let s6 = s5 + ",\"address\":"@;
    lemma_end_occurs(s5, ",\"address\":"@);
    let s7 = s6 + json_quoted(address_text(address));
    lemma_end_occurs(s6, json_quoted(address_text(address)));
    let s8 = s7 + ",\"options\":"@;
    lemma_end_occurs(s7, ",\"options\":"@);
    let s9 = s8 + options_json(options);
    lemma_end_occurs(s8, options_json(options));
    let s10 = s9 + ",\"peers\":"@;
    lemma_end_occurs(s9, ",\"peers\":"@);
    let s11 = s10 + json_array(listed);
    lemma_end_occurs(s10, json_array(listed));
    let s12 = s11 + "}"@;
    lemma_end_occurs(s11, "}"@);
}

/// The stored form of a site in a profile holds its name, its key, where its gateway is, and all of
/// its networks.
pub proof fn law_stored_sites_hold_everything(peer: ClientPeerView)
    ensures
        ({
            let text = peer_json(peer);
            let nets = peer.allowed_ips.map_values(|n: Ipv4Net| n.text());
            &&& occurs_in(json_quoted(uuid_text(peer.site_id)), text)
            &&& occurs_in(json_quoted(peer.site_name), text)
            &&& occurs_in(json_quoted(peer.public_key), text)
            &&& occurs_in(json_quoted(peer.endpoint), text)
            &&& occurs_in(json_array(all_quoted(nets)), text)
        }),
{
    let nets = peer.allowed_ips.map_values(|n: Ipv4Net| n.text());
    assert(nets =~= network_texts(peer.allowed_ips));
    let s0 = "{\"site_id\":"@;
    let s1 = s0 + json_quoted(uuid_text(peer.site_id));
    lemma_end_occurs(s0, json_quoted(uuid_text(peer.site_id)));
    let s2 = s1 + ",\"site_name\":"@;
    lemma_end_occurs(s1, ",\"site_name\":"@);
    let s3 = s2 + json_quoted(peer.site_name);
    lemma_end_occurs(s2, json_quoted(peer.site_name));
    let s4 = s3 + ",\"public_key\":"@;
    lemma_end_occurs(s3, ",\"public_key\":"@);
    let s5 = s4 + json_quoted(peer.public_key);
    lemma_end_occurs(s4, json_quoted(peer.public_key));
    let s6 = s5 + ",\"endpoint\":"@;
    lemma_end_occurs(s5, ",\"endpoint\":"@);
    let s7 = s6 + json_quoted(peer.endpoint);
    lemma_end_occurs(s6, json_quoted(peer.endpoint));
    let s8 = s7 + ",\"allowed_ips\":"@;
    lemma_end_occurs(s7, ",\"allowed_ips\":"@);
    let s9 = s8 + json_array(all_quoted(nets));
    lemma_end_occurs(s8, json_array(all_quoted(nets)));
    let s10 = s9 + "}"@;
    lemma_end_occurs(s9, "}"@);
}

/// The stored form of options holds the servers of names, the domains that are searched, the size of
/// packets and how connections are kept alive.
pub proof fn law_stored_options_hold_everything(options: OptionsView)
    ensures
        ({
            let text = options_json(options);
            let servers = options.dns_servers.map_values(|a: Ipv4Addr| address_text(a));
            &&& occurs_in(json_array(all_quoted(servers)), text)
            &&& occurs_in(json_array(all_quoted(options.search_domains)), text)
            &&& occurs_in(
                (match options.mtu {
                    Some(n) => decimal(n as nat),
                    None => "null"@,
                }) + ",\"persistent_keepalive\":"@ + (match options.persistent_keepalive {
                    Some(n) => decimal(n as nat),
                    None => "null"@,
                }) + "}"@,
                text,
            )
        }),
{
    let servers = options.dns_servers.map_values(|a: Ipv4Addr| address_text(a));
    assert(servers =~= address_texts(options.dns_servers));
    let s0 = "{\"dns_servers\":"@;
    let s1 = s0 + json_array(all_quoted(servers));
    lemma_end_occurs(s0, json_array(all_quoted(servers)));
    let s2 = s1 + ",\"search_domains\":"@;
    lemma_end_occurs(s1, ",\"search_domains\":"@);
    let s3 = s2 + json_array(all_quoted(options.search_domains));
    lemma_end_occurs(s2, json_array(all_quoted(options.search_domains)));
    let s4 = s3 + ",\"mtu\":"@;
    lemma_end_occurs(s3, ",\"mtu\":"@);
    let s5 = s4 + json_opt_number(options.mtu);
    lemma_end_occurs(s4, json_opt_number(options.mtu));
    let s6 = s5 + ",\"persistent_keepalive\":"@;
    lemma_end_occurs(s5, ",\"persistent_keepalive\":"@);
    let s7 = s6 + json_opt_number(options.persistent_keepalive);
    lemma_end_occurs(s6, json_opt_number(options.persistent_keepalive));
    let s8 = s7 + "}"@;
    lemma_end_occurs(s7, "}"@);
    let part = json_opt_number(options.mtu) + ",\"persistent_keepalive\":"@ + json_opt_number(
        options.persistent_keepalive,
    ) + "}"@;
    assert(s8 =~= s4 + part);
    lemma_end_occurs(s4, part);
}

/// Changes of a profile are noticed by all that it holds but its revision, and all of it is stored.
pub proof fn law_profiles_are_noticed_whatever_their_revision(model: ClientConfigModel)
    ensures
        model.semantic_text() == profile_json(
            model.device_id,
            model.device_name@,
            "0"@,
            model.address,
            model.options@,
            model.peers@.map_values(|p: ClientPeer| p@),
        ),
        model.stored_text() == profile_json(
            model.device_id,
            model.device_name@,
            decimal(model.revision as nat),
            model.address,
            model.options@,
            model.peers@.map_values(|p: ClientPeer| p@),
        ),
{
}

/// A profile names the servers of names and the domains to search where there are any, and the size
/// of packets where one is set; otherwise it does not speak of them.
pub proof fn law_options_are_rendered(model: ClientConfigModel, private_key: Option<Seq<char>>)
    ensures
        ({
            let options = model.options@;
            let names = options.dns_servers.map_values(|a: Ipv4Addr| address_text(a))
                + options.search_domains.map_values(|s: Seq<char>| one_line(s));
            &&& options.dns_servers.len() + options.search_domains.len() > 0 ==> occurs_in(
                "DNS = "@ + joined(names, ", "@) + "\n"@,
                model.rendered(private_key),
            )
            &&& options.mtu is Some ==> occurs_in(
                "MTU = "@ + decimal(options.mtu->0 as nat) + "\n"@,
                model.rendered(private_key),
            )
            &&& options.dns_servers.len() + options.search_domains.len() == 0 ==> dns_line(
                options,
            ).len() == 0
            &&& number_line("MTU = "@, None).len() == 0
        }),
{
    let options = model.options@;
    let key = match private_key {
        Some(key) => one_line(key),
        None => crate::config::PRIVATE_KEY_PLACEHOLDER@,
    };
    let names = options.dns_servers.map_values(|a: Ipv4Addr| address_text(a))
        + options.search_domains.map_values(|s: Seq<char>| one_line(s));
    assert(names =~= address_texts(options.dns_servers) + crate::config::one_lines(
        options.search_domains,
    ));
    let head = interface_section(key, model.address, options);
    let before = "[Interface]\n"@ + "PrivateKey = "@ + key + "\n"@ + "Address = "@ + address_text(
        model.address,
    ) + "/32\n"@;
    let dns = dns_line(options);
    let size = number_line("MTU = "@, options.mtu);
    assert(head == before + dns + size);
    lemma_end_occurs(before, dns);
    lemma_end_occurs(before + dns, size);
    let sections = peer_sections(listed_order(model.peers@), model.options.persistent_keepalive);
    lemma_end_occurs(head, sections);
}

/// Every block of a site ends with how the connection is kept alive, where that is set.
pub proof fn law_connections_are_kept_alive(peer: ClientPeerView, keepalive: Option<u16>)
    ensures
        keepalive is Some ==> crate::lines::is_suffix(
            "\n"@ + ("PersistentKeepalive = "@ + decimal(keepalive->0 as nat) + "\n"@),
            peer_section(peer, keepalive),
        ),
        keepalive is Some ==> peer_section(peer, keepalive) == peer_section(peer, None) + (
        "PersistentKeepalive = "@ + decimal(keepalive->0 as nat) + "\n"@),
{
    if keepalive is Some {
        let line = "PersistentKeepalive = "@ + decimal(keepalive->0 as nat) + "\n"@;
        let text = peer_section(peer, keepalive);
        let short = peer_section(peer, None);
        reveal_strlit("\n");
        assert(number_line("PersistentKeepalive = "@, None).len() == 0);
        assert(text =~= short + line);
        assert(short.last() == '\n');
        let end = "\n"@ + line;
        assert(text.skip(text.len() - end.len()) =~= end);
    }
}

/// The blocks of a profile follow each other, one for each site in turn.
pub proof fn law_sites_are_rendered_in_turn(
    peers: Seq<&ClientPeer>,
    peer: &ClientPeer,
    keepalive: Option<u16>,
)
    ensures
        peer_sections(Seq::<&ClientPeer>::empty(), keepalive).len() == 0,
        peer_sections(peers.push(peer), keepalive) == peer_sections(peers, keepalive)
            + peer_section(peer@, keepalive),
{
    assert(peers.push(peer).drop_last() =~= peers);
}

/// The sites of a profile are listed by their names, without regard to capitals, and those of one
/// name by their identifiers; each of them is, and no other.
pub proof fn law_sites_are_listed_by_name(peers: Seq<ClientPeer>, i: int, j: int)
    requires
        0 <= i < j < peers.len(),
    ensures
        ({
            let order = listed_order(peers);
            let (a, b) = (lowercased(order[i].site_name@), lowercased(order[j].site_name@));
            &&& order.len() == peers.len()
            &&& a != b ==> text_no_later(a, b)
            &&& a == b ==> order[i].site_id <= order[j].site_id
        }),
{
    let all = peers.map_values(|p: ClientPeer| &p);
    lemma_stable_sorted(all);
    let order = listed_order(peers);
    broadcast use vstd::seq_lib::group_to_multiset_ensures;

    assert(order.to_multiset().len() == all.to_multiset().len());
    assert(crate::sort::Ranked::no_later(order[i], order[j]));
}

} // verus!
