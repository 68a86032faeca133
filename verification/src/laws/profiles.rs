//! What devices and their profiles promise.

use vstd::prelude::*;

use crate::config::{
    interface_section, listed_order, network_texts, number_line, peer_section, peer_sections,
    peer_views, ClientConfigModel, ClientPeer, ClientPeerView, OptionsView,
};
use crate::devices::{
    changes_since, device_limit_fault, device_request_fault, is_lowest_free, is_new_device,
    is_profile, is_refreshed, is_waiting, lease_fault, notice_template, peers_fault, profile_fault,
    profile_peers, rotate_fault, some_access_changed, stored_count, takes_note, tells_device,
    tells_status, AcknowledgePlan, ClientSiteRow, DeviceDetailRow, JobRow, NewDevice, ProfileRow,
    Refreshed, SiteStatusRow,
};
use crate::ids::{uuid_parsed, Uuid};
use crate::ipv4::{address_parsed, address_text, network_parsed, Ipv4Addr, Ipv4Net};
use crate::models::{
    AcknowledgeConfigRequest, CreateDeviceRequest, DeviceResponse, PeerProvisioningResponse,
    RotateDeviceKeyRequest, UserResponse,
};
use crate::rows::{db_addresses_fault, db_addresses_of, db_nets_fault, net_of, signed_decimal};
use crate::text::{joined, occurs_in, one_line, texts, trimmed};
use crate::time::{timestamp_in, Timestamp};

verus! {

/// Whether a peer of a profile is the way to the gateway of a site: its key, the host and the port
/// at which it is reached from outside, and the site's routes.
pub open spec fn leads_to(peer: ClientPeerView, row: ClientSiteRow) -> bool {
    &&& uuid_parsed(row.id@) == Ok::<Uuid, Seq<char>>(peer.site_id)
    &&& peer.site_name == row.name@
    &&& row.public_key is Some && peer.public_key == (row.public_key->0)@
    &&& row.public_port is Some ==> peer.endpoint == row.endpoint_host@ + ":"@ + signed_decimal(
        row.public_port->0 as int,
    )
    &&& row.public_port is None ==> row.listen_port is Some && peer.endpoint == row.endpoint_host@
        + ":"@ + signed_decimal(row.listen_port->0 as int)
    &&& peer.allowed_ips.len() == row.routes@.len()
    &&& forall|k: int|
        0 <= k < row.routes@.len() ==> network_parsed((#[trigger] row.routes@[k])@) == Some(
            (peer.allowed_ips[k].base(), peer.allowed_ips[k].bits()),
        )
}

/// Whether a site is granted to one of some groups.
pub open spec fn granted(row: ClientSiteRow, groups: Seq<Seq<char>>) -> bool {
    exists|a: int, b: int|
        0 <= a < row.grants@.len() && 0 <= b < groups.len() && (#[trigger] row.grants@[a])@
            == #[trigger] groups[b]
}

/// Whether a peer is the way to one of some sites that is granted to one of some groups.
pub open spec fn leads_to_granted(
    peer: ClientPeerView,
    rows: Seq<ClientSiteRow>,
    groups: Seq<Seq<char>>,
) -> bool {
    exists|i: int|
        0 <= i < rows.len() && granted(#[trigger] rows[i], groups) && leads_to(peer, rows[i])
}

proof fn lemma_granted(row: ClientSiteRow, groups: Seq<Seq<char>>)
    ensures
        crate::desired::in_common(texts(row.grants@), groups) == granted(row, groups),
{
    let grants = texts(row.grants@);
    if crate::desired::in_common(grants, groups) {
        let a = choose|a: int| 0 <= a < grants.len() && groups.contains(#[trigger] grants[a]);
        let b = choose|b: int| 0 <= b < groups.len() && groups[b] == grants[a];
        assert(row.grants@[a]@ == groups[b]);
    }
    if granted(row, groups) {
        let (a, b) = choose|a: int, b: int|
            0 <= a < row.grants@.len() && 0 <= b < groups.len() && (#[trigger] row.grants@[a])@
                == #[trigger] groups[b];
        assert(grants[a] == groups[b]);
        assert(groups.contains(grants[a]));
    }
}

proof fn lemma_leads_to(row: ClientSiteRow)
    requires
        row.fault() is None,
        row.public_key is Some,
        row.peer() is Some,
    ensures
        leads_to(row.peer()->0, row),
{
    broadcast use Ipv4Net::lemma_of;

    let routes = texts(row.routes@);
    assert forall|k: int| 0 <= k < row.routes@.len() implies network_parsed(
        (#[trigger] row.routes@[k])@,
    ) == Some((row.peer()->0.allowed_ips[k].base(), row.peer()->0.allowed_ips[k].bits())) by {
        lemma_nets_are_read(routes, "site route"@, k);
        assert(routes[k] == row.routes@[k]@);
        assert(row.peer()->0.allowed_ips[k] == net_of(routes[k]));
    }
}

proof fn lemma_nets_are_read(values: Seq<Seq<char>>, field: Seq<char>, i: int)
    requires
        db_nets_fault(values, field) is None,
        0 <= i < values.len(),
    ensures
        network_parsed(values[i]) is Some,
    decreases values.len(),
{
    if i < values.len() - 1 {
        assert(values.drop_last()[i] == values[i]);
        lemma_nets_are_read(values.drop_last(), field, i);
    }
}

proof fn lemma_site_is_read(rows: Seq<ClientSiteRow>, groups: Seq<Seq<char>>, i: int)
    requires
        profile_fault(rows, groups) is None,
        0 <= i < rows.len(),
        rows[i].in_profiles(groups),
    ensures
        rows[i].fault() is None,
    decreases rows.len(),
{
    if i < rows.len() - 1 {
        assert(rows.drop_last()[i] == rows[i]);
        lemma_site_is_read(rows.drop_last(), groups, i);
    }
}

proof fn lemma_profile_peers(rows: Seq<ClientSiteRow>, groups: Seq<Seq<char>>)
    ensures
        forall|k: int|
            0 <= k < profile_peers(rows, groups).len() ==> exists|i: int|
                0 <= i < rows.len() && (#[trigger] rows[i]).in_profiles(groups) && rows[i].peer()
                    == Some(#[trigger] profile_peers(rows, groups)[k]),
        forall|i: int|
            0 <= i < rows.len() && (#[trigger] rows[i]).in_profiles(groups) && rows[i].peer() is Some
                ==> profile_peers(rows, groups).contains(rows[i].peer()->0),
    decreases rows.len(),
{
    if rows.len() > 0 {
        let less = rows.drop_last();
        let before = profile_peers(less, groups);
        let all = profile_peers(rows, groups);
        lemma_profile_peers(less, groups);
        let last = rows.last();
        assert(rows[rows.len() - 1] == last);
        assert forall|k: int| 0 <= k < all.len() implies exists|i: int|
            0 <= i < rows.len() && (#[trigger] rows[i]).in_profiles(groups) && rows[i].peer()
                == Some(#[trigger] all[k]) by {
            if k < before.len() {
                assert(all[k] == before[k]);
                let i = choose|i: int|
                    0 <= i < less.len() && (#[trigger] less[i]).in_profiles(groups)
                        && less[i].peer() == Some(before[k]);
                assert(rows[i] == less[i]);
            } else {
                assert(rows[rows.len() - 1].in_profiles(groups));
            }
        }
        assert forall|i: int|
            0 <= i < rows.len() && (#[trigger] rows[i]).in_profiles(groups)
                && rows[i].peer() is Some implies all.contains(rows[i].peer()->0) by {
            if i < less.len() {
                assert(less[i] == rows[i]);
                assert(before.contains(less[i].peer()->0));
                let k = choose|k: int| 0 <= k < before.len() && before[k] == less[i].peer()->0;
                assert(all[k] == before[k]);
            } else {
                assert(all[all.len() - 1] == last.peer()->0);
            }
        }
    }
}

/// A profile leads to the sites that are granted to a group of the user and whose gateways have a
/// key and a port, and to no other site. It has the device's name and address and the
/// installation's options.
pub proof fn law_profiles_lead_to_the_granted_sites(
    m: ClientConfigModel,
    device_id: Uuid,
    device_name: Seq<char>,
    address: Ipv4Addr,
    revision: u64,
    options: OptionsView,
    rows: Seq<ClientSiteRow>,
    groups: Seq<Seq<char>>,
)
    requires
        profile_fault(rows, groups) is None,
        is_profile(m, device_id, device_name, address, revision, options, rows, groups),
    ensures
        m.device_id == device_id,
        m.device_name@ == device_name,
        m.address == address,
        m.revision == revision,
        m.options@ == options,
        forall|k: int|
            0 <= k < m.peers@.len() ==> leads_to_granted((#[trigger] m.peers@[k])@, rows, groups),
        forall|i: int|
            0 <= i < rows.len() && granted(#[trigger] rows[i], groups) && rows[i].public_key is Some
                && (rows[i].public_port is Some || rows[i].listen_port is Some) ==> exists|k: int|
                0 <= k < m.peers@.len() && leads_to((#[trigger] m.peers@[k])@, rows[i]),
{
    let peers = peer_views(m.peers@);
    lemma_profile_peers(rows, groups);
    assert forall|k: int| 0 <= k < m.peers@.len() implies leads_to_granted(
        (#[trigger] m.peers@[k])@,
        rows,
        groups,
    ) by {
        assert(peers[k] == m.peers@[k]@);
        let i = choose|i: int|
            0 <= i < rows.len() && (#[trigger] rows[i]).in_profiles(groups) && rows[i].peer()
                == Some(profile_peers(rows, groups)[k]);
        lemma_granted(rows[i], groups);
        lemma_site_is_read(rows, groups, i);
        lemma_leads_to(rows[i]);
    }
    assert forall|i: int|
        0 <= i < rows.len() && granted(#[trigger] rows[i], groups) && rows[i].public_key is Some && (
        rows[i].public_port is Some || rows[i].listen_port is Some) implies exists|k: int|
        0 <= k < m.peers@.len() && leads_to((#[trigger] m.peers@[k])@, rows[i]) by {
        lemma_granted(rows[i], groups);
        assert(rows[i].in_profiles(groups));
        assert(rows[i].peer() is Some);
        lemma_site_is_read(rows, groups, i);
        lemma_leads_to(rows[i]);
        assert(peers.contains(rows[i].peer()->0));
        let k = choose|k: int| 0 <= k < peers.len() && peers[k] == rows[i].peer()->0;
        assert(m.peers@[k]@ == peers[k]);
    }
}

/// A device gets the lowest address of the pool that no lease holds: behind the network's own
/// address and the one that is kept for the gateway, and before the last.
pub proof fn law_devices_get_the_lowest_free_address(
    pool: Ipv4Net,
    leases: Seq<Seq<char>>,
    address: Ipv4Addr,
    lower: Ipv4Addr,
)
    requires
        lease_fault(pool, leases) is None,
        is_lowest_free(pool, db_addresses_of(leases), address),
    ensures
        pool.first() + 2 <= address < pool.last(),
        forall|i: int| 0 <= i < leases.len() ==> address_parsed(#[trigger] leases[i]) != Some(address),
        pool.first() + 2 <= lower < address ==> exists|i: int|
            0 <= i < leases.len() && address_parsed(#[trigger] leases[i]) == Some(lower),
{
    let taken = db_addresses_of(leases);
    assert forall|i: int| 0 <= i < leases.len() implies address_parsed(#[trigger] leases[i]) != Some(
        address,
    ) && address_parsed(leases[i]) == Some(taken[i]) by {
        lemma_leases_are_read(leases, i);
        assert(taken.contains(taken[i]));
    }
    if pool.first() + 2 <= lower < address {
        assert((crate::network::ClientPool { cidr: pool }).allocatable(lower));
        assert(taken.contains(lower));
        let i = choose|i: int| 0 <= i < taken.len() && taken[i] == lower;
        assert(address_parsed(leases[i]) == Some(lower));
    }
}

proof fn lemma_leases_are_read(values: Seq<Seq<char>>, i: int)
    requires
        db_addresses_fault(values, "lease"@) is None,
        0 <= i < values.len(),
    ensures
        address_parsed(values[i]) is Some,
    decreases values.len(),
{
    if i < values.len() - 1 {
        assert(values.drop_last()[i] == values[i]);
        lemma_leases_are_read(values.drop_last(), i);
    }
}

/// A user can have another device if and only if the user is not disabled and has fewer than the
/// limit.
pub proof fn law_device_limits_hold(user: UserResponse, count: i64)
    ensures
        device_limit_fault(user, count) is None <==> !user.disabled && count < user.device_limit,
{
}

/// A device needs a key of 32 bytes and a name; its key is replaced only while it is active.
pub proof fn law_devices_need_a_key_and_a_name(
    request: CreateDeviceRequest,
    rotation: RotateDeviceKeyRequest,
    device: DeviceResponse,
)
    ensures
        device_request_fault(request) is None <==> crate::config::is_public_key(
            request.public_key@,
        ) && trimmed(request.name@).len() > 0,
        rotate_fault(rotation, device) is None <==> crate::config::is_public_key(
            rotation.public_key@,
        ) && device.status@ == "active"@,
{
}

/// A device is outdated exactly while its user has not taken note of its present profile.
pub proof fn law_devices_are_told_as_they_are(r: DeviceResponse, id: Uuid, d: DeviceDetailRow)
    requires
        tells_device(r, id, d),
    ensures
        r.id == id,
        uuid_parsed(d.user_id@) == Ok::<Uuid, Seq<char>>(r.user_id),
        address_parsed(d.vpn_address@) == Some(r.vpn_address),
        r.public_key@ == d.public_key@,
        r.status@ == d.status@,
        0 <= d.config_revision ==> r.config_revision == d.config_revision,
        0 <= d.config_revision && 0 <= d.acknowledged_revision ==> (r.outdated
            <==> d.acknowledged_revision != d.config_revision),
{
}

/// The way to a site is ready only if its gateway reports no error, has got as far as it was asked
/// to, was seen lately, and has a key and a port; an error is told where there is one.
pub proof fn law_sites_are_ready_when_their_gateways_are(
    p: PeerProvisioningResponse,
    row: SiteStatusRow,
    now: Timestamp,
)
    requires
        tells_status(p, row, now),
    ensures
        p.state@ == "ready"@ <==> {
            &&& row.status@ != "error"@
            &&& row.last_error is None
            &&& row.applied_revision >= row.desired_revision
            &&& row.has_public_key
            &&& row.has_port
            &&& row.last_seen_at is Some
            &&& timestamp_in(row.last_seen_at->0@) is Some
            &&& ({
                let seen = timestamp_in(row.last_seen_at->0@)->0;
                now.secs - seen.secs < 45 || now.secs - seen.secs == 45 && now.nanos < seen.nanos
            })
        },
        p.state@ == "error"@ <==> row.status@ == "error"@ || row.last_error is Some,
        p.state@ == "ready"@ || p.state@ == "pending"@ || p.state@ == "error"@,
        p.error is Some ==> row.last_error is Some && p.error->0@ == row.last_error->0@,
        row.last_error is Some ==> p.error is Some,
{
    reveal_strlit("ready");
    reveal_strlit("error");
    reveal_strlit("pending");
    assert("ready"@[0] == 'r' && "error"@[0] == 'e' && "pending"@[0] == 'p');
}

/// A profile that is stored anew is one revision on and differs from the one before in what it
/// says; its user is told of another access if and only if a site came or went.
pub proof fn law_refreshed_profiles_are_one_revision_on(
    row: ProfileRow,
    profile: crate::devices::NewProfile,
    access_changed: bool,
    options: OptionsView,
    rows: Seq<ClientSiteRow>,
    groups: Seq<Seq<char>>,
)
    requires
        0 <= row.config_revision,
        is_refreshed(
            (Refreshed::Stored { profile, access_changed }),
            row,
            options,
            rows,
            groups,
        ),
    ensures
        profile.model.revision == row.config_revision + 1,
        uuid_parsed(row.id@) == Ok::<Uuid, Seq<char>>(profile.model.device_id),
        address_parsed(row.vpn_address@) == Some(profile.model.address),
        profile.model.device_name@ == row.name@,
        profile.fingerprint@ != row.fingerprint@,
        row.model matches Ok(current) && (access_changed <==> exists|i: int|
            0 <= i < current.changes_to(profile.model).len() && ((#[trigger] current.changes_to(
                profile.model,
            )[i]).kind == crate::config::ConfigChangeKind::PeerAdded || current.changes_to(
                profile.model,
            )[i].kind == crate::config::ConfigChangeKind::PeerRemoved)),
{
}

/// A message waits for somebody if one of its sort is to be sent to them or is being sent.
pub proof fn law_messages_are_not_doubled(
    jobs: Seq<JobRow>,
    recipient: Seq<char>,
    template: Seq<char>,
)
    ensures
        is_waiting(jobs, recipient, template) <==> exists|i: int|
            0 <= i < jobs.len() && (#[trigger] jobs[i]).recipient@ == recipient
                && jobs[i].template@ == template && (jobs[i].status@ == "pending"@
                || jobs[i].status@ == "sending"@),
{
    if exists|i: int|
        0 <= i < jobs.len() && (#[trigger] jobs[i]).recipient@ == recipient && jobs[i].template@
            == template && (jobs[i].status@ == "pending"@ || jobs[i].status@ == "sending"@) {
        let i = choose|i: int|
            0 <= i < jobs.len() && (#[trigger] jobs[i]).recipient@ == recipient
                && jobs[i].template@ == template && (jobs[i].status@ == "pending"@
                || jobs[i].status@ == "sending"@);
        assert(jobs[i].waits(recipient, template));
    }
}

/// The block of a profile that leads to a site.
spec fn block(peer: ClientPeerView) -> Seq<char> {
    "\n[Peer]\n# "@ + one_line(peer.site_name) + "\nPublicKey = "@ + one_line(peer.public_key)
        + "\nEndpoint = "@ + one_line(peer.endpoint) + "\nAllowedIPs = "@ + joined(
        peer.allowed_ips.map_values(|n: Ipv4Net| n.text()),
        ", "@,
    ) + "\n"@
}

proof fn lemma_block(peer: ClientPeerView, keepalive: Option<u16>)
    ensures
        peer_section(peer, keepalive) == block(peer) + number_line(
            "PersistentKeepalive = "@,
            keepalive,
        ),
{
    reveal_strlit("\n[Peer]\n");
    reveal_strlit("# ");
    reveal_strlit("\n[Peer]\n# ");
    reveal_strlit("\n");
    reveal_strlit("PublicKey = ");
    reveal_strlit("\nPublicKey = ");
    reveal_strlit("Endpoint = ");
    reveal_strlit("\nEndpoint = ");
    reveal_strlit("AllowedIPs = ");
    reveal_strlit("\nAllowedIPs = ");
    assert("\n[Peer]\n# "@ =~= "\n[Peer]\n"@ + "# "@);
    assert("\nPublicKey = "@ =~= "\n"@ + "PublicKey = "@);
    assert("\nEndpoint = "@ =~= "\n"@ + "Endpoint = "@);
    assert("\nAllowedIPs = "@ =~= "\n"@ + "AllowedIPs = "@);
    assert(network_texts(peer.allowed_ips) =~= peer.allowed_ips.map_values(
        |n: Ipv4Net| n.text(),
    ));
    assert(peer_section(peer, keepalive) =~= block(peer) + number_line(
        "PersistentKeepalive = "@,
        keepalive,
    ));
}

proof fn lemma_sections_have_blocks(peers: Seq<&ClientPeer>, keepalive: Option<u16>, i: int)
    requires
        0 <= i < peers.len(),
    ensures
        occurs_in(block(peers[i]@), peer_sections(peers, keepalive)),
    decreases peers.len(),
{
    let less = peers.drop_last();
    let before = peer_sections(less, keepalive);
    let all = peer_sections(peers, keepalive);
    let part = block(peers[i]@);
    if i < less.len() {
        lemma_sections_have_blocks(less, keepalive, i);
        let k = choose|k: int|
            0 <= k && k + part.len() <= before.len() && #[trigger] before.subrange(
                k,
                k + part.len(),
            ) == part;
        assert(all.subrange(k, k + part.len()) =~= part);
    } else {
        lemma_block(peers[i]@, keepalive);
        let k = before.len() as int;
        assert(all.subrange(k, k + part.len()) =~= part);
    }
}

/// A profile has the private key, or a word in its place, the device's address, and a block for
/// every site with the site's name, key, endpoint and all of its networks.
pub proof fn law_profiles_are_rendered_whole(
    model: ClientConfigModel,
    private_key: Option<Seq<char>>,
    i: int,
)
    requires
        0 <= i < model.peers@.len(),
    ensures
        occurs_in(
            "[Interface]\nPrivateKey = "@ + (match private_key {
                Some(key) => one_line(key),
                None => "<CLIENT_PRIVATE_KEY>"@,
            }) + "\nAddress = "@ + address_text(model.address) + "/32\n"@,
            model.rendered(private_key),
        ),
        occurs_in(
            "\n[Peer]\n# "@ + one_line(model.peers@[i].site_name@) + "\nPublicKey = "@ + one_line(
                model.peers@[i].public_key@,
            ) + "\nEndpoint = "@ + one_line(model.peers@[i].endpoint@) + "\nAllowedIPs = "@ + joined(
                model.peers@[i].allowed_ips@.map_values(|n: Ipv4Net| n.text()),
                ", "@,
            ) + "\n"@,
            model.rendered(private_key),
        ),
{
    let text = model.rendered(private_key);
    let peers = model.peers@.map_values(|p: ClientPeer| &p);
    let order = listed_order(model.peers@);
    let keepalive = model.options.persistent_keepalive;
    let key = match private_key {
        Some(key) => one_line(key),
        None => "<CLIENT_PRIVATE_KEY>"@,
    };
    let head = interface_section(key, model.address, model.options@);
    let sections = peer_sections(order, keepalive);
    reveal_strlit("[Interface]\n");
    reveal_strlit("PrivateKey = ");
    reveal_strlit("[Interface]\nPrivateKey = ");
    reveal_strlit("\n");
    reveal_strlit("Address = ");
    reveal_strlit("\nAddress = ");
    assert("[Interface]\nPrivateKey = "@ =~= "[Interface]\n"@ + "PrivateKey = "@);
    assert("\nAddress = "@ =~= "\n"@ + "Address = "@);
    let start = "[Interface]\nPrivateKey = "@ + key + "\nAddress = "@ + address_text(model.address)
        + "/32\n"@;
    assert(text == head + sections);
    assert(text.subrange(0int, 0int + start.len()) =~= start);
    crate::sort::lemma_stable_sorted(peers);
    broadcast use vstd::seq_lib::group_to_multiset_ensures;

    let peer = &model.peers@[i];
    assert(peers[i] == peer);
    assert(peers.contains(peer));
    assert(order.to_multiset().count(peer) == peers.to_multiset().count(peer));
    assert(order.contains(peer));
    let k = choose|k: int| 0 <= k < order.len() && order[k] == peer;
    lemma_sections_have_blocks(order, keepalive, k);
    let part = block(peer@);
    let n = choose|n: int|
        0 <= n && n + part.len() <= sections.len() && #[trigger] sections.subrange(
            n,
            n + part.len(),
        ) == part;
    let m = head.len() + n;
    assert(text.subrange(m, m + part.len()) =~= part);
}

/// A new device belongs to the user who asked for it, under the name and with the key that they
/// gave, and gets the lowest free address and the first revision of the profile of its groups.
pub proof fn law_new_devices_are_as_asked(
    d: NewDevice,
    request: CreateDeviceRequest,
    device_id: Uuid,
    pool: Ipv4Net,
    taken: Seq<Ipv4Addr>,
    options: OptionsView,
    rows: Seq<ClientSiteRow>,
    groups: Seq<Seq<char>>,
)
    requires
        is_new_device(d, request, device_id, pool, taken, options, rows, groups),
    ensures
        d.device_id == device_id,
        d.user_id == request.user_id,
        d.name@ == trimmed(request.name@),
        d.public_key@ == request.public_key@,
        !taken.contains(d.address),
        pool.first() < d.address < pool.last(),
        d.model.device_id == device_id,
        d.model.address == d.address,
        d.model.device_name@ == trimmed(request.name@),
        d.model.revision == 1,
        d.model.options@ == options,
        peer_views(d.model.peers@) == profile_peers(rows, groups),
        d.audit.actor_user_id == Some(request.user_id),
        d.audit.action@ == "device.create"@,
{
}

/// A profile is stored where each of its peers has a key of 32 bytes and a route.
pub proof fn law_stored_profiles_have_keys_and_routes(peers: Seq<ClientPeerView>)
    ensures
        peers_fault(peers) is None <==> forall|i: int|
            0 <= i < peers.len() ==> crate::config::is_public_key((#[trigger] peers[i]).public_key)
                && peers[i].allowed_ips.len() > 0,
    decreases peers.len(),
{
    if peers.len() > 0 {
        let less = peers.drop_last();
        law_stored_profiles_have_keys_and_routes(less);
        assert forall|i: int| 0 <= i < less.len() implies #[trigger] less[i] == peers[i] by {}
        assert(peers[peers.len() - 1] == peers.last());
        if peers_fault(peers) is None {
            assert forall|i: int| 0 <= i < peers.len() implies crate::config::is_public_key(
                (#[trigger] peers[i]).public_key,
            ) && peers[i].allowed_ips.len() > 0 by {
                if i < less.len() {
                    assert(less[i] == peers[i]);
                }
            }
        }
    }
}

/// Before its user has taken note of any profile every site of a device is new; afterwards the
/// changes are those since the profile that they took note of.
pub proof fn law_first_profiles_are_all_new(
    acknowledged_revision: u64,
    acknowledged: Option<ClientConfigModel>,
    model: ClientConfigModel,
)
    ensures
        ({
            let changes = changes_since(acknowledged_revision, acknowledged, model);
            &&& acknowledged_revision == 0 ==> changes.len() == model.peers@.len() && forall|i: int|
                0 <= i < changes.len() ==> (#[trigger] changes[i]).kind
                    == crate::config::ConfigChangeKind::PeerAdded && changes[i].site_id == Some(
                    model.peers@[i].site_id,
                )
            &&& acknowledged_revision > 0 && acknowledged is Some ==> changes
                == acknowledged->0.changes_to(model)
            &&& acknowledged_revision > 0 && acknowledged is None ==> changes.len() == 0
        }),
{
}

/// The profile that a user takes note of is the present one, and how they got it is recorded.
pub proof fn law_notes_are_taken_of_the_present_profile(
    p: AcknowledgePlan,
    device: DeviceResponse,
    request: AcknowledgeConfigRequest,
)
    requires
        takes_note(p, device, request),
    ensures
        p.revision == device.config_revision,
        p.method@ == request.method.name(),
        p.audit.actor_user_id is None,
        p.audit.action@ == "device.config_acknowledge"@,
        p.audit.object_id == Some(device.id),
{
}

/// Every profile that is stored anew counts, and users are told of another access where one of
/// them has it.
pub proof fn law_stored_profiles_count(all: Seq<Refreshed>, one: Refreshed)
    ensures
        stored_count(Seq::<Refreshed>::empty()) == 0,
        one is Stored ==> stored_count(all.push(one)) == stored_count(all) + 1,
        one is Same ==> stored_count(all.push(one)) == stored_count(all),
        some_access_changed(all.push(one)) <==> some_access_changed(all) || (one matches
            Refreshed::Stored { access_changed: true, .. }),
        !some_access_changed(Seq::<Refreshed>::empty()),
{
    let more = all.push(one);
    assert(more.drop_last() =~= all);
    if some_access_changed(all) {
        let i = choose|i: int|
            0 <= i < all.len() && (#[trigger] all[i] matches Refreshed::Stored {
                access_changed,
                ..
            } && access_changed);
        assert(more[i] == all[i]);
    }
    if some_access_changed(more) {
        let i = choose|i: int|
            0 <= i < more.len() && (#[trigger] more[i] matches Refreshed::Stored {
                access_changed,
                ..
            } && access_changed);
        if i < all.len() {
            assert(more[i] == all[i]);
        }
    }
    assert(more[all.len() as int] == one);
}

/// A message about a site that came or went says so; one about other changes does not.
pub proof fn law_notices_tell_what_changed(access_changed: bool)
    ensures
        notice_template(access_changed) == "access_change"@ <==> access_changed,
        notice_template(access_changed) == "profile_change"@ <==> !access_changed,
{
    reveal_strlit("access_change");
    reveal_strlit("profile_change");
    assert("access_change"@.len() == 13 && "profile_change"@.len() == 14);
}
} // verus!
