//! The devices of users: their addresses, keys and profiles.

use std::collections::BTreeSet;

use vstd::prelude::*;
use vstd::string::*;

use crate::audit::{success, user_did, AuditEntry};
use crate::config::{
    change_views, is_public_key, peer_is_valid, validate_wireguard_public_key, ChangeView, ClientConfigModel,
    ClientOptions, ClientPeer, ClientPeerView, ConfigChange, ConfigChangeKind, ConfigError,
    peer_views, OptionsView,
};
use crate::crypto::text_fingerprint;
use crate::desired::{in_common, AckRow};
use crate::error::{
    checks, config_error, conflict, conflict_error, forbidden, forbidden_error, internal, internal_error, network_error,
    not_found, not_found_error, validation, validation_error, ApiError, ErrorView,
};
use crate::fingerprint::copy_addresses;
use crate::groups::copy_texts;
use crate::ids::{uuid_parsed, uuid_text, uuid_to_text, Uuid};
use crate::ipv4::{address_parsed, address_text, address_to_text, Ipv4Addr, Ipv4Net};
use crate::json::{all_quoted, append_array, json_array, json_quoted, json_string, quote_all};
use crate::lines::{contains_text, holds_text};
use crate::models::{
    AcknowledgeConfigRequest, CreateDeviceRequest, DeviceConfigResponse, DeviceResponse,
    PeerProvisioningResponse, RotateDeviceKeyRequest, UserResponse,
};
use crate::network::{address_count_of, ClientPool, NetworkError};
use crate::protocol::{id_texts, ids_to_texts};
use crate::rows::{
    db_address, db_address_fault, db_addresses, db_addresses_fault, db_addresses_of, db_id,
    db_id_fault, db_nets, db_nets_fault, db_nets_of, or_fault, unless,
};
use crate::sites::{endpoint_of, endpoint_text};
use crate::state::DesiredGatewayState;
use crate::text::{
    chars_of, copy_option, copy_text, decimal, decimal_text, occurs_in, opt_text, same_text, texts,
    trim, trimmed,
};
use crate::time::{fresh, is_fresh, Timestamp};
use crate::users::{acks_for, required_acks};

verus! {

/// What is wrong with a device to be created, by itself.
pub open spec fn device_request_fault(request: CreateDeviceRequest) -> Option<ErrorView> {
    or_fault(
        unless(
            is_public_key(request.public_key@),
            validation(ConfigError::InvalidPublicKey.text()),
        ),
        unless(trimmed(request.name@).len() > 0, validation("device name is required"@)),
    )
}

fn check_key(key: &str) -> (r: Result<(), ApiError>)
    ensures
        checks(
            r,
            unless(is_public_key(key@), validation(ConfigError::InvalidPublicKey.text())),
        ),
{
    match validate_wireguard_public_key(key) {
        Ok(_) => Ok(()),
        Err(error) => Err(config_error(&error)),
    }
}

/// Lets devices pass that can be created, by themselves.
pub fn check_device_request(request: &CreateDeviceRequest) -> (r: Result<(), ApiError>)
    ensures
        checks(r, device_request_fault(*request)),
{
    check_key(request.public_key.as_str())?;
    let name = trim(request.name.as_str());
    if chars_of(name.as_str()).len() == 0 {
        Err(validation_error("device name is required"))
    } else {
        Ok(())
    }
}

/// Why a user gets no further device.
pub open spec fn device_limit_fault(user: UserResponse, count: i64) -> Option<ErrorView> {
    if user.disabled {
        Some(forbidden("disabled users cannot create devices"@))
    } else {
        unless(count < user.device_limit, conflict("device limit reached"@))
    }
}

/// Lets users pass who may have a further device.
pub fn check_device_limit(user: &UserResponse, count: i64) -> (r: Result<(), ApiError>)
    ensures
        checks(r, device_limit_fault(*user, count)),
{
    if user.disabled {
        return Err(forbidden_error("disabled users cannot create devices"));
    }
    if count >= user.device_limit as i64 {
        return Err(conflict_error("device limit reached"));
    }
    Ok(())
}

/// Whether it makes sense to try again to write to the database: another writer was first, or
/// still is at it.
pub fn is_retryable_sqlite(unique_violation: bool, message: &str) -> (r: bool)
    ensures
        r == (unique_violation || occurs_in("locked"@, message@)),
{
    unique_violation || contains_text(message, "locked")
}

/// How many milliseconds to wait before a device is tried to be created again, after some
/// attempts; nothing where it is given up. There are five attempts.
pub fn retry_delay(attempt: u64, retryable: bool) -> (r: Option<u64>)
    ensures
        r == (if retryable && attempt < 4 {
            Some((20 * (attempt + 1)) as u64)
        } else {
            None
        }),
{
    if retryable && attempt < 4 {
        Some(20 * (attempt + 1))
    } else {
        None
    }
}

/// What is wrong with the addresses from which one is taken.
pub open spec fn lease_fault(pool: Ipv4Net, leases: Seq<Seq<char>>) -> Option<ErrorView> {
    or_fault(
        unless(address_count_of(pool) >= 4, validation(NetworkError::PoolTooSmall.text())),
        db_addresses_fault(leases, "lease"@),
    )
}

fn address_set(addresses: &[Ipv4Addr]) -> (r: BTreeSet<Ipv4Addr>)
    ensures
        r@ == addresses@.to_set(),
{
    broadcast use vstd::laws_cmp::group_laws_cmp;

    let mut set: BTreeSet<Ipv4Addr> = BTreeSet::new();
    let mut i: usize = 0;
    while i < addresses.len()
        invariant
            i <= addresses@.len(),
            forall|a: Ipv4Addr| #[trigger]
                set@.contains(a) == (exists|k: int| 0 <= k < i && #[trigger] addresses@[k] == a),
        decreases addresses@.len() - i,
    {
        let ghost before = set@;
        set.insert(addresses[i]);
        proof {
            assert forall|a: Ipv4Addr| #[trigger] set@.contains(a) == (exists|k: int|
                0 <= k < i + 1 && #[trigger] addresses@[k] == a) by {
                if before.contains(a) {
                    let k = choose|k: int| 0 <= k < i && #[trigger] addresses@[k] == a;
                    assert(0 <= k < i + 1 && addresses@[k] == a);
                }
                if a == addresses@[i + 0] {
                    assert(addresses@[i + 0] == a);
                }
            }
        }
        i = i + 1;
    }
    proof {
        assert forall|a: Ipv4Addr| set@.contains(a) == addresses@.to_set().contains(a) by {
            if addresses@.contains(a) {
                let k = choose|k: int| 0 <= k < addresses@.len() && addresses@[k] == a;
                assert(0 <= k < i && addresses@[k] == a);
            }
        }
        assert(set@ =~= addresses@.to_set());
    }
    set
}

/// The address that a new device gets: the lowest one of the pool that is neither leased nor in
/// quarantine.
pub fn allocate_device_address(pool: Ipv4Net, leases: &[String]) -> (r: Result<Ipv4Addr, ApiError>)
    ensures
        match lease_fault(pool, texts(leases@)) {
            Some(e) => r matches Err(f) && f@ == e,
            None => match r {
                Ok(address) => is_lowest_free(pool, db_addresses_of(texts(leases@)), address),
                Err(e) => {
                    &&& e@ == validation(NetworkError::PoolExhausted.text())
                    &&& is_used_up(pool, db_addresses_of(texts(leases@)))
                },
            },
        },
{
    let clients = match ClientPool::new(pool) {
        Ok(p) => p,
        Err(error) => return Err(network_error(&error)),
    };
    let addresses = db_addresses(leases, "lease")?;
    let taken = address_set(addresses.as_slice());
    proof {
        assert forall|a: u32| taken@.contains(a) == addresses@.contains(a) by {
            assert(addresses@.to_set().contains(a) == addresses@.contains(a));
        }
    }
    match clients.allocate(&taken) {
        Ok(address) => Ok(address),
        Err(error) => Err(network_error(&error)),
    }
}

/// What is written down of a new device.
pub open spec fn device_details(address: Ipv4Addr, public_key: Seq<char>) -> Seq<char> {
    "{\"address\":"@ + json_quoted(address_text(address)) + ",\"public_key\":"@ + json_quoted(
        public_key,
    ) + "}"@
}

/// What is written down of a new device.
pub fn create_device_audit(user_id: Uuid, device_id: Uuid, address: Ipv4Addr, public_key: &str) -> (r: (
    AuditEntry,
    String,
))
    ensures
        r.0.by_user(user_id, "device.create"@, "device"@, Some(device_id)),
        r.1@ == device_details(address, public_key@),
{
    (
        user_did(user_id, "device.create", "device", Some(device_id)),
        String::from_str("{\"address\":").concat(
            json_string(address_to_text(address).as_str()).as_str(),
        ).concat(",\"public_key\":").concat(json_string(public_key).as_str()).concat("}"),
    )
}

/// A site in the database, as the profiles of clients see it.
pub struct ClientSiteRow {
    pub id: String,
    pub name: String,
    pub endpoint_host: String,
    pub public_port: Option<i64>,
    pub listen_port: Option<i64>,
    pub public_key: Option<String>,
    pub routes: Vec<String>,
    /// The groups that the site is granted to.
    pub grants: Vec<String>,
}

impl ClientSiteRow {
    /// Whether the site is in the profiles of a user: it is granted to a group of the user, and
    /// the key of its gateway is known.
    pub open spec fn in_profiles(self, groups: Seq<Seq<char>>) -> bool {
        in_common(texts(self.grants@), groups) && self.public_key is Some
    }

    /// What is wrong with the site.
    pub open spec fn fault(self) -> Option<ErrorView> {
        or_fault(
            db_id_fault(self.id@, "site"@),
            db_nets_fault(texts(self.routes@), "site route"@),
        )
    }

    /// The site as a client sees it, where it is known at which port it is reached.
    pub open spec fn peer(self) -> Option<ClientPeerView> {
        match endpoint_of(self.endpoint_host@, self.public_port, self.listen_port) {
            Some(endpoint) => Some(
                ClientPeerView {
                    site_id: uuid_parsed(self.id@)->Ok_0,
                    site_name: self.name@,
                    public_key: (self.public_key->0)@,
                    endpoint,
                    allowed_ips: db_nets_of(texts(self.routes@)),
                },
            ),
            None => None,
        }
    }

    /// Whether the site is in the profiles of a user.
    pub fn is_in_profiles(&self, groups: &[String]) -> (r: bool)
        ensures
            r == self.in_profiles(texts(groups@)),
    {
        self.public_key.is_some() && is_in_common(self.grants.as_slice(), groups)
    }

    /// The site as a client sees it.
    pub fn to_peer(&self) -> (r: Result<Option<ClientPeer>, ApiError>)
        requires
            self.public_key is Some,
        ensures
            match r {
                Ok(p) => self.fault() is None && (match p {
                    Some(peer) => self.peer() == Some(peer@),
                    None => self.peer() is None,
                }),
                Err(e) => self.fault() == Some(e@),
            },
    {
        let site_id = db_id(self.id.as_str(), "site")?;
        let allowed_ips = db_nets(self.routes.as_slice(), "site route")?;
        match endpoint_text(&self.endpoint_host, self.public_port, self.listen_port) {
            None => Ok(None),
            Some(endpoint) => {
                let public_key = match &self.public_key {
                    Some(key) => copy_text(key),
                    None => String::new(),
                };
                let peer = ClientPeer {
                    site_id,
                    site_name: copy_text(&self.name),
                    public_key,
                    endpoint,
                    allowed_ips,
                };
                assert(self.peer()->0 =~= peer@);
                Ok(Some(peer))
            },
        }
    }
}

/// Whether two lists have a text in common.
pub fn is_in_common(a: &[String], b: &[String]) -> (r: bool)
    ensures
        r == in_common(texts(a@), texts(b@)),
{
    let ghost all = texts(a@);
    let mut i: usize = 0;
    while i < a.len()
        invariant
            i <= a@.len(),
            all == texts(a@),
            forall|k: int| 0 <= k < i ==> !texts(b@).contains(#[trigger] all[k]),
        decreases a@.len() - i,
    {
        assert(all[i as int] == a@[i as int]@);
        if holds_text(b, a[i].as_str()) {
            return true;
        }
        i = i + 1;
    }
    false
}

/// What is wrong with the first site in the profiles that something is wrong with.
pub open spec fn profile_fault(rows: Seq<ClientSiteRow>, groups: Seq<Seq<char>>) -> Option<ErrorView>
    decreases rows.len(),
{
    if rows.len() == 0 {
        None
    } else {
        or_fault(
            profile_fault(rows.drop_last(), groups),
            if rows.last().in_profiles(groups) {
                rows.last().fault()
            } else {
                None
            },
        )
    }
}

/// The sites in the profiles of a user.
pub open spec fn profile_peers(rows: Seq<ClientSiteRow>, groups: Seq<Seq<char>>) -> Seq<
    ClientPeerView,
>
    decreases rows.len(),
{
    if rows.len() == 0 {
        Seq::empty()
    } else {
        let before = profile_peers(rows.drop_last(), groups);
        if rows.last().in_profiles(groups) {
            match rows.last().peer() {
                Some(peer) => before.push(peer),
                None => before,
            }
        } else {
            before
        }
    }
}

proof fn lemma_later_sites(rows: Seq<ClientSiteRow>, groups: Seq<Seq<char>>, i: int)
    requires
        0 <= i <= rows.len(),
        profile_fault(rows.take(i), groups) is Some,
    ensures
        profile_fault(rows, groups) == profile_fault(rows.take(i), groups),
    decreases rows.len(),
{
    if i == rows.len() {
        assert(rows.take(i) =~= rows);
    } else {
        assert(rows.drop_last().take(i) =~= rows.take(i));
        lemma_later_sites(rows.drop_last(), groups, i);
    }
}

fn read_peers(rows: &[ClientSiteRow], groups: &[String]) -> (r: Result<Vec<ClientPeer>, ApiError>)
    ensures
        match r {
            Ok(v) => profile_fault(rows@, texts(groups@)) is None && peer_views(v@)
                == profile_peers(rows@, texts(groups@)),
            Err(e) => profile_fault(rows@, texts(groups@)) == Some(e@),
        },
{
    let ghost named = texts(groups@);
    let mut out: Vec<ClientPeer> = Vec::new();
    let mut i: usize = 0;
    assert(peer_views(out@) =~= profile_peers(rows@.take(0), named));
    while i < rows.len()
        invariant
            i <= rows@.len(),
            named == texts(groups@),
            profile_fault(rows@.take(i as int), named) is None,
            peer_views(out@) =~= profile_peers(rows@.take(i as int), named),
        decreases rows@.len() - i,
    {
        let ghost next = rows@.take(i + 1);
        proof {
            assert(next.drop_last() =~= rows@.take(i as int));
            assert(next.last() == rows@[i as int]);
        }
        if rows[i].is_in_profiles(groups) {
            match rows[i].to_peer() {
                Ok(Some(peer)) => {
                    let ghost before = out@;
                    out.push(peer);
                    assert(peer_views(out@) =~= peer_views(before).push(peer@));
                },
                Ok(None) => {},
                Err(e) => {
                    proof {
                        lemma_later_sites(rows@, named, i + 1);
                    }
                    return Err(e);
                },
            }
        }
        i = i + 1;
    }
    assert(rows@.take(i as int) =~= rows@);
    Ok(out)
}

/// A copy of options.
pub fn copy_options(options: &ClientOptions) -> (r: ClientOptions)
    ensures
        r@ == options@,
{
    let copy = ClientOptions {
        dns_servers: copy_addresses(options.dns_servers.as_slice()),
        search_domains: copy_texts(&options.search_domains),
        mtu: options.mtu,
        persistent_keepalive: options.persistent_keepalive,
    };
    assert(copy@ =~= options@);
    copy
}

/// Whether a profile is the one of a device.
pub open spec fn is_profile(
    m: ClientConfigModel,
    device_id: Uuid,
    device_name: Seq<char>,
    address: Ipv4Addr,
    revision: u64,
    options: OptionsView,
    rows: Seq<ClientSiteRow>,
    groups: Seq<Seq<char>>,
) -> bool {
    &&& m.device_id == device_id
    &&& m.device_name@ == device_name
    &&& m.address == address
    &&& m.revision == revision
    &&& m.options@ == options
    &&& peer_views(m.peers@) == profile_peers(rows, groups)
}

/// The profile of a device: the sites that are granted to the groups of its user.
pub fn build_config(
    device_id: Uuid,
    device_name: &str,
    address: Ipv4Addr,
    revision: u64,
    options: &ClientOptions,
    rows: &[ClientSiteRow],
    groups: &[String],
) -> (r: Result<ClientConfigModel, ApiError>)
    ensures
        match r {
            Ok(m) => profile_fault(rows@, texts(groups@)) is None && is_profile(
                m,
                device_id,
                device_name@,
                address,
                revision,
                options@,
                rows@,
                texts(groups@),
            ),
            Err(e) => profile_fault(rows@, texts(groups@)) == Some(e@),
        },
{
    let peers = read_peers(rows, groups)?;
    Ok(
        ClientConfigModel {
            device_id,
            device_name: device_name.to_owned(),
            revision,
            address,
            options: copy_options(options),
            peers,
        },
    )
}

/// A profile holds a site only where the site is granted to a group of the user.
pub proof fn law_profiles_hold_granted_sites(
    rows: Seq<ClientSiteRow>,
    groups: Seq<Seq<char>>,
    peer: ClientPeerView,
)
    requires
        profile_peers(rows, groups).contains(peer),
    ensures
        exists|i: int|
            0 <= i < rows.len() && in_common(texts((#[trigger] rows[i]).grants@), groups)
                && rows[i].peer() == Some(peer),
    decreases rows.len(),
{
    let all = profile_peers(rows, groups);
    let d = rows.drop_last();
    let before = profile_peers(d, groups);
    let k = choose|k: int| 0 <= k < all.len() && all[k] == peer;
    if k < before.len() {
        assert(before[k] == peer);
        law_profiles_hold_granted_sites(d, groups, peer);
        let i = choose|i: int|
            0 <= i < d.len() && in_common(texts((#[trigger] d[i]).grants@), groups) && d[i].peer()
                == Some(peer);
        assert(rows[i] == d[i]);
    } else {
        assert(rows[rows.len() - 1] == rows.last());
    }
}

/// What is wrong with a gateway in a profile.
pub open spec fn peer_fault(peer: ClientPeerView) -> Option<ErrorView> {
    if !is_public_key(peer.public_key) {
        Some(validation(ConfigError::InvalidPublicKey.text()))
    } else {
        unless(
            peer.allowed_ips.len() > 0,
            validation("peer "@ + peer.site_name + " has no routes"@),
        )
    }
}

/// What is wrong with the first gateway in a profile that something is wrong with.
pub open spec fn peers_fault(peers: Seq<ClientPeerView>) -> Option<ErrorView>
    decreases peers.len(),
{
    if peers.len() == 0 {
        None
    } else {
        or_fault(peers_fault(peers.drop_last()), peer_fault(peers.last()))
    }
}

proof fn lemma_no_fault(peers: Seq<ClientPeer>)
    requires
        forall|k: int| 0 <= k < peers.len() ==> peer_is_valid(#[trigger] peers[k]),
    ensures
        peers_fault(peer_views(peers)) is None,
    decreases peers.len(),
{
    if peers.len() > 0 {
        let d = peers.drop_last();
        assert(peer_is_valid(peers[peers.len() - 1]));
        assert forall|k: int| 0 <= k < d.len() implies peer_is_valid(#[trigger] d[k]) by {
            assert(d[k] == peers[k]);
        }
        lemma_no_fault(d);
        assert(peer_views(peers).drop_last() =~= peer_views(d));
    }
}

proof fn lemma_first_fault(peers: Seq<ClientPeer>, i: int)
    requires
        0 <= i < peers.len(),
        !peer_is_valid(peers[i]),
        forall|k: int| 0 <= k < i ==> peer_is_valid(#[trigger] peers[k]),
    ensures
        peer_fault(peers[i]@) is Some,
        peers_fault(peer_views(peers)) == peer_fault(peers[i]@),
    decreases peers.len(),
{
    let d = peers.drop_last();
    assert forall|k: int| 0 <= k < i implies peer_is_valid(#[trigger] d[k]) by {
        assert(d[k] == peers[k]);
    }
    assert(peer_views(peers).drop_last() =~= peer_views(d));
    if i == peers.len() - 1 {
        lemma_no_fault(d);
    } else {
        assert(d[i] == peers[i]);
        lemma_first_fault(d, i);
    }
}

/// What is kept of a profile: its digest and its text. A profile that no client could use is
/// refused.
pub fn store_snapshot(model: &ClientConfigModel) -> (r: Result<(String, String), ApiError>)
    ensures
        match r {
            Ok(p) => {
                &&& peers_fault(peer_views(model.peers@)) is None
                &&& p.0@ == text_fingerprint(model.semantic_text())
                &&& p.1@ == model.stored_text()
            },
            Err(e) => peers_fault(peer_views(model.peers@)) == Some(e@),
        },
{
    match model.validate() {
        Ok(_) => {
            proof {
                lemma_no_fault(model.peers@);
            }
            Ok((model.fingerprint(), model.stored_json()))
        },
        Err(error) => {
            proof {
                let i = choose|i: int|
                    {
                        &&& 0 <= i < model.peers@.len()
                        &&& !peer_is_valid(#[trigger] model.peers@[i])
                        &&& forall|k: int|
                            0 <= k < i ==> peer_is_valid(#[trigger] model.peers@[k])
                        &&& !is_public_key(model.peers@[i].public_key@)
                            ==> error is InvalidPublicKey
                        &&& is_public_key(model.peers@[i].public_key@) ==> (error matches
                            ConfigError::PeerWithoutRoutes(name) && name@
                            == model.peers@[i].site_name@)
                    };
                lemma_first_fault(model.peers@, i);
            }
            Err(config_error(&error))
        },
    }
}

/// A device to be written.
pub struct NewDevice {
    pub device_id: Uuid,
    pub user_id: Uuid,
    pub name: String,
    pub public_key: String,
    pub address: Ipv4Addr,
    pub model: ClientConfigModel,
    pub fingerprint: String,
    pub model_json: String,
    pub audit: AuditEntry,
    pub details_json: String,
}

/// Whether an address is the lowest one of a pool that is free.
pub open spec fn is_lowest_free(pool: Ipv4Net, taken: Seq<Ipv4Addr>, address: Ipv4Addr) -> bool {
    let clients = ClientPool { cidr: pool };
    &&& clients.allocatable(address)
    &&& !taken.contains(address)
    &&& forall|lower: u32|
        clients.allocatable(lower) && lower < address ==> taken.contains(lower)
}

/// Whether no address of a pool is free.
pub open spec fn is_used_up(pool: Ipv4Net, taken: Seq<Ipv4Addr>) -> bool {
    forall|a: u32| (ClientPool { cidr: pool }).allocatable(a) ==> taken.contains(a)
}

/// An address that is leased or in quarantine is not given out.
pub proof fn law_leased_addresses_are_not_given_out(
    pool: Ipv4Net,
    leases: Seq<Seq<char>>,
    address: Ipv4Addr,
    i: int,
)
    requires
        0 <= i < leases.len(),
        db_addresses_fault(leases, "lease"@) is None,
        is_lowest_free(pool, db_addresses_of(leases), address),
    ensures
        address_parsed(leases[i]) != Some(address),
{
    assert(db_addresses_of(leases)[i] == address_parsed(leases[i])->0);
    assert(db_addresses_of(leases).contains(db_addresses_of(leases)[i]));
    if address_parsed(leases[i]) == Some(address) {
        assert(db_addresses_of(leases)[i] == address);
    }
}

/// The address that a device gets is settled by what is leased, and the device after it gets
/// another one.
pub proof fn law_addresses_are_unique(
    pool: Ipv4Net,
    taken: Seq<Ipv4Addr>,
    a: Ipv4Addr,
    b: Ipv4Addr,
    after: Ipv4Addr,
)
    requires
        is_lowest_free(pool, taken, a),
        is_lowest_free(pool, taken, b),
        is_lowest_free(pool, taken.push(a), after),
    ensures
        a == b,
        after > a,
{
    assert(taken.push(a)[taken.len() as int] == a);
    assert(taken.push(a).contains(a));
    if after < a {
        let k = choose|k: int| 0 <= k < taken.len() && taken[k] == after;
        assert(taken.contains(after));
        assert(taken.push(a)[k] == after);
        assert(taken.push(a).contains(after));
    }
}

/// Whether it is the device that was asked for.
pub open spec fn is_new_device(
    d: NewDevice,
    request: CreateDeviceRequest,
    device_id: Uuid,
    pool: Ipv4Net,
    taken: Seq<Ipv4Addr>,
    options: OptionsView,
    rows: Seq<ClientSiteRow>,
    groups: Seq<Seq<char>>,
) -> bool {
    &&& d.device_id == device_id
    &&& d.user_id == request.user_id
    &&& d.name@ == trimmed(request.name@)
    &&& d.public_key@ == request.public_key@
    &&& is_lowest_free(pool, taken, d.address)
    &&& is_profile(d.model, device_id, d.name@, d.address, 1, options, rows, groups)
    &&& d.fingerprint@ == text_fingerprint(d.model.semantic_text())
    &&& d.model_json@ == d.model.stored_text()
    &&& d.audit.by_user(request.user_id, "device.create"@, "device"@, Some(device_id))
    &&& d.details_json@ == device_details(d.address, request.public_key@)
}

/// What is wrong with the sites in the profiles of a user, read and used.
pub open spec fn profiles_fault(rows: Seq<ClientSiteRow>, groups: Seq<Seq<char>>) -> Option<
    ErrorView,
> {
    or_fault(profile_fault(rows, groups), peers_fault(profile_peers(rows, groups)))
}

/// The device that was asked for: it gets the lowest free address and a first profile.
pub fn create_device(
    request: &CreateDeviceRequest,
    device_id: Uuid,
    pool: Ipv4Net,
    leases: &[String],
    options: &ClientOptions,
    rows: &[ClientSiteRow],
    groups: &[String],
) -> (r: Result<NewDevice, ApiError>)
    ensures
        ({
            let taken = db_addresses_of(texts(leases@));
            let sites = profiles_fault(rows@, texts(groups@));
            match r {
                Ok(d) => {
                    &&& lease_fault(pool, texts(leases@)) is None
                    &&& sites is None
                    &&& is_new_device(
                        d,
                        *request,
                        device_id,
                        pool,
                        taken,
                        options@,
                        rows@,
                        texts(groups@),
                    )
                },
                Err(e) => {
                    let leased = lease_fault(pool, texts(leases@));
                    if leased is Some {
                        leased == Some(e@)
                    } else if is_used_up(pool, taken) {
                        e@ == validation(NetworkError::PoolExhausted.text())
                    } else {
                        sites == Some(e@)
                    }
                },
            }
        }),
{
    let address = allocate_device_address(pool, leases)?;
    let name = trim(request.name.as_str());
    let model = build_config(device_id, name.as_str(), address, 1, options, rows, groups)?;
    let (fingerprint, model_json) = store_snapshot(&model)?;
    let (audit, details_json) = create_device_audit(
        request.user_id,
        device_id,
        address,
        request.public_key.as_str(),
    );
    Ok(
        NewDevice {
            device_id,
            user_id: request.user_id,
            name,
            public_key: copy_text(&request.public_key),
            address,
            model,
            fingerprint,
            model_json,
            audit,
            details_json,
        },
    )
}

/// A device in the database.
pub struct DeviceDetailRow {
    pub user_id: String,
    pub name: String,
    pub public_key: String,
    pub vpn_address: String,
    pub status: String,
    pub config_revision: i64,
    pub acknowledged_revision: i64,
    pub created_at: String,
}

/// What is wrong with a device in the database.
pub open spec fn device_row_fault(row: Option<DeviceDetailRow>) -> Option<ErrorView> {
    match row {
        None => Some(not_found("device does not exist"@)),
        Some(d) => or_fault(
            db_id_fault(d.user_id@, "user"@),
            db_address_fault(d.vpn_address@, "device"@),
        ),
    }
}

/// Whether a response tells of a device in the database.
pub open spec fn tells_device(r: DeviceResponse, id: Uuid, d: DeviceDetailRow) -> bool {
    &&& r.id == id
    &&& uuid_parsed(d.user_id@) == Ok::<Uuid, Seq<char>>(r.user_id)
    &&& r.name@ == d.name@
    &&& r.public_key@ == d.public_key@
    &&& address_parsed(d.vpn_address@) == Some(r.vpn_address)
    &&& r.status@ == d.status@
    &&& r.config_revision == d.config_revision as u64
    &&& r.acknowledged_revision == d.acknowledged_revision as u64
    &&& r.outdated == (r.config_revision != r.acknowledged_revision)
    &&& r.created_at@ == d.created_at@
}

/// What is told of a device: its profile is outdated where another one was taken note of.
pub fn get_device(id: Uuid, row: &Option<DeviceDetailRow>) -> (r: Result<DeviceResponse, ApiError>)
    ensures
        match r {
            Ok(d) => device_row_fault(*row) is None && tells_device(d, id, row->0),
            Err(e) => device_row_fault(*row) == Some(e@),
        },
{
    let d = match row {
        Some(d) => d,
        None => return Err(not_found_error("device does not exist")),
    };
    let user_id = db_id(d.user_id.as_str(), "user")?;
    let vpn_address = db_address(d.vpn_address.as_str(), "device")?;
    let config_revision = #[verifier::truncate] (d.config_revision as u64);
    let acknowledged_revision = #[verifier::truncate] (d.acknowledged_revision as u64);
    Ok(
        DeviceResponse {
            id,
            user_id,
            name: copy_text(&d.name),
            public_key: copy_text(&d.public_key),
            vpn_address,
            status: copy_text(&d.status),
            config_revision,
            acknowledged_revision,
            outdated: config_revision != acknowledged_revision,
            created_at: copy_text(&d.created_at),
        },
    )
}

/// A site that is granted to the user of a device, and its gateway.
pub struct SiteStatusRow {
    pub id: String,
    pub name: String,
    pub status: String,
    pub desired_revision: i64,
    pub applied_revision: i64,
    pub last_seen_at: Option<String>,
    pub last_error: Option<String>,
    pub has_public_key: bool,
    pub has_port: bool,
}

impl SiteStatusRow {
    /// Whether something went wrong with the gateway.
    pub open spec fn failed(self) -> bool {
        self.status@ == "error"@ || self.last_error is Some
    }

    /// Whether the gateway is there, has done what it was asked, and can be reached.
    pub open spec fn ready(self, now: Timestamp) -> bool {
        self.applied_revision >= self.desired_revision && is_fresh(opt_text(self.last_seen_at), now)
            && self.has_public_key && self.has_port
    }

    /// How the site stands.
    pub open spec fn state_of(self, now: Timestamp) -> Seq<char> {
        if self.failed() {
            "error"@
        } else if self.ready(now) {
            "ready"@
        } else {
            "pending"@
        }
    }

    /// How the site stands.
    pub fn provisioning(&self, now: Timestamp) -> (r: Result<PeerProvisioningResponse, ApiError>)
        ensures
            match r {
                Ok(p) => db_id_fault(self.id@, "site"@) is None && tells_status(p, *self, now),
                Err(e) => db_id_fault(self.id@, "site"@) == Some(e@),
            },
    {
        let failed = same_text(self.status.as_str(), "error") || self.last_error.is_some();
        let seen = match &self.last_seen_at {
            Some(at) => fresh(Some(at.as_str()), now),
            None => false,
        };
        let ready = self.applied_revision >= self.desired_revision && seen && self.has_public_key
            && self.has_port;
        let site_id = db_id(self.id.as_str(), "site")?;
        let state = if failed {
            "error"
        } else if ready {
            "ready"
        } else {
            "pending"
        };
        Ok(
            PeerProvisioningResponse {
                site_id,
                site_name: copy_text(&self.name),
                state: state.to_owned(),
                error: if failed {
                    copy_option(&self.last_error)
                } else {
                    None
                },
            },
        )
    }
}

/// Whether a response tells how a site stands.
pub open spec fn tells_status(p: PeerProvisioningResponse, row: SiteStatusRow, now: Timestamp) -> bool {
    &&& uuid_parsed(row.id@) == Ok::<Uuid, Seq<char>>(p.site_id)
    &&& p.site_name@ == row.name@
    &&& p.state@ == row.state_of(now)
    &&& opt_text(p.error) == (if row.failed() {
        opt_text(row.last_error)
    } else {
        None
    })
}

/// What is wrong with the first site that something is wrong with.
pub open spec fn statuses_fault(rows: Seq<SiteStatusRow>) -> Option<ErrorView>
    decreases rows.len(),
{
    if rows.len() == 0 {
        None
    } else {
        or_fault(statuses_fault(rows.drop_last()), db_id_fault(rows.last().id@, "site"@))
    }
}

proof fn lemma_later_statuses(rows: Seq<SiteStatusRow>, i: int)
    requires
        0 <= i <= rows.len(),
        statuses_fault(rows.take(i)) is Some,
    ensures
        statuses_fault(rows) == statuses_fault(rows.take(i)),
    decreases rows.len(),
{
    if i == rows.len() {
        assert(rows.take(i) =~= rows);
    } else {
        assert(rows.drop_last().take(i) =~= rows.take(i));
        lemma_later_statuses(rows.drop_last(), i);
    }
}

/// How the sites stand that are granted to the user of a device: all of them, also those whose
/// gateway has not reported its key.
pub fn peer_statuses(rows: &[SiteStatusRow], now: Timestamp) -> (r: Result<
    Vec<PeerProvisioningResponse>,
    ApiError,
>)
    ensures
        match r {
            Ok(v) => {
                &&& statuses_fault(rows@) is None
                &&& v@.len() == rows@.len()
                &&& forall|i: int|
                    0 <= i < rows@.len() ==> tells_status(#[trigger] v@[i], rows@[i], now)
            },
            Err(e) => statuses_fault(rows@) == Some(e@),
        },
{
    let mut out: Vec<PeerProvisioningResponse> = Vec::new();
    let mut i: usize = 0;
    while i < rows.len()
        invariant
            i <= rows@.len(),
            out@.len() == i,
            statuses_fault(rows@.take(i as int)) is None,
            forall|k: int| 0 <= k < i ==> tells_status(#[trigger] out@[k], rows@[k], now),
        decreases rows@.len() - i,
    {
        let ghost next = rows@.take(i + 1);
        proof {
            assert(next.drop_last() =~= rows@.take(i as int));
            assert(next.last() == rows@[i as int]);
        }
        match rows[i].provisioning(now) {
            Ok(told) => {
                out.push(told);
            },
            Err(e) => {
                proof {
                    lemma_later_statuses(rows@, i + 1);
                }
                return Err(e);
            },
        }
        i = i + 1;
    }
    assert(rows@.take(i as int) =~= rows@);
    Ok(out)
}

/// What a profile that nobody has taken note of changes: every site is new.
pub open spec fn all_new(peers: Seq<ClientPeer>) -> Seq<ChangeView> {
    peers.map_values(
        |p: ClientPeer|
            ChangeView {
                kind: ConfigChangeKind::PeerAdded,
                site_id: Some(p.site_id),
                description: "site "@ + p.site_name@ + " is available"@,
            },
    )
}

/// What changed since a profile was taken note of.
pub open spec fn changes_since(
    acknowledged_revision: u64,
    acknowledged: Option<ClientConfigModel>,
    model: ClientConfigModel,
) -> Seq<ChangeView> {
    if acknowledged_revision == 0 {
        all_new(model.peers@)
    } else {
        match acknowledged {
            Some(old_model) => old_model.changes_to(model),
            None => Seq::empty(),
        }
    }
}

/// What changed since a profile was taken note of: all sites are new where none was.
pub fn profile_changes(
    acknowledged_revision: u64,
    acknowledged: &Option<ClientConfigModel>,
    model: &ClientConfigModel,
) -> (r: Vec<ConfigChange>)
    ensures
        change_views(r@) == changes_since(acknowledged_revision, *acknowledged, *model),
{
    let mut out: Vec<ConfigChange> = Vec::new();
    if acknowledged_revision != 0 {
        assert(change_views(out@) =~= Seq::<ChangeView>::empty());
        return match acknowledged {
            Some(known) => known.diff(model),
            None => out,
        };
    }
    let ghost goal = all_new(model.peers@);
    let mut i: usize = 0;
    assert(change_views(out@) =~= goal.take(0));
    while i < model.peers.len()
        invariant
            i <= model.peers@.len(),
            goal == all_new(model.peers@),
            change_views(out@) =~= goal.take(i as int),
        decreases model.peers@.len() - i,
    {
        let peer = &model.peers[i];
        let change = ConfigChange {
            kind: ConfigChangeKind::PeerAdded,
            site_id: Some(peer.site_id),
            description: String::from_str("site ").concat(peer.site_name.as_str()).concat(
                " is available",
            ),
        };
        let ghost before = out@;
        out.push(change);
        assert(change_views(out@) =~= change_views(before).push(change@));
        assert(change@ =~= goal[i as int]);
        assert(goal.take(i + 1) =~= goal.take(i as int).push(goal[i as int]));
        i = i + 1;
    }
    assert(goal.take(i as int) =~= goal);
    out
}

/// What is told of the profile of a device.
pub fn device_config(
    device: &DeviceResponse,
    model: ClientConfigModel,
    acknowledged: &Option<ClientConfigModel>,
    sites: &[SiteStatusRow],
    now: Timestamp,
) -> (r: Result<DeviceConfigResponse, ApiError>)
    ensures
        match r {
            Ok(c) => {
                &&& statuses_fault(sites@) is None
                &&& c.model == model
                &&& c.placeholder_config@ == model.rendered(None)
                &&& c.acknowledged_revision == device.acknowledged_revision
                &&& c.outdated == device.outdated
                &&& change_views(c.changes@) == changes_since(
                    device.acknowledged_revision,
                    *acknowledged,
                    model,
                )
                &&& c.peer_statuses@.len() == sites@.len()
                &&& forall|i: int|
                    0 <= i < sites@.len() ==> tells_status(
                        #[trigger] c.peer_statuses@[i],
                        sites@[i],
                        now,
                    )
            },
            Err(e) => statuses_fault(sites@) == Some(e@),
        },
{
    let changes = profile_changes(device.acknowledged_revision, acknowledged, &model);
    let statuses = peer_statuses(sites, now)?;
    let placeholder_config = model.render(None);
    Ok(
        DeviceConfigResponse {
            model,
            placeholder_config,
            acknowledged_revision: device.acknowledged_revision,
            outdated: device.outdated,
            changes,
            peer_statuses: statuses,
        },
    )
}

/// What is written down when a profile is taken note of.
pub open spec fn acknowledge_details(request: AcknowledgeConfigRequest) -> Seq<char> {
    "{\"method\":"@ + json_quoted(request.method.name()) + ",\"revision\":"@ + decimal(
        request.revision as nat,
    ) + "}"@
}

/// What is written when a profile is taken note of.
pub struct AcknowledgePlan {
    pub revision: u64,
    pub method: &'static str,
    pub audit: AuditEntry,
    pub details_json: String,
}

/// Whether it is the present profile of a device that is taken note of, in the way that was said.
pub open spec fn takes_note(
    p: AcknowledgePlan,
    device: DeviceResponse,
    request: AcknowledgeConfigRequest,
) -> bool {
    &&& p.revision == device.config_revision
    &&& p.method@ == request.method.name()
    &&& p.audit.says(
        None,
        "system"@,
        "device.config_acknowledge"@,
        "device"@,
        Some(device.id),
        "success"@,
    )
    &&& p.details_json@ == acknowledge_details(request)
}

/// What is written when a profile is taken note of: only the present one can be.
pub fn acknowledge_config(device: &DeviceResponse, request: &AcknowledgeConfigRequest) -> (r: Result<
    AcknowledgePlan,
    ApiError,
>)
    ensures
        if request.revision != device.config_revision {
            r matches Err(e) && e@ == conflict(
                "revision "@ + decimal(request.revision as nat) + " is no longer current"@,
            )
        } else {
            r matches Ok(p) && takes_note(p, *device, *request)
        },
{
    if request.revision != device.config_revision {
        return Err(
            conflict_error(
                String::from_str("revision ").concat(
                    decimal_text(request.revision).as_str(),
                ).concat(" is no longer current").as_str(),
            ),
        );
    }
    Ok(
        AcknowledgePlan {
            revision: request.revision,
            method: request.method.as_str(),
            audit: success(None, "system", "device.config_acknowledge", "device", Some(device.id)),
            details_json: String::from_str("{\"method\":").concat(
                json_string(request.method.as_str()).as_str(),
            ).concat(",\"revision\":").concat(decimal_text(request.revision).as_str()).concat("}"),
        },
    )
}

/// A device whose present profile was taken note of is not outdated.
pub proof fn law_acknowledged_profiles_are_current(
    before: DeviceDetailRow,
    after: DeviceDetailRow,
    id: Uuid,
    told: DeviceResponse,
    now_told: DeviceResponse,
)
    requires
        tells_device(told, id, before),
        tells_device(now_told, id, after),
        after.config_revision == before.config_revision,
        after.acknowledged_revision as u64 == told.config_revision,
    ensures
        !now_told.outdated,
{
}

/// Why the key of a device is not replaced.
pub open spec fn rotate_fault(request: RotateDeviceKeyRequest, device: DeviceResponse) -> Option<
    ErrorView,
> {
    or_fault(
        unless(
            is_public_key(request.public_key@),
            validation(ConfigError::InvalidPublicKey.text()),
        ),
        unless(device.status@ == "active"@, conflict("only active devices can rotate keys"@)),
    )
}

/// What replacing the key of a device changes.
pub struct RotatePlan {
    pub public_key: String,
    pub revision: u64,
    pub model: ClientConfigModel,
    pub audit: AuditEntry,
    pub details_json: String,
}

/// What replacing the key of a device changes: its profile goes one revision on.
pub fn rotate_device_key(
    request: &RotateDeviceKeyRequest,
    device: &DeviceResponse,
    model: ClientConfigModel,
) -> (r: Result<RotatePlan, ApiError>)
    requires
        device.config_revision < u64::MAX,
    ensures
        match r {
            Ok(p) => {
                &&& rotate_fault(*request, *device) is None
                &&& p.public_key@ == request.public_key@
                &&& p.revision == device.config_revision + 1
                &&& p.model == (ClientConfigModel { revision: p.revision, ..model })
                &&& p.audit.by_user(
                    device.user_id,
                    "device.key_rotate"@,
                    "device"@,
                    Some(device.id),
                )
                &&& p.details_json@ == "{\"revision\":"@ + decimal(p.revision as nat) + "}"@
            },
            Err(e) => rotate_fault(*request, *device) == Some(e@),
        },
{
    check_key(request.public_key.as_str())?;
    if !same_text(device.status.as_str(), "active") {
        return Err(conflict_error("only active devices can rotate keys"));
    }
    let revision = device.config_revision + 1;
    let mut next = model;
    next.revision = revision;
    Ok(
        RotatePlan {
            public_key: copy_text(&request.public_key),
            revision,
            model: next,
            audit: user_did(device.user_id, "device.key_rotate", "device", Some(device.id)),
            details_json: String::from_str("{\"revision\":").concat(
                decimal_text(revision).as_str(),
            ).concat("}"),
        },
    )
}

/// What giving up an address or a key requires of the gateways that may hold it.
pub struct Removal {
    pub acks: Vec<AckRow>,
    /// No gateway may hold it: it is given up at once.
    pub at_once: bool,
}

/// What giving up an address or a key requires of the gateways that were rebuilt without it.
pub fn removal(states: &[DesiredGatewayState]) -> (r: Removal)
    ensures
        r.acks@ == required_acks(states@),
        r.at_once == (states@.len() == 0),
{
    Removal { acks: acks_for(states), at_once: states.len() == 0 }
}

/// Whether a device still has to be deleted.
pub fn delete_device(device: &DeviceResponse) -> (r: bool)
    ensures
        r == (device.status@ != "deleted"@),
{
    !same_text(device.status.as_str(), "deleted")
}

/// The gateways of some states.
pub open spec fn gateways_in(states: Seq<DesiredGatewayState>) -> Seq<Uuid> {
    states.map_values(|s: DesiredGatewayState| s.gateway_id)
}

fn list_gateways(states: &[DesiredGatewayState]) -> (r: Vec<Uuid>)
    ensures
        r@ == gateways_in(states@),
{
    let ghost goal = gateways_in(states@);
    let mut out: Vec<Uuid> = Vec::new();
    let mut i: usize = 0;
    while i < states.len()
        invariant
            i <= states@.len(),
            goal == gateways_in(states@),
            out@ =~= goal.take(i as int),
        decreases states@.len() - i,
    {
        out.push(states[i].gateway_id);
        i = i + 1;
    }
    assert(goal.take(i as int) =~= goal);
    out
}

/// What is written down of a device that was deleted.
pub fn delete_device_audit(device: &DeviceResponse, states: &[DesiredGatewayState]) -> (r: (
    AuditEntry,
    String,
))
    ensures
        r.0.by_user(device.user_id, "device.delete"@, "device"@, Some(device.id)),
        r.1@ == "{\"pending_gateways\":"@ + json_array(all_quoted(id_texts(gateways_in(states@))))
            + "}"@,
{
    let ids = list_gateways(states);
    let mut details = String::from_str("{\"pending_gateways\":");
    append_array(&mut details, quote_all(ids_to_texts(ids.as_slice()).as_slice()).as_slice());
    details.append("}");
    (user_did(device.user_id, "device.delete", "device", Some(device.id)), details)
}

/// An address is given out again at once only where no gateway may hold it; else once all of
/// them have acknowledged that they do not.
pub proof fn law_addresses_are_quarantined(states: Seq<DesiredGatewayState>)
    requires
        states.len() > 0,
    ensures
        !crate::desired::all_met(required_acks(states)),
{
    assert(!required_acks(states)[0].acknowledged);
}

/// Whether sites came into a profile or left it.
pub open spec fn access_changes(changes: Seq<ChangeView>) -> bool {
    exists|i: int|
        0 <= i < changes.len() && ((#[trigger] changes[i]).kind == ConfigChangeKind::PeerAdded
            || changes[i].kind == ConfigChangeKind::PeerRemoved)
}

fn has_access_changes(changes: &[ConfigChange]) -> (r: bool)
    ensures
        r == access_changes(change_views(changes@)),
{
    let ghost all = change_views(changes@);
    let mut i: usize = 0;
    while i < changes.len()
        invariant
            i <= changes@.len(),
            all == change_views(changes@),
            forall|k: int|
                0 <= k < i ==> (#[trigger] all[k]).kind != ConfigChangeKind::PeerAdded
                    && all[k].kind != ConfigChangeKind::PeerRemoved,
        decreases changes@.len() - i,
    {
        assert(all[i as int].kind == changes@[i as int].kind);
        match changes[i].kind {
            ConfigChangeKind::PeerAdded => {
                return true;
            },
            ConfigChangeKind::PeerRemoved => {
                return true;
            },
            _ => {},
        }
        i = i + 1;
    }
    false
}

/// How it goes on with a profile that may have changed.
#[derive(Debug, Clone, Copy, PartialEq, Eq, Structural)]
pub enum RefreshStep {
    /// It has not.
    Keep,
    /// It has: it is stored anew. Sites may have come or gone.
    Store { access_changed: bool },
}

/// How it goes on with a profile that may have changed: it is stored only where its digest did.
pub fn refresh_profile(
    current_fingerprint: &str,
    current: &ClientConfigModel,
    candidate: &ClientConfigModel,
) -> (r: RefreshStep)
    ensures
        r == (if text_fingerprint(candidate.semantic_text()) == current_fingerprint@ {
            RefreshStep::Keep
        } else {
            RefreshStep::Store {
                access_changed: access_changes(current.changes_to(*candidate)),
            }
        }),
{
    let fingerprint = candidate.fingerprint();
    if same_text(fingerprint.as_str(), current_fingerprint) {
        return RefreshStep::Keep;
    }
    let changes = current.diff(candidate);
    RefreshStep::Store { access_changed: has_access_changes(changes.as_slice()) }
}

/// A device whose profile may have changed, and its present profile.
pub struct ProfileRow {
    pub id: String,
    pub name: String,
    pub vpn_address: String,
    pub config_revision: i64,
    pub fingerprint: String,
    /// The profile, or why it could not be read.
    pub model: Result<ClientConfigModel, String>,
}

/// A profile to be stored.
pub struct NewProfile {
    pub model: ClientConfigModel,
    pub fingerprint: String,
    pub model_json: String,
}

impl ProfileRow {
    /// The revision after the present one.
    pub open spec fn next_revision(self) -> u64 {
        ((self.config_revision as u64) + 1) as u64
    }

    /// Whether a profile is the one that the device should have.
    pub open spec fn wants(
        self,
        m: ClientConfigModel,
        options: OptionsView,
        rows: Seq<ClientSiteRow>,
        groups: Seq<Seq<char>>,
    ) -> bool {
        &&& uuid_parsed(self.id@) == Ok::<Uuid, Seq<char>>(m.device_id)
        &&& address_parsed(self.vpn_address@) == Some(m.address)
        &&& is_profile(
            m,
            m.device_id,
            self.name@,
            m.address,
            self.next_revision(),
            options,
            rows,
            groups,
        )
    }

    /// What is wrong with what is known of the device.
    pub open spec fn fault(self, sites: Option<ErrorView>) -> Option<ErrorView> {
        or_fault(
            or_fault(db_id_fault(self.id@, "device"@), db_address_fault(self.vpn_address@, "device"@)),
            sites,
        )
    }
}

/// What comes of a device whose profile may have changed.
pub enum Refreshed {
    /// Its profile has not changed.
    Same,
    /// Its profile is stored anew. Sites may have come or gone.
    Stored { profile: NewProfile, access_changed: bool },
}

/// Whether it is what comes of a device.
pub open spec fn is_refreshed(
    d: Refreshed,
    row: ProfileRow,
    options: OptionsView,
    rows: Seq<ClientSiteRow>,
    groups: Seq<Seq<char>>,
) -> bool {
    match d {
        Refreshed::Same => exists|m: ClientConfigModel|
            #[trigger] row.wants(m, options, rows, groups) && text_fingerprint(m.semantic_text())
                == row.fingerprint@,
        Refreshed::Stored { profile, access_changed } => {
            &&& peers_fault(profile_peers(rows, groups)) is None
            &&& row.wants(profile.model, options, rows, groups)
            &&& text_fingerprint(profile.model.semantic_text()) != row.fingerprint@
            &&& profile.fingerprint@ == text_fingerprint(profile.model.semantic_text())
            &&& profile.model_json@ == profile.model.stored_text()
            &&& (row.model matches Ok(current) && access_changed == access_changes(
                current.changes_to(profile.model),
            ))
        },
    }
}

/// Whether a device stops a refresh, and with which error: it or its sites cannot be read, or its
/// profile has changed and the present one cannot be read or the new one not be used.
pub open spec fn stops_refresh(
    e: ErrorView,
    row: ProfileRow,
    options: OptionsView,
    rows: Seq<ClientSiteRow>,
    groups: Seq<Seq<char>>,
) -> bool {
    let unreadable = row.fault(profile_fault(rows, groups));
    if unreadable is Some {
        unreadable == Some(e)
    } else {
        exists|m: ClientConfigModel|
            {
                &&& #[trigger] row.wants(m, options, rows, groups)
                &&& text_fingerprint(m.semantic_text()) != row.fingerprint@
                &&& match row.model {
                    Ok(_) => peers_fault(profile_peers(rows, groups)) == Some(e),
                    Err(message) => e == internal(message@),
                }
            }
    }
}

/// What comes of a device whose profile may have changed.
pub fn refresh_device(
    row: &ProfileRow,
    options: &ClientOptions,
    rows: &[ClientSiteRow],
    groups: &[String],
) -> (r: Result<Refreshed, ApiError>)
    requires
        row.config_revision != -1,
    ensures
        match r {
            Ok(d) => is_refreshed(d, *row, options@, rows@, texts(groups@)),
            Err(e) => stops_refresh(e@, *row, options@, rows@, texts(groups@)),
        },
{
    let device_id = db_id(row.id.as_str(), "device")?;
    let address = db_address(row.vpn_address.as_str(), "device")?;
    let current_revision = #[verifier::truncate] (row.config_revision as u64);
    proof {
        let revision = row.config_revision;
        assert(revision != -1 ==> (revision as u64) < 0xffff_ffff_ffff_ffffu64) by (bit_vector);
    }
    let candidate = build_config(
        device_id,
        row.name.as_str(),
        address,
        current_revision + 1,
        options,
        rows,
        groups,
    )?;
    assert(row.wants(candidate, options@, rows@, texts(groups@)));
    let fingerprint = candidate.fingerprint();
    if same_text(fingerprint.as_str(), row.fingerprint.as_str()) {
        return Ok(Refreshed::Same);
    }
    let access_changed = match &row.model {
        Ok(current) => match refresh_profile(row.fingerprint.as_str(), current, &candidate) {
            RefreshStep::Store { access_changed } => access_changed,
            RefreshStep::Keep => false,
        },
        Err(message) => {
            return Err(internal_error(message.as_str()));
        },
    };
    let (fingerprint, model_json) = store_snapshot(&candidate)?;
    Ok(
        Refreshed::Stored {
            profile: NewProfile { model: candidate, fingerprint, model_json },
            access_changed,
        },
    )
}

/// Whether a device does not stop a refresh.
pub open spec fn passes_refresh(
    row: ProfileRow,
    options: OptionsView,
    rows: Seq<ClientSiteRow>,
    groups: Seq<Seq<char>>,
) -> bool {
    exists|d: Refreshed| #[trigger] is_refreshed(d, row, options, rows, groups)
}

/// Whether a result tells what comes of the devices of a user, up to the first one that stops it.
pub open spec fn is_refresh(
    r: Result<Seq<Refreshed>, ErrorView>,
    devices: Seq<ProfileRow>,
    options: OptionsView,
    rows: Seq<ClientSiteRow>,
    groups: Seq<Seq<char>>,
) -> bool {
    match r {
        Ok(all) => {
            &&& all.len() == devices.len()
            &&& forall|i: int|
                0 <= i < devices.len() ==> is_refreshed(
                    #[trigger] all[i],
                    devices[i],
                    options,
                    rows,
                    groups,
                )
        },
        Err(e) => exists|i: int|
            {
                &&& 0 <= i < devices.len()
                &&& #[trigger] stops_refresh(e, devices[i], options, rows, groups)
                &&& forall|k: int|
                    0 <= k < i ==> #[trigger] passes_refresh(devices[k], options, rows, groups)
            },
    }
}

/// What comes of the devices of a user when sites, grants or options change.
pub fn refresh_user_configs(
    devices: &[ProfileRow],
    options: &ClientOptions,
    rows: &[ClientSiteRow],
    groups: &[String],
) -> (r: Result<Vec<Refreshed>, ApiError>)
    requires
        forall|i: int| 0 <= i < devices@.len() ==> (#[trigger] devices@[i]).config_revision != -1,
    ensures
        is_refresh(
            match r {
                Ok(v) => Ok(v@),
                Err(e) => Err(e@),
            },
            devices@,
            options@,
            rows@,
            texts(groups@),
        ),
{
    let mut out: Vec<Refreshed> = Vec::new();
    let mut i: usize = 0;
    while i < devices.len()
        invariant
            i <= devices@.len(),
            out@.len() == i,
            forall|k: int|
                0 <= k < devices@.len() ==> (#[trigger] devices@[k]).config_revision != -1,
            forall|k: int|
                0 <= k < i ==> is_refreshed(
                    #[trigger] out@[k],
                    devices@[k],
                    options@,
                    rows@,
                    texts(groups@),
                ),
        decreases devices@.len() - i,
    {
        match refresh_device(&devices[i], options, rows, groups) {
            Ok(d) => {
                out.push(d);
            },
            Err(e) => {
                proof {
                    assert forall|k: int| 0 <= k < i implies #[trigger] passes_refresh(
                        devices@[k],
                        options@,
                        rows@,
                        texts(groups@),
                    ) by {
                        assert(is_refreshed(
                            out@[k],
                            devices@[k],
                            options@,
                            rows@,
                            texts(groups@),
                        ));
                    }
                }
                return Err(e);
            },
        }
        i = i + 1;
    }
    Ok(out)
}

/// How many profiles are stored anew.
pub open spec fn stored_count(all: Seq<Refreshed>) -> nat
    decreases all.len(),
{
    if all.len() == 0 {
        0
    } else {
        stored_count(all.drop_last()) + if all.last() is Stored {
            1nat
        } else {
            0
        }
    }
}

/// Whether sites came or went for some device.
pub open spec fn some_access_changed(all: Seq<Refreshed>) -> bool {
    exists|i: int|
        0 <= i < all.len() && (#[trigger] all[i] matches Refreshed::Stored { access_changed, .. }
            && access_changed)
}

/// How many profiles are stored anew, and whether sites came or went for some device.
pub fn refresh_summary(all: &[Refreshed]) -> (r: (usize, bool))
    ensures
        r.0 == stored_count(all@),
        r.1 == some_access_changed(all@),
{
    let mut changed: usize = 0;
    let mut access: bool = false;
    let mut i: usize = 0;
    while i < all.len()
        invariant
            i <= all@.len(),
            changed <= i,
            changed == stored_count(all@.take(i as int)),
            access == (exists|k: int|
                0 <= k < i && (#[trigger] all@[k] matches Refreshed::Stored { access_changed, .. }
                    && access_changed)),
        decreases all@.len() - i,
    {
        proof {
            assert(all@.take(i + 1).drop_last() =~= all@.take(i as int));
            assert(all@.take(i + 1).last() == all@[i as int]);
        }
        match &all[i] {
            Refreshed::Same => {},
            Refreshed::Stored { access_changed, .. } => {
                changed = changed + 1;
                if *access_changed {
                    access = true;
                }
            },
        }
        i = i + 1;
    }
    assert(all@.take(i as int) =~= all@);
    (changed, access)
}

/// A message in the database.
pub struct JobRow {
    pub recipient: String,
    pub template: String,
    pub status: String,
}

impl JobRow {
    /// Whether such a message to someone is still to be sent.
    pub open spec fn waits(self, recipient: Seq<char>, template: Seq<char>) -> bool {
        &&& self.recipient@ == recipient
        &&& self.template@ == template
        &&& self.status@ == "pending"@ || self.status@ == "sending"@
    }
}

/// Whether such a message to someone is still to be sent.
pub open spec fn is_waiting(jobs: Seq<JobRow>, recipient: Seq<char>, template: Seq<char>) -> bool {
    exists|i: int| 0 <= i < jobs.len() && (#[trigger] jobs[i]).waits(recipient, template)
}

fn has_waiting(jobs: &[JobRow], recipient: &str, template: &str) -> (r: bool)
    ensures
        r == is_waiting(jobs@, recipient@, template@),
{
    let mut i: usize = 0;
    while i < jobs.len()
        invariant
            i <= jobs@.len(),
            forall|k: int| 0 <= k < i ==> !(#[trigger] jobs@[k]).waits(recipient@, template@),
        decreases jobs@.len() - i,
    {
        let job = &jobs[i];
        if same_text(job.recipient.as_str(), recipient) && same_text(
            job.template.as_str(),
            template,
        ) && (same_text(job.status.as_str(), "pending") || same_text(
            job.status.as_str(),
            "sending",
        )) {
            assert(jobs@[i as int].waits(recipient@, template@));
            return true;
        }
        i = i + 1;
    }
    false
}

/// The message about changed profiles.
pub struct ProfileNotice {
    pub template: &'static str,
    pub parameters_json: String,
}

/// What the message about changed profiles says besides.
pub open spec fn notice_parameters(user_id: Uuid, changed: nat) -> Seq<char> {
    "{\"changed_devices\":"@ + decimal(changed) + ",\"user_id\":"@ + json_quoted(
        uuid_text(user_id),
    ) + "}"@
}

/// Which message tells of changed profiles.
pub open spec fn notice_template(access_changed: bool) -> Seq<char> {
    if access_changed {
        "access_change"@
    } else {
        "profile_change"@
    }
}

/// The message about changed profiles, where there is one: mail is sent, something changed, and
/// no such message waits already.
pub fn queue_profile_notification(
    user_id: Uuid,
    email: &str,
    changed: usize,
    access_changed: bool,
    mail_enabled: bool,
    jobs: &[JobRow],
) -> (r: Option<ProfileNotice>)
    ensures
        (r is Some) == (changed > 0 && mail_enabled && !is_waiting(
            jobs@,
            email@,
            notice_template(access_changed),
        )),
        r matches Some(n) ==> n.template@ == notice_template(access_changed)
            && n.parameters_json@ == notice_parameters(user_id, changed as nat),
{
    let template = if access_changed {
        "access_change"
    } else {
        "profile_change"
    };
    if changed == 0 || !mail_enabled || has_waiting(jobs, email, template) {
        return None;
    }
    Some(
        ProfileNotice {
            template,
            parameters_json: String::from_str("{\"changed_devices\":").concat(
                decimal_text(changed as u64).as_str(),
            ).concat(",\"user_id\":").concat(
                json_string(uuid_to_text(user_id).as_str()).as_str(),
            ).concat("}"),
        },
    )
}

} // verus!
