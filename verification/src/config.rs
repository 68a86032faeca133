//! The profile of a client device: what it holds, how it is written and how two differ.

use vstd::prelude::*;
use vstd::string::*;
use vstd::utf8::*;

use crate::crypto::{base64_bytes, base64_decode, fingerprint_text, text_fingerprint};
use crate::ids::{uuid_text, uuid_to_text, Uuid};
use crate::ipv4::{address_text, address_to_text, Ipv4Addr, Ipv4Net};
use crate::lines::{
    lemma_lines_of_terminated, lemma_terminated_add, lemma_terminated_push, lines_of, terminated,
};
use crate::sort::{stable_sort, stable_sorted, Ranked, Sortable};
use crate::json::{
    all_quoted, append_array, json_array, json_opt_number, json_optional, json_quoted, json_string,
    quote_all,
};
use crate::text::{
    decimal, decimal_text, is_text_no_later, join, joined, lemma_decimal_on_line,
    lemma_joined_on_line, lemma_one_line, lemma_text_order_antisymmetric, lemma_text_order_total,
    lemma_text_order_transitive, lowercased, occurs_in, one_line, push_text, same_text,
    stays_on_line, text_no_later, texts, to_lowercase, without_line_breaks,
};

verus! {

/// What stands for the private key in a profile that was rendered without one.
pub const PRIVATE_KEY_PLACEHOLDER: &'static str = "<CLIENT_PRIVATE_KEY>";

/// Settings that all clients share.
#[derive(Debug, Clone, PartialEq, Eq)]
pub struct ClientOptions {
    pub dns_servers: Vec<Ipv4Addr>,
    pub search_domains: Vec<String>,
    pub mtu: Option<u16>,
    pub persistent_keepalive: Option<u16>,
}

/// A gateway as a client sees it.
#[derive(Debug, Clone, PartialEq, Eq)]
pub struct ClientPeer {
    pub site_id: Uuid,
    pub site_name: String,
    pub public_key: String,
    pub endpoint: String,
    pub allowed_ips: Vec<Ipv4Net>,
}

/// The profile of a client device.
#[derive(Debug, Clone, PartialEq, Eq)]
pub struct ClientConfigModel {
    pub device_id: Uuid,
    pub device_name: String,
    pub revision: u64,
    pub address: Ipv4Addr,
    pub options: ClientOptions,
    pub peers: Vec<ClientPeer>,
}

/// What sort of thing changed.
#[derive(Debug, Clone, Copy, PartialEq, Eq, Structural)]
pub enum ConfigChangeKind {
    Address,
    Options,
    PeerAdded,
    PeerRemoved,
    PeerChanged,
}

/// One change that a client can see.
#[derive(Debug, Clone, PartialEq, Eq)]
pub struct ConfigChange {
    pub kind: ConfigChangeKind,
    pub site_id: Option<Uuid>,
    pub description: String,
}

/// Why a profile is refused.
#[derive(Debug, Clone, PartialEq, Eq)]
pub enum ConfigError {
    InvalidPublicKey,
    PeerWithoutRoutes(String),
}

/// The contents of [`ClientOptions`].
#[verifier::ext_equal]
pub struct OptionsView {
    pub dns_servers: Seq<Ipv4Addr>,
    pub search_domains: Seq<Seq<char>>,
    pub mtu: Option<u16>,
    pub persistent_keepalive: Option<u16>,
}

/// The contents of a [`ClientPeer`].
#[verifier::ext_equal]
pub struct ClientPeerView {
    pub site_id: Uuid,
    pub site_name: Seq<char>,
    pub public_key: Seq<char>,
    pub endpoint: Seq<char>,
    pub allowed_ips: Seq<Ipv4Net>,
}

/// The contents of a [`ConfigChange`].
#[verifier::ext_equal]
pub struct ChangeView {
    pub kind: ConfigChangeKind,
    pub site_id: Option<Uuid>,
    pub description: Seq<char>,
}

impl View for ClientOptions {
    type V = OptionsView;

    open spec fn view(&self) -> OptionsView {
        OptionsView {
            dns_servers: self.dns_servers@,
            search_domains: texts(self.search_domains@),
            mtu: self.mtu,
            persistent_keepalive: self.persistent_keepalive,
        }
    }
}

impl View for ClientPeer {
    type V = ClientPeerView;

    open spec fn view(&self) -> ClientPeerView {
        ClientPeerView {
            site_id: self.site_id,
            site_name: self.site_name@,
            public_key: self.public_key@,
            endpoint: self.endpoint@,
            allowed_ips: self.allowed_ips@,
        }
    }
}

impl View for ConfigChange {
    type V = ChangeView;

    open spec fn view(&self) -> ChangeView {
        ChangeView { kind: self.kind, site_id: self.site_id, description: self.description@ }
    }
}

impl Default for ClientOptions {
    fn default() -> (r: Self)
        ensures
            r.dns_servers@.len() == 0,
            r.search_domains@.len() == 0,
            r.mtu is None,
            r.persistent_keepalive is None,
    {
        ClientOptions {
            dns_servers: Vec::new(),
            search_domains: Vec::new(),
            mtu: None,
            persistent_keepalive: None,
        }
    }
}

impl ConfigError {
    /// What the error says.
    pub open spec fn text(self) -> Seq<char> {
        match self {
            ConfigError::InvalidPublicKey => "public key must be base64-encoded 32 bytes"@,
            ConfigError::PeerWithoutRoutes(name) => "peer "@ + name@ + " has no routes"@,
        }
    }

    /// What the error says.
    pub fn message(&self) -> (r: String)
        ensures
            r@ == self.text(),
    {
        match self {
            ConfigError::InvalidPublicKey => String::from_str(
                "public key must be base64-encoded 32 bytes",
            ),
            ConfigError::PeerWithoutRoutes(name) => {
                let mut out = String::from_str("peer ");
                out.append(name.as_str());
                out.append(" has no routes");
                out
            },
        }
    }
}

/// Whether a text is the base64 form of 32 bytes.
pub open spec fn is_public_key(s: Seq<char>) -> bool {
    base64_bytes(encode_utf8(s)) is Some && base64_bytes(encode_utf8(s))->0.len() == 32
}

/// A WireGuard public key is the base64 form of 32 bytes.
pub fn validate_wireguard_public_key(value: &str) -> (r: Result<(), ConfigError>)
    ensures
        r is Ok <==> is_public_key(value@),
        r matches Err(error) ==> error is InvalidPublicKey,
{
    check_key_bytes(base64_decode(value.as_bytes()))
}

/// Decides on a public key by what it decodes to.
pub fn check_key_bytes(decoded: Option<Vec<u8>>) -> (r: Result<(), ConfigError>)
    ensures
        r is Ok <==> decoded is Some && decoded->0@.len() == 32,
        r matches Err(error) ==> error is InvalidPublicKey,
{
    match decoded {
        Some(bytes) => if bytes.len() == 32 {
            Ok(())
        } else {
            Err(ConfigError::InvalidPublicKey)
        },
        None => Err(ConfigError::InvalidPublicKey),
    }
}

impl<'a> Ranked for &'a ClientPeer {
    open spec fn no_later(self, other: Self) -> bool {
        let (a, b) = (lowercased(self.site_name@), lowercased(other.site_name@));
        if a == b {
            self.site_id <= other.site_id
        } else {
            text_no_later(a, b)
        }
    }

    proof fn lemma_total(a: Self, b: Self) {
        lemma_text_order_total(lowercased(a.site_name@), lowercased(b.site_name@));
    }

    proof fn lemma_transitive(a: Self, b: Self, c: Self) {
        let (x, y, z) = (
            lowercased(a.site_name@),
            lowercased(b.site_name@),
            lowercased(c.site_name@),
        );
        if x != y && y != z {
            lemma_text_order_transitive(x, y, z);
            if x == z {
                lemma_text_order_antisymmetric(x, y);
            }
        }
    }
}

impl<'a> Sortable for &'a ClientPeer {
    fn is_no_later(&self, other: &Self) -> bool {
        let a = to_lowercase(self.site_name.as_str());
        let b = to_lowercase(other.site_name.as_str());
        if same_text(a.as_str(), b.as_str()) {
            self.site_id <= other.site_id
        } else {
            is_text_no_later(a.as_str(), b.as_str())
        }
    }
}

/// The texts of some networks.
pub open spec fn network_texts(nets: Seq<Ipv4Net>) -> Seq<Seq<char>> {
    nets.map_values(|n: Ipv4Net| n.text())
}

/// The texts of some addresses.
pub open spec fn address_texts(addresses: Seq<Ipv4Addr>) -> Seq<Seq<char>> {
    addresses.map_values(|a: Ipv4Addr| address_text(a))
}

/// The texts of some networks.
pub fn networks_to_texts(nets: &[Ipv4Net]) -> (r: Vec<String>)
    ensures
        texts(r@) == network_texts(nets@),
        forall|i: int| 0 <= i < nets@.len() ==> (#[trigger] nets@[i]).wf(),
{
    let mut out: Vec<String> = Vec::new();
    let mut i: usize = 0;
    while i < nets.len()
        invariant
            i <= nets@.len(),
            forall|k: int| 0 <= k < i ==> (#[trigger] nets@[k]).wf(),
            texts(out@) =~= network_texts(nets@).take(i as int),
        decreases nets@.len() - i,
    {
        push_text(&mut out, nets[i].to_text());
        assert(network_texts(nets@).take(i + 1) =~= network_texts(nets@).take(i as int).push(
            nets@[i as int].text(),
        ));
        i = i + 1;
    }
    out
}

/// The texts of some addresses.
pub fn addresses_to_texts(addresses: &[Ipv4Addr]) -> (r: Vec<String>)
    ensures
        texts(r@) == address_texts(addresses@),
{
    let mut out: Vec<String> = Vec::new();
    let mut i: usize = 0;
    while i < addresses.len()
        invariant
            i <= addresses@.len(),
            texts(out@) =~= address_texts(addresses@).take(i as int),
        decreases addresses@.len() - i,
    {
        push_text(&mut out, address_to_text(addresses[i]));
        assert(address_texts(addresses@).take(i + 1) =~= address_texts(addresses@).take(
            i as int,
        ).push(address_text(addresses@[i as int])));
        i = i + 1;
    }
    out
}

/// Some texts without their line breaks.
pub open spec fn one_lines(parts: Seq<Seq<char>>) -> Seq<Seq<char>> {
    parts.map_values(|s: Seq<char>| one_line(s))
}

/// The line with the name servers and search domains, where there are any.
pub open spec fn dns_line(options: OptionsView) -> Seq<char> {
    if options.dns_servers.len() == 0 && options.search_domains.len() == 0 {
        Seq::empty()
    } else {
        "DNS = "@ + joined(
            address_texts(options.dns_servers) + one_lines(options.search_domains),
            ", "@,
        ) + "\n"@
    }
}

/// A line with a number, where there is one.
pub open spec fn number_line(label: Seq<char>, n: Option<u16>) -> Seq<char> {
    match n {
        Some(v) => label + decimal(v as nat) + "\n"@,
        None => Seq::empty(),
    }
}

/// The section of one gateway. No text of it can begin a line of its own.
pub open spec fn peer_section(peer: ClientPeerView, keepalive: Option<u16>) -> Seq<char> {
    "\n[Peer]\n"@ + "# "@ + one_line(peer.site_name) + "\n"@ + "PublicKey = "@ + one_line(
        peer.public_key,
    ) + "\n"@ + "Endpoint = "@ + one_line(peer.endpoint) + "\n"@ + "AllowedIPs = "@ + joined(
        network_texts(peer.allowed_ips),
        ", "@,
    ) + "\n"@ + number_line("PersistentKeepalive = "@, keepalive)
}

/// The sections of some gateways, one after another.
pub open spec fn peer_sections(peers: Seq<&ClientPeer>, keepalive: Option<u16>) -> Seq<char>
    decreases peers.len(),
{
    if peers.len() == 0 {
        Seq::empty()
    } else {
        peer_sections(peers.drop_last(), keepalive) + peer_section(peers.last()@, keepalive)
    }
}

/// The gateways in the order in which a profile lists them: by name without regard to case,
/// then by identifier.
pub open spec fn listed_order<'a>(peers: Seq<ClientPeer>) -> Seq<&'a ClientPeer> {
    stable_sorted(peers.map_values(|p: ClientPeer| &p))
}

/// The first section of a profile.
pub open spec fn interface_section(
    private_key: Seq<char>,
    address: Ipv4Addr,
    options: OptionsView,
) -> Seq<char> {
    "[Interface]\n"@ + "PrivateKey = "@ + private_key + "\n"@ + "Address = "@ + address_text(address)
        + "/32\n"@ + dns_line(options) + number_line("MTU = "@, options.mtu)
}

fn append_number_line(out: &mut String, label: &str, n: Option<u16>)
    ensures
        final(out)@ == old(out)@ + number_line(label@, n),
{
    match n {
        Some(v) => {
            out.append(label);
            out.append(decimal_text(v as u64).as_str());
            out.append("\n");
            assert(out@ =~= old(out)@ + number_line(label@, n));
        },
        None => {
            assert(out@ =~= old(out)@ + number_line(label@, n));
        },
    }
}

fn append_dns_line(out: &mut String, options: &ClientOptions)
    ensures
        final(out)@ == old(out)@ + dns_line(options@),
{
    if options.dns_servers.len() == 0 && options.search_domains.len() == 0 {
        assert(out@ =~= old(out)@ + dns_line(options@));
        return;
    }
    let mut values = addresses_to_texts(options.dns_servers.as_slice());
    let ghost servers = values@;
    let ghost domains = one_lines(texts(options.search_domains@));
    let mut i: usize = 0;
    while i < options.search_domains.len()
        invariant
            i <= options.search_domains@.len(),
            domains == one_lines(texts(options.search_domains@)),
            texts(values@) =~= texts(servers) + domains.take(i as int),
        decreases options.search_domains@.len() - i,
    {
        push_text(&mut values, without_line_breaks(options.search_domains[i].as_str()));
        assert(domains[i as int] == one_line(options.search_domains@[i as int]@));
        assert(domains.take(i + 1) =~= domains.take(i as int).push(domains[i as int]));
        i = i + 1;
    }
    assert(domains.take(i as int) =~= domains);
    out.append("DNS = ");
    out.append(join(values.as_slice(), ", ").as_str());
    out.append("\n");
    assert(out@ =~= old(out)@ + dns_line(options@));
}

fn append_peer_section(out: &mut String, peer: &ClientPeer, keepalive: Option<u16>)
    ensures
        final(out)@ == old(out)@ + peer_section(peer@, keepalive),
{
    out.append("\n[Peer]\n");
    out.append("# ");
    out.append(without_line_breaks(peer.site_name.as_str()).as_str());
    out.append("\n");
    out.append("PublicKey = ");
    out.append(without_line_breaks(peer.public_key.as_str()).as_str());
    out.append("\n");
    out.append("Endpoint = ");
    out.append(without_line_breaks(peer.endpoint.as_str()).as_str());
    out.append("\n");
    out.append("AllowedIPs = ");
    let routes = networks_to_texts(peer.allowed_ips.as_slice());
    out.append(join(routes.as_slice(), ", ").as_str());
    out.append("\n");
    append_number_line(out, "PersistentKeepalive = ", keepalive);
    assert(out@ =~= old(out)@ + peer_section(peer@, keepalive));
}

impl ClientConfigModel {
    /// Every gateway has a valid key and at least one route.
    pub open spec fn is_valid(self) -> bool {
        forall|i: int| 0 <= i < self.peers@.len() ==> peer_is_valid(#[trigger] self.peers@[i])
    }

    /// Checks each gateway's key and that it has routes.
    pub fn validate(&self) -> (r: Result<(), ConfigError>)
        ensures
            r is Ok <==> self.is_valid(),
            r matches Err(error) ==> exists|i: int|
                {
                    &&& 0 <= i < self.peers@.len()
                    &&& !peer_is_valid(#[trigger] self.peers@[i])
                    &&& forall|k: int| 0 <= k < i ==> peer_is_valid(#[trigger] self.peers@[k])
                    &&& !is_public_key(self.peers@[i].public_key@) ==> error is InvalidPublicKey
                    &&& is_public_key(self.peers@[i].public_key@) ==> (error matches
                        ConfigError::PeerWithoutRoutes(name) && name@ == self.peers@[i].site_name@)
                },
    {
        let mut i: usize = 0;
        while i < self.peers.len()
            invariant
                i <= self.peers@.len(),
                forall|k: int| 0 <= k < i ==> peer_is_valid(#[trigger] self.peers@[k]),
            decreases self.peers@.len() - i,
        {
            let peer = &self.peers[i];
            let key = validate_wireguard_public_key(peer.public_key.as_str());
            if key.is_err() {
                assert(!peer_is_valid(self.peers@[i as int]));
                return key;
            }
            if peer.allowed_ips.len() == 0 {
                assert(!peer_is_valid(self.peers@[i as int]));
                return Err(ConfigError::PeerWithoutRoutes(peer.site_name.clone()));
            }
            i = i + 1;
        }
        Ok(())
    }

    /// The profile as a WireGuard configuration file.
    pub open spec fn rendered(self, private_key: Option<Seq<char>>) -> Seq<char> {
        interface_section(
            match private_key {
                Some(key) => one_line(key),
                None => PRIVATE_KEY_PLACEHOLDER@,
            },
            self.address,
            self.options@,
        ) + peer_sections(listed_order(self.peers@), self.options.persistent_keepalive)
    }

    /// Renders the profile as a WireGuard configuration file, with a placeholder where no
    /// private key is given. Line breaks in texts are left out.
    pub fn render(&self, private_key: Option<&str>) -> (r: String)
        ensures
            r@ == self.rendered(
                match private_key {
                    Some(key) => Some(key@),
                    None => None,
                },
            ),
    {
        let key = match private_key {
            Some(key) => without_line_breaks(key),
            None => PRIVATE_KEY_PLACEHOLDER.to_owned(),
        };
        let mut out = String::new();
        out.append("[Interface]\n");
        out.append("PrivateKey = ");
        out.append(key.as_str());
        out.append("\n");
        out.append("Address = ");
        out.append(address_to_text(self.address).as_str());
        out.append("/32\n");
        append_dns_line(&mut out, &self.options);
        append_number_line(&mut out, "MTU = ", self.options.mtu);
        let ghost head = out@;
        assert(head =~= interface_section(key@, self.address, self.options@));

        let mut peers: Vec<&ClientPeer> = Vec::new();
        let mut i: usize = 0;
        let ghost all = self.peers@.map_values(|p: ClientPeer| &p);
        while i < self.peers.len()
            invariant
                i <= self.peers@.len(),
                all == self.peers@.map_values(|p: ClientPeer| &p),
                peers@ =~= all.take(i as int),
            decreases self.peers@.len() - i,
        {
            peers.push(&self.peers[i]);
            i = i + 1;
        }
        assert(peers@ =~= all);
        stable_sort(&mut peers);
        let keepalive = self.options.persistent_keepalive;
        let mut j: usize = 0;
        assert(peers@.take(0) =~= Seq::<&ClientPeer>::empty());
        assert(head + peer_sections(peers@.take(0), keepalive) =~= head);
        while j < peers.len()
            invariant
                j <= peers@.len(),
                out@ == head + peer_sections(peers@.take(j as int), keepalive),
            decreases peers@.len() - j,
        {
            let ghost next = peers@.take(j + 1);
            assert(next.drop_last() =~= peers@.take(j as int));
            append_peer_section(&mut out, peers[j], keepalive);
            assert(out@ =~= head + peer_sections(next, keepalive));
            j = j + 1;
        }
        assert(peers@.take(j as int) =~= peers@);
        out
    }
}

/// A gateway's key is valid and it has a route.
pub open spec fn peer_is_valid(peer: ClientPeer) -> bool {
    is_public_key(peer.public_key@) && peer.allowed_ips@.len() > 0
}

/// The options in JSON.
pub open spec fn options_json(options: OptionsView) -> Seq<char> {
    "{\"dns_servers\":"@ + json_array(all_quoted(address_texts(options.dns_servers)))
        + ",\"search_domains\":"@ + json_array(all_quoted(options.search_domains)) + ",\"mtu\":"@
        + json_opt_number(options.mtu) + ",\"persistent_keepalive\":"@ + json_opt_number(
        options.persistent_keepalive,
    ) + "}"@
}

/// One gateway in JSON.
pub open spec fn peer_json(peer: ClientPeerView) -> Seq<char> {
    "{\"site_id\":"@ + json_quoted(uuid_text(peer.site_id)) + ",\"site_name\":"@ + json_quoted(
        peer.site_name,
    ) + ",\"public_key\":"@ + json_quoted(peer.public_key) + ",\"endpoint\":"@ + json_quoted(
        peer.endpoint,
    ) + ",\"allowed_ips\":"@ + json_array(all_quoted(network_texts(peer.allowed_ips))) + "}"@
}

/// The contents of some gateways.
pub open spec fn peer_views(peers: Seq<ClientPeer>) -> Seq<ClientPeerView> {
    peers.map_values(|p: ClientPeer| p@)
}

/// A profile in JSON.
pub open spec fn profile_json(
    device_id: Uuid,
    device_name: Seq<char>,
    revision: Seq<char>,
    address: Ipv4Addr,
    options: OptionsView,
    peers: Seq<ClientPeerView>,
) -> Seq<char> {
    "{\"device_id\":"@ + json_quoted(uuid_text(device_id)) + ",\"device_name\":"@ + json_quoted(
        device_name,
    ) + ",\"revision\":"@ + revision + ",\"address\":"@ + json_quoted(address_text(address)) + ",\"options\":"@
        + options_json(options) + ",\"peers\":"@ + json_array(
        peers.map_values(|p: ClientPeerView| peer_json(p)),
    ) + "}"@
}

/// Client options in JSON.
pub fn options_to_json(options: &ClientOptions) -> (r: String)
    ensures
        r@ == options_json(options@),
{
    let mut out = String::from_str("{\"dns_servers\":");
    let servers = addresses_to_texts(options.dns_servers.as_slice());
    append_array(&mut out, quote_all(servers.as_slice()).as_slice());
    out.append(",\"search_domains\":");
    append_array(&mut out, quote_all(options.search_domains.as_slice()).as_slice());
    out.append(",\"mtu\":");
    out.append(json_optional(options.mtu).as_str());
    out.append(",\"persistent_keepalive\":");
    out.append(json_optional(options.persistent_keepalive).as_str());
    out.append("}");
    assert(out@ =~= options_json(options@));
    out
}

fn peer_to_json(peer: &ClientPeer) -> (r: String)
    ensures
        r@ == peer_json(peer@),
{
    let mut out = String::from_str("{\"site_id\":");
    out.append(json_string(uuid_to_text(peer.site_id).as_str()).as_str());
    out.append(",\"site_name\":");
    out.append(json_string(peer.site_name.as_str()).as_str());
    out.append(",\"public_key\":");
    out.append(json_string(peer.public_key.as_str()).as_str());
    out.append(",\"endpoint\":");
    out.append(json_string(peer.endpoint.as_str()).as_str());
    out.append(",\"allowed_ips\":");
    let routes = networks_to_texts(peer.allowed_ips.as_slice());
    append_array(&mut out, quote_all(routes.as_slice()).as_slice());
    out.append("}");
    assert(out@ =~= peer_json(peer@));
    out
}

impl ClientConfigModel {
    /// The profile in JSON with its revision left at zero.
    pub open spec fn semantic_text(self) -> Seq<char> {
        profile_json(
            self.device_id,
            self.device_name@,
            "0"@,
            self.address,
            self.options@,
            peer_views(self.peers@),
        )
    }

    /// The profile in JSON, as it is kept.
    pub open spec fn stored_text(self) -> Seq<char> {
        profile_json(
            self.device_id,
            self.device_name@,
            decimal(self.revision as nat),
            self.address,
            self.options@,
            peer_views(self.peers@),
        )
    }

    /// The digest by which two profiles are told apart; the revision does not enter it.
    pub fn fingerprint(&self) -> (r: String)
        ensures
            r@ == text_fingerprint(self.semantic_text()),
            r@.len() == 64,
    {
        fingerprint_text(self.to_json("0").as_str())
    }

    /// The profile in JSON, as it is kept.
    pub fn stored_json(&self) -> (r: String)
        ensures
            r@ == self.stored_text(),
    {
        self.to_json(decimal_text(self.revision).as_str())
    }

    fn to_json(&self, revision: &str) -> (r: String)
        ensures
            r@ == profile_json(
                self.device_id,
                self.device_name@,
                revision@,
                self.address,
                self.options@,
                peer_views(self.peers@),
            ),
    {
        let mut out = String::from_str("{\"device_id\":");
        out.append(json_string(uuid_to_text(self.device_id).as_str()).as_str());
        out.append(",\"device_name\":");
        out.append(json_string(self.device_name.as_str()).as_str());
        out.append(",\"revision\":");
        out.append(revision);
        out.append(",\"address\":");
        out.append(json_string(address_to_text(self.address).as_str()).as_str());
        out.append(",\"options\":");
        out.append(options_to_json(&self.options).as_str());
        out.append(",\"peers\":");
        let mut peers: Vec<String> = Vec::new();
        let mut i: usize = 0;
        let ghost goal = peer_views(self.peers@).map_values(|p: ClientPeerView| peer_json(p));
        while i < self.peers.len()
            invariant
                i <= self.peers@.len(),
                goal == peer_views(self.peers@).map_values(|p: ClientPeerView| peer_json(p)),
                texts(peers@) =~= goal.take(i as int),
            decreases self.peers@.len() - i,
        {
            push_text(&mut peers, peer_to_json(&self.peers[i]));
            assert(goal.take(i + 1) =~= goal.take(i as int).push(goal[i as int]));
            i = i + 1;
        }
        assert(goal.take(i as int) =~= goal);
        append_array(&mut out, peers.as_slice());
        out.append("}");
        assert(out@ =~= profile_json(
            self.device_id,
            self.device_name@,
            revision@,
            self.address,
            self.options@,
            peer_views(self.peers@),
        ));
        out
    }

    /// What changed for the client from this profile to `current`.
    pub open spec fn changes_to(self, current: Self) -> Seq<ChangeView> {
        address_change(self.address, current.address) + options_change(
            self.options@,
            current.options@,
        ) + lost_or_changed(self.peers@, current.peers@) + gained(self.peers@, current.peers@)
    }

    /// What changed for the client from this profile to `current`: the address, the options,
    /// the sites that went or changed, then the sites that came.
    pub fn diff(&self, current: &Self) -> (r: Vec<ConfigChange>)
        ensures
            change_views(r@) == self.changes_to(*current),
    {
        let mut changes: Vec<ConfigChange> = Vec::new();
        if self.address != current.address {
            let mut description = String::from_str("address changed from ");
            description.append(address_to_text(self.address).as_str());
            description.append(" to ");
            description.append(address_to_text(current.address).as_str());
            push_change(&mut changes, ConfigChangeKind::Address, None, description);
        }
        assert(change_views(changes@) =~= address_change(self.address, current.address));
        if !same_options(&self.options, &current.options) {
            push_change(
                &mut changes,
                ConfigChangeKind::Options,
                None,
                String::from_str("global client options changed"),
            );
        }
        let ghost head = address_change(self.address, current.address) + options_change(
            self.options@,
            current.options@,
        );
        assert(change_views(changes@) =~= head);
        let mut i: usize = 0;
        assert(self.peers@.take(0) =~= Seq::<ClientPeer>::empty());
        assert(head + lost_or_changed(self.peers@.take(0), current.peers@) =~= head);
        while i < self.peers.len()
            invariant
                i <= self.peers@.len(),
                change_views(changes@) == head + lost_or_changed(
                    self.peers@.take(i as int),
                    current.peers@,
                ),
            decreases self.peers@.len() - i,
        {
            let old_peer = &self.peers[i];
            let ghost next = self.peers@.take(i + 1);
            let ghost before = change_views(changes@);
            assert(next.drop_last() =~= self.peers@.take(i as int));
            match find_site(current.peers.as_slice(), old_peer.site_id) {
                None => {
                    let mut description = String::from_str("site ");
                    description.append(old_peer.site_name.as_str());
                    description.append(" was removed");
                    push_change(
                        &mut changes,
                        ConfigChangeKind::PeerRemoved,
                        Some(old_peer.site_id),
                        description,
                    );
                },
                Some(k) => {
                    if !same_peer(&current.peers[k], old_peer) {
                        let mut description = String::from_str("site ");
                        description.append(old_peer.site_name.as_str());
                        description.append(" peer settings changed");
                        push_change(
                            &mut changes,
                            ConfigChangeKind::PeerChanged,
                            Some(old_peer.site_id),
                            description,
                        );
                    }
                },
            }
            assert(change_views(changes@) =~= before + fate_of(*old_peer, current.peers@));
            assert(change_views(changes@) =~= head + lost_or_changed(next, current.peers@));
            i = i + 1;
        }
        assert(self.peers@.take(i as int) =~= self.peers@);
        let ghost body = change_views(changes@);
        let mut j: usize = 0;
        assert(current.peers@.take(0) =~= Seq::<ClientPeer>::empty());
        assert(body + gained(self.peers@, current.peers@.take(0)) =~= body);
        while j < current.peers.len()
            invariant
                j <= current.peers@.len(),
                change_views(changes@) == body + gained(self.peers@, current.peers@.take(j as int)),
            decreases current.peers@.len() - j,
        {
            let new_peer = &current.peers[j];
            let ghost next = current.peers@.take(j + 1);
            let ghost before = change_views(changes@);
            assert(next.drop_last() =~= current.peers@.take(j as int));
            if find_site(self.peers.as_slice(), new_peer.site_id).is_none() {
                let mut description = String::from_str("site ");
                description.append(new_peer.site_name.as_str());
                description.append(" was added");
                push_change(
                    &mut changes,
                    ConfigChangeKind::PeerAdded,
                    Some(new_peer.site_id),
                    description,
                );
            }
            assert(change_views(changes@) =~= body + gained(self.peers@, next));
            j = j + 1;
        }
        assert(current.peers@.take(j as int) =~= current.peers@);
        changes
    }
}

/// The contents of some changes.
pub open spec fn change_views(changes: Seq<ConfigChange>) -> Seq<ChangeView> {
    changes.map_values(|c: ConfigChange| c@)
}

fn push_change(
    changes: &mut Vec<ConfigChange>,
    kind: ConfigChangeKind,
    site_id: Option<Uuid>,
    description: String,
)
    ensures
        change_views(final(changes)@) == change_views(old(changes)@).push(
            (ChangeView { kind, site_id, description: description@ }),
        ),
{
    let ghost text = description@;
    changes.push(ConfigChange { kind, site_id, description });
    assert(change_views(changes@) =~= change_views(old(changes)@).push(
        ChangeView { kind, site_id, description: text },
    ));
}

/// The change of an address, if it is one.
pub open spec fn address_change(old_address: Ipv4Addr, new_address: Ipv4Addr) -> Seq<ChangeView> {
    if old_address == new_address {
        Seq::empty()
    } else {
        seq![
            ChangeView {
                kind: ConfigChangeKind::Address,
                site_id: None,
                description: "address changed from "@ + address_text(old_address) + " to "@
                    + address_text(new_address),
            },
        ]
    }
}

/// The change of the options, if it is one.
pub open spec fn options_change(
    old_options: OptionsView,
    new_options: OptionsView,
) -> Seq<ChangeView> {
    if old_options == new_options {
        Seq::empty()
    } else {
        seq![
            ChangeView {
                kind: ConfigChangeKind::Options,
                site_id: None,
                description: "global client options changed"@,
            },
        ]
    }
}

/// The first gateway of a site.
pub open spec fn site_place(peers: Seq<ClientPeer>, site_id: Uuid) -> Option<int>
    decreases peers.len(),
{
    if peers.len() == 0 {
        None
    } else {
        match site_place(peers.drop_last(), site_id) {
            Some(i) => Some(i),
            None => if peers.last().site_id == site_id {
                Some(peers.len() - 1)
            } else {
                None
            },
        }
    }
}

/// What became of one site: nothing, a change or its removal.
pub open spec fn fate_of(peer: ClientPeer, current: Seq<ClientPeer>) -> Seq<ChangeView> {
    match site_place(current, peer.site_id) {
        None => seq![
            ChangeView {
                kind: ConfigChangeKind::PeerRemoved,
                site_id: Some(peer.site_id),
                description: "site "@ + peer.site_name@ + " was removed"@,
            },
        ],
        Some(i) => if current[i]@ == peer@ {
            Seq::empty()
        } else {
            seq![
                ChangeView {
                    kind: ConfigChangeKind::PeerChanged,
                    site_id: Some(peer.site_id),
                    description: "site "@ + peer.site_name@ + " peer settings changed"@,
                },
            ]
        },
    }
}

/// What became of the old sites, in their order.
pub open spec fn lost_or_changed(old_peers: Seq<ClientPeer>, current: Seq<ClientPeer>) -> Seq<
    ChangeView,
>
    decreases old_peers.len(),
{
    if old_peers.len() == 0 {
        Seq::empty()
    } else {
        lost_or_changed(old_peers.drop_last(), current) + fate_of(old_peers.last(), current)
    }
}

/// The sites that came, in their order.
pub open spec fn gained(old_peers: Seq<ClientPeer>, current: Seq<ClientPeer>) -> Seq<ChangeView>
    decreases current.len(),
{
    if current.len() == 0 {
        Seq::empty()
    } else if site_place(old_peers, current.last().site_id) is None {
        gained(old_peers, current.drop_last()).push(
            ChangeView {
                kind: ConfigChangeKind::PeerAdded,
                site_id: Some(current.last().site_id),
                description: "site "@ + current.last().site_name@ + " was added"@,
            },
        )
    } else {
        gained(old_peers, current.drop_last())
    }
}

fn find_site(peers: &[ClientPeer], site_id: Uuid) -> (r: Option<usize>)
    ensures
        match r {
            Some(i) => site_place(peers@, site_id) == Some(i as int) && i < peers@.len(),
            None => site_place(peers@, site_id) is None,
        },
{
    let mut i: usize = 0;
    while i < peers.len()
        invariant
            i <= peers@.len(),
            site_place(peers@.take(i as int), site_id) is None,
        decreases peers@.len() - i,
    {
        let ghost next = peers@.take(i + 1);
        assert(next.drop_last() =~= peers@.take(i as int));
        if peers[i].site_id == site_id {
            proof {
                lemma_site_place_extends(peers@, site_id, i + 1);
            }
            return Some(i);
        }
        i = i + 1;
    }
    assert(peers@.take(i as int) =~= peers@);
    None
}

proof fn lemma_site_place_extends(peers: Seq<ClientPeer>, site_id: Uuid, n: int)
    requires
        0 <= n <= peers.len(),
        site_place(peers.take(n), site_id) is Some,
    ensures
        site_place(peers, site_id) == site_place(peers.take(n), site_id),
    decreases peers.len() - n,
{
    if n < peers.len() {
        assert(peers.take(n + 1).drop_last() =~= peers.take(n));
        lemma_site_place_extends(peers, site_id, n + 1);
    } else {
        assert(peers.take(n) =~= peers);
    }
}

fn same_networks(a: &[Ipv4Net], b: &[Ipv4Net]) -> (r: bool)
    ensures
        r == (a@ == b@),
{
    if a.len() != b.len() {
        return false;
    }
    let mut i: usize = 0;
    while i < a.len()
        invariant
            i <= a@.len() == b@.len(),
            forall|k: int| 0 <= k < i ==> a@[k] == b@[k],
        decreases a@.len() - i,
    {
        if a[i] != b[i] {
            assert(a@[i as int] != b@[i as int]);
            return false;
        }
        i = i + 1;
    }
    assert(a@ =~= b@);
    true
}

fn same_addresses(a: &[Ipv4Addr], b: &[Ipv4Addr]) -> (r: bool)
    ensures
        r == (a@ == b@),
{
    if a.len() != b.len() {
        return false;
    }
    let mut i: usize = 0;
    while i < a.len()
        invariant
            i <= a@.len() == b@.len(),
            forall|k: int| 0 <= k < i ==> a@[k] == b@[k],
        decreases a@.len() - i,
    {
        if a[i] != b[i] {
            assert(a@[i as int] != b@[i as int]);
            return false;
        }
        i = i + 1;
    }
    assert(a@ =~= b@);
    true
}

fn same_texts(a: &[String], b: &[String]) -> (r: bool)
    ensures
        r == (texts(a@) == texts(b@)),
{
    if a.len() != b.len() {
        assert(texts(a@).len() != texts(b@).len());
        return false;
    }
    let mut i: usize = 0;
    while i < a.len()
        invariant
            i <= a@.len() == b@.len(),
            forall|k: int| 0 <= k < i ==> a@[k]@ == b@[k]@,
        decreases a@.len() - i,
    {
        if !same_text(a[i].as_str(), b[i].as_str()) {
            assert(texts(a@)[i as int] != texts(b@)[i as int]);
            return false;
        }
        i = i + 1;
    }
    assert(texts(a@) =~= texts(b@));
    true
}

/// Whether two sets of options are the same.
pub fn same_options(a: &ClientOptions, b: &ClientOptions) -> (r: bool)
    ensures
        r == (a@ == b@),
{
    same_addresses(a.dns_servers.as_slice(), b.dns_servers.as_slice()) && same_texts(
        a.search_domains.as_slice(),
        b.search_domains.as_slice(),
    ) && a.mtu == b.mtu && a.persistent_keepalive == b.persistent_keepalive
}

/// Whether two gateways are the same to a client.
pub fn same_peer(a: &ClientPeer, b: &ClientPeer) -> (r: bool)
    ensures
        r == (a@ == b@),
{
    a.site_id == b.site_id && same_text(a.site_name.as_str(), b.site_name.as_str()) && same_text(
        a.public_key.as_str(),
        b.public_key.as_str(),
    ) && same_text(a.endpoint.as_str(), b.endpoint.as_str()) && same_networks(
        a.allowed_ips.as_slice(),
        b.allowed_ips.as_slice(),
    )
}

/// A profile that was rendered without a private key holds the placeholder in its place.
pub proof fn law_placeholder_is_rendered(model: ClientConfigModel)
    ensures
        occurs_in("PrivateKey = "@ + PRIVATE_KEY_PLACEHOLDER@ + "\n"@, model.rendered(None)),
{
    let needle = "PrivateKey = "@ + PRIVATE_KEY_PLACEHOLDER@ + "\n"@;
    let text = model.rendered(None);
    let from = "[Interface]\n"@.len() as int;
    assert(text.subrange(from, from + needle.len()) =~= needle);
}

/// What a line of a profile can begin with, besides the headings, the names of sites and the empty
/// lines.
pub open spec fn profile_keys() -> Seq<Seq<char>> {
    seq![
        "PrivateKey = "@,
        "Address = "@,
        "DNS = "@,
        "MTU = "@,
        "PublicKey = "@,
        "Endpoint = "@,
        "AllowedIPs = "@,
        "PersistentKeepalive = "@,
    ]
}

/// Whether a line is one of those that a profile consists of.
pub open spec fn is_profile_line(line: Seq<char>) -> bool {
    ||| line.len() == 0
    ||| line == "[Interface]"@
    ||| line == "[Peer]"@
    ||| "# "@.is_prefix_of(line)
    ||| exists|k: int|
        0 <= k < profile_keys().len() && (#[trigger] profile_keys()[k]).is_prefix_of(line)
}

/// Whether some lines are of those that a profile consists of, each on its line.
spec fn are_profile_lines(lines: Seq<Seq<char>>) -> bool {
    forall|i: int|
        0 <= i < lines.len() ==> is_profile_line(#[trigger] lines[i]) && stays_on_line(lines[i])
}

proof fn lemma_profile_line(k: int, value: Seq<char>)
    requires
        0 <= k < profile_keys().len(),
        stays_on_line(value),
    ensures
        is_profile_line(profile_keys()[k] + value),
        stays_on_line(profile_keys()[k] + value),
{
    reveal_strlit("PrivateKey = ");
    reveal_strlit("Address = ");
    reveal_strlit("DNS = ");
    reveal_strlit("MTU = ");
    reveal_strlit("PublicKey = ");
    reveal_strlit("Endpoint = ");
    reveal_strlit("AllowedIPs = ");
    reveal_strlit("PersistentKeepalive = ");
    let key = profile_keys()[k];
    assert(stays_on_line(key));
    assert(key.is_prefix_of(key + value)) by {
        assert((key + value).subrange(0, key.len() as int) =~= key);
    }
}

proof fn lemma_address_on_line(address: Ipv4Addr)
    ensures
        stays_on_line(address_text(address)),
{
    let a = address as nat;
    lemma_decimal_on_line(a / 0x100_0000);
    lemma_decimal_on_line((a / 0x1_0000) % 0x100);
    lemma_decimal_on_line((a / 0x100) % 0x100);
    lemma_decimal_on_line(a % 0x100);
}

proof fn lemma_network_on_line(network: Ipv4Net)
    ensures
        stays_on_line(network.text()),
{
    lemma_address_on_line(network.base());
    lemma_decimal_on_line(network.bits() as nat);
}

/// The line with a number, where there is one.
spec fn number_lines(k: int, n: Option<u16>) -> Seq<Seq<char>> {
    match n {
        Some(v) => seq![profile_keys()[k] + decimal(v as nat)],
        None => Seq::empty(),
    }
}

proof fn lemma_number_lines(k: int, n: Option<u16>)
    requires
        0 <= k < profile_keys().len(),
    ensures
        are_profile_lines(number_lines(k, n)),
        terminated(number_lines(k, n)) == number_line(profile_keys()[k], n),
{
    reveal_strlit("\n");
    assert("\n"@ =~= seq!['\n']);
    if let Some(v) = n {
        lemma_decimal_on_line(v as nat);
        lemma_profile_line(k, decimal(v as nat));
        let none = Seq::<Seq<char>>::empty();
        let line = profile_keys()[k] + decimal(v as nat);
        lemma_terminated_push(none, line);
        assert(none.push(line) =~= number_lines(k, n));
        assert(terminated(none) =~= Seq::<char>::empty());
        assert(terminated(number_lines(k, n)) =~= number_line(profile_keys()[k], n));
    }
}

/// The line with the name servers and search domains, where there are any.
spec fn dns_lines(options: OptionsView) -> Seq<Seq<char>> {
    if options.dns_servers.len() == 0 && options.search_domains.len() == 0 {
        Seq::empty()
    } else {
        seq![
            "DNS = "@ + joined(
                address_texts(options.dns_servers) + one_lines(options.search_domains),
                ", "@,
            ),
        ]
    }
}

proof fn lemma_dns_lines(options: OptionsView)
    ensures
        are_profile_lines(dns_lines(options)),
        terminated(dns_lines(options)) == dns_line(options),
{
    reveal_strlit("\n");
    reveal_strlit(", ");
    assert("\n"@ =~= seq!['\n']);
    if options.dns_servers.len() > 0 || options.search_domains.len() > 0 {
        let parts = address_texts(options.dns_servers) + one_lines(options.search_domains);
        assert forall|i: int| 0 <= i < parts.len() implies stays_on_line(#[trigger] parts[i]) by {
            if i < options.dns_servers.len() {
                lemma_address_on_line(options.dns_servers[i]);
            } else {
                lemma_one_line(options.search_domains[i - options.dns_servers.len()]);
            }
        }
        lemma_joined_on_line(parts, ", "@);
        let value = joined(parts, ", "@);
        lemma_profile_line(2, value);
        let none = Seq::<Seq<char>>::empty();
        lemma_terminated_push(none, "DNS = "@ + value);
        assert(none.push("DNS = "@ + value) =~= dns_lines(options));
        assert(terminated(none) =~= Seq::<char>::empty());
        assert(terminated(dns_lines(options)) =~= dns_line(options));
    }
}

proof fn lemma_interface_lines(key: Seq<char>, address: Ipv4Addr, options: OptionsView) -> (lines: Seq<
    Seq<char>,
>)
    requires
        stays_on_line(key),
    ensures
        are_profile_lines(lines),
        terminated(lines) == interface_section(key, address, options),
{
    reveal_strlit("\n");
    reveal_strlit("[Interface]\n");
    reveal_strlit("[Interface]");
    reveal_strlit("/32\n");
    reveal_strlit("/32");
    assert("\n"@ =~= seq!['\n']);
    assert("[Interface]\n"@ =~= "[Interface]"@ + seq!['\n']);
    assert("/32\n"@ =~= "/32"@ + seq!['\n']);
    lemma_address_on_line(address);
    lemma_profile_line(0, key);
    lemma_profile_line(1, address_text(address) + "/32"@);
    let none = Seq::<Seq<char>>::empty();
    let second = "PrivateKey = "@ + key;
    let third = "Address = "@ + (address_text(address) + "/32"@);
    let head = none.push("[Interface]"@).push(second).push(third);
    lemma_terminated_push(none, "[Interface]"@);
    lemma_terminated_push(none.push("[Interface]"@), second);
    lemma_terminated_push(none.push("[Interface]"@).push(second), third);
    lemma_dns_lines(options);
    lemma_number_lines(3, options.mtu);
    let lines = head + dns_lines(options) + number_lines(3, options.mtu);
    lemma_terminated_add(head, dns_lines(options));
    lemma_terminated_add(head + dns_lines(options), number_lines(3, options.mtu));
    assert(terminated(none) =~= Seq::<char>::empty());
    assert(terminated(lines) =~= interface_section(key, address, options));
    lines
}

proof fn lemma_peer_lines(peer: ClientPeerView, keepalive: Option<u16>) -> (lines: Seq<Seq<char>>)
    ensures
        are_profile_lines(lines),
        terminated(lines) == peer_section(peer, keepalive),
{
    reveal_strlit("\n");
    reveal_strlit("# ");
    reveal_strlit(", ");
    reveal_strlit("[Peer]");
    reveal_strlit("\n[Peer]\n");
    assert("\n"@ =~= seq!['\n']);
    assert("\n[Peer]\n"@ =~= seq!['\n'] + "[Peer]"@ + seq!['\n']);
    lemma_one_line(peer.site_name);
    lemma_one_line(peer.public_key);
    lemma_one_line(peer.endpoint);
    let routes = network_texts(peer.allowed_ips);
    assert forall|i: int| 0 <= i < routes.len() implies stays_on_line(#[trigger] routes[i]) by {
        lemma_network_on_line(peer.allowed_ips[i]);
    }
    lemma_joined_on_line(routes, ", "@);
    let name = "# "@ + one_line(peer.site_name);
    assert("# "@.is_prefix_of(name)) by {
        assert(name.subrange(0, 2) =~= "# "@);
    }
    lemma_profile_line(4, one_line(peer.public_key));
    lemma_profile_line(5, one_line(peer.endpoint));
    lemma_profile_line(6, joined(routes, ", "@));
    let none = Seq::<Seq<char>>::empty();
    let one = none.push(Seq::<char>::empty());
    let two = one.push("[Peer]"@);
    let three = two.push(name);
    let four = three.push("PublicKey = "@ + one_line(peer.public_key));
    let five = four.push("Endpoint = "@ + one_line(peer.endpoint));
    let six = five.push("AllowedIPs = "@ + joined(routes, ", "@));
    lemma_terminated_push(none, Seq::<char>::empty());
    lemma_terminated_push(one, "[Peer]"@);
    lemma_terminated_push(two, name);
    lemma_terminated_push(three, "PublicKey = "@ + one_line(peer.public_key));
    lemma_terminated_push(four, "Endpoint = "@ + one_line(peer.endpoint));
    lemma_terminated_push(five, "AllowedIPs = "@ + joined(routes, ", "@));
    lemma_number_lines(7, keepalive);
    let lines = six + number_lines(7, keepalive);
    lemma_terminated_add(six, number_lines(7, keepalive));
    assert(terminated(none) =~= Seq::<char>::empty());
    assert(terminated(lines) =~= peer_section(peer, keepalive));
    lines
}

proof fn lemma_sections_lines(peers: Seq<&ClientPeer>, keepalive: Option<u16>) -> (lines: Seq<
    Seq<char>,
>)
    ensures
        are_profile_lines(lines),
        terminated(lines) == peer_sections(peers, keepalive),
    decreases peers.len(),
{
    if peers.len() == 0 {
        Seq::empty()
    } else {
        let before = lemma_sections_lines(peers.drop_last(), keepalive);
        let last = lemma_peer_lines(peers.last()@, keepalive);
        lemma_terminated_add(before, last);
        before + last
    }
}

/// Whatever its texts hold, a profile consists of known lines: headings, names of sites behind
/// `# `, settings by their keys, and empty lines. No text can add a line of its own.
pub proof fn law_profiles_hold_known_lines(model: ClientConfigModel, private_key: Option<Seq<char>>)
    ensures
        forall|i: int|
            0 <= i < lines_of(model.rendered(private_key)).len() ==> is_profile_line(
                #[trigger] lines_of(model.rendered(private_key))[i],
            ),
{
    reveal_strlit("<CLIENT_PRIVATE_KEY>");
    let key = match private_key {
        Some(key) => one_line(key),
        None => PRIVATE_KEY_PLACEHOLDER@,
    };
    assert(stays_on_line(key)) by {
        if let Some(k) = private_key {
            lemma_one_line(k);
        }
    }
    let head = lemma_interface_lines(key, model.address, model.options@);
    let rest = lemma_sections_lines(
        listed_order(model.peers@),
        model.options.persistent_keepalive,
    );
    lemma_terminated_add(head, rest);
    lemma_lines_of_terminated(head + rest);
}

/// The revision does not enter a profile's digest.
pub proof fn law_fingerprint_ignores_revision(a: ClientConfigModel, b: ClientConfigModel)
    requires
        a.device_id == b.device_id,
        a.device_name@ == b.device_name@,
        a.address == b.address,
        a.options@ == b.options@,
        peer_views(a.peers@) == peer_views(b.peers@),
    ensures
        text_fingerprint(a.semantic_text()) == text_fingerprint(b.semantic_text()),
{
}

/// Each site has one gateway in the profile.
pub open spec fn sites_are_distinct(peers: Seq<ClientPeer>) -> bool {
    forall|i: int, j: int|
        0 <= i < j < peers.len() ==> (#[trigger] peers[i]).site_id != (
        #[trigger] peers[j]).site_id
}

proof fn lemma_site_place(peers: Seq<ClientPeer>, site_id: Uuid)
    ensures
        match site_place(peers, site_id) {
            Some(i) => 0 <= i < peers.len() && peers[i].site_id == site_id,
            None => forall|i: int|
                0 <= i < peers.len() ==> (#[trigger] peers[i]).site_id != site_id,
        },
    decreases peers.len(),
{
    if peers.len() > 0 {
        let d = peers.drop_last();
        lemma_site_place(d, site_id);
        assert(forall|i: int| 0 <= i < d.len() ==> d[i] == peers[i]);
    }
}

proof fn lemma_nothing_lost(old_peers: Seq<ClientPeer>, current: Seq<ClientPeer>)
    ensures
        lost_or_changed(old_peers, current).len() == 0 <==> forall|i: int|
            0 <= i < old_peers.len() ==> fate_of(#[trigger] old_peers[i], current).len() == 0,
    decreases old_peers.len(),
{
    if old_peers.len() > 0 {
        let d = old_peers.drop_last();
        lemma_nothing_lost(d, current);
        assert(forall|i: int| 0 <= i < d.len() ==> d[i] == old_peers[i]);
        assert(old_peers[old_peers.len() - 1] == old_peers.last());
    }
}

proof fn lemma_nothing_gained(old_peers: Seq<ClientPeer>, current: Seq<ClientPeer>)
    ensures
        gained(old_peers, current).len() == 0 <==> forall|i: int|
            0 <= i < current.len() ==> site_place(
                old_peers,
                (#[trigger] current[i]).site_id,
            ) is Some,
    decreases current.len(),
{
    if current.len() > 0 {
        let d = current.drop_last();
        lemma_nothing_gained(old_peers, d);
        assert(forall|i: int| 0 <= i < d.len() ==> d[i] == current[i]);
        assert(current[current.len() - 1] == current.last());
    }
}

/// The list of changes is empty exactly where the client would see none: the same address, the
/// same options, and site by site the same gateways.
pub proof fn law_no_changes_means_same_profile(a: ClientConfigModel, b: ClientConfigModel)
    requires
        sites_are_distinct(b.peers@),
    ensures
        a.changes_to(b).len() == 0 <==> {
            &&& a.address == b.address
            &&& a.options@ == b.options@
            &&& forall|i: int|
                0 <= i < a.peers@.len() ==> exists|j: int|
                    0 <= j < b.peers@.len() && (#[trigger] b.peers@[j])@ == (
                    #[trigger] a.peers@[i])@
            &&& forall|j: int|
                0 <= j < b.peers@.len() ==> exists|i: int|
                    0 <= i < a.peers@.len() && (#[trigger] a.peers@[i]).site_id == (
                    #[trigger] b.peers@[j]).site_id
        },
{
    lemma_nothing_lost(a.peers@, b.peers@);
    lemma_nothing_gained(a.peers@, b.peers@);
    assert forall|i: int| 0 <= i < a.peers@.len() implies (fate_of(
        #[trigger] a.peers@[i],
        b.peers@,
    ).len() == 0) == (exists|j: int|
        0 <= j < b.peers@.len() && (#[trigger] b.peers@[j])@ == a.peers@[i]@) by {
        lemma_site_place(b.peers@, a.peers@[i].site_id);
        if exists|j: int| 0 <= j < b.peers@.len() && (#[trigger] b.peers@[j])@ == a.peers@[i]@ {
            let j = choose|j: int|
                0 <= j < b.peers@.len() && (#[trigger] b.peers@[j])@ == a.peers@[i]@;
            assert(b.peers@[j].site_id == a.peers@[i].site_id);
        }
    }
    assert forall|j: int| 0 <= j < b.peers@.len() implies (site_place(
        a.peers@,
        (#[trigger] b.peers@[j]).site_id,
    ) is Some) == (exists|i: int|
        0 <= i < a.peers@.len() && (#[trigger] a.peers@[i]).site_id == b.peers@[j].site_id) by {
        lemma_site_place(a.peers@, b.peers@[j].site_id);
    }
}

/// The revision, the device and its name change nothing for the client.
pub proof fn law_changes_see_settings_only(
    a: ClientConfigModel,
    b: ClientConfigModel,
    c: ClientConfigModel,
)
    requires
        a.address == b.address,
        a.options@ == b.options@,
        a.peers@ == b.peers@,
    ensures
        a.changes_to(c) == b.changes_to(c),
        c.changes_to(a) == c.changes_to(b),
        sites_are_distinct(a.peers@) ==> a.changes_to(b).len() == 0,
{
    if sites_are_distinct(a.peers@) {
        law_no_changes_means_same_profile(a, b);
    }
}

/// Whether some changes hold one of a sort for a site, or for the profile as a whole.
pub open spec fn has_change(
    changes: Seq<ChangeView>,
    kind: ConfigChangeKind,
    site_id: Option<Uuid>,
) -> bool {
    exists|k: int|
        0 <= k < changes.len() && (#[trigger] changes[k]).kind == kind && changes[k].site_id
            == site_id
}

/// Whether a profile has a gateway of a site.
pub open spec fn has_site(peers: Seq<ClientPeer>, site_id: Uuid) -> bool {
    exists|i: int| 0 <= i < peers.len() && (#[trigger] peers[i]).site_id == site_id
}

/// Whether two profiles have different gateways of a site.
pub open spec fn site_differs(a: Seq<ClientPeer>, b: Seq<ClientPeer>, site_id: Uuid) -> bool {
    exists|i: int, j: int|
        {
            &&& 0 <= i < a.len()
            &&& 0 <= j < b.len()
            &&& (#[trigger] a[i]).site_id == site_id
            &&& (#[trigger] b[j]).site_id == site_id
            &&& a[i]@ != b[j]@
        }
}

proof fn lemma_has_change_add(
    a: Seq<ChangeView>,
    b: Seq<ChangeView>,
    kind: ConfigChangeKind,
    site_id: Option<Uuid>,
)
    ensures
        has_change(a + b, kind, site_id) <==> has_change(a, kind, site_id) || has_change(
            b,
            kind,
            site_id,
        ),
{
    let all = a + b;
    if has_change(a, kind, site_id) {
        let k = choose|k: int|
            0 <= k < a.len() && (#[trigger] a[k]).kind == kind && a[k].site_id == site_id;
        assert(all[k] == a[k]);
    }
    if has_change(b, kind, site_id) {
        let k = choose|k: int|
            0 <= k < b.len() && (#[trigger] b[k]).kind == kind && b[k].site_id == site_id;
        assert(all[a.len() + k] == b[k]);
    }
    if has_change(all, kind, site_id) {
        let k = choose|k: int|
            0 <= k < all.len() && (#[trigger] all[k]).kind == kind && all[k].site_id == site_id;
        if k < a.len() {
            assert(a[k] == all[k]);
        } else {
            assert(b[k - a.len()] == all[k]);
        }
    }
}

proof fn lemma_lost_or_changed(
    old_peers: Seq<ClientPeer>,
    current: Seq<ClientPeer>,
    kind: ConfigChangeKind,
    site_id: Option<Uuid>,
)
    ensures
        has_change(lost_or_changed(old_peers, current), kind, site_id) <==> exists|i: int|
            0 <= i < old_peers.len() && has_change(
                fate_of(#[trigger] old_peers[i], current),
                kind,
                site_id,
            ),
    decreases old_peers.len(),
{
    if old_peers.len() > 0 {
        let rest = old_peers.drop_last();
        lemma_lost_or_changed(rest, current, kind, site_id);
        lemma_has_change_add(
            lost_or_changed(rest, current),
            fate_of(old_peers.last(), current),
            kind,
            site_id,
        );
        assert(forall|i: int| 0 <= i < rest.len() ==> rest[i] == old_peers[i]);
        assert(old_peers[old_peers.len() - 1] == old_peers.last());
        if has_change(lost_or_changed(rest, current), kind, site_id) {
            let i = choose|i: int|
                0 <= i < rest.len() && has_change(
                    fate_of(#[trigger] rest[i], current),
                    kind,
                    site_id,
                );
            assert(has_change(fate_of(old_peers[i], current), kind, site_id));
        }
        if exists|i: int|
            0 <= i < old_peers.len() && has_change(
                fate_of(#[trigger] old_peers[i], current),
                kind,
                site_id,
            ) {
            let i = choose|i: int|
                0 <= i < old_peers.len() && has_change(
                    fate_of(#[trigger] old_peers[i], current),
                    kind,
                    site_id,
                );
            if i < rest.len() {
                assert(has_change(fate_of(rest[i], current), kind, site_id));
            }
        }
    }
}

proof fn lemma_gained(
    old_peers: Seq<ClientPeer>,
    current: Seq<ClientPeer>,
    kind: ConfigChangeKind,
    site_id: Option<Uuid>,
)
    ensures
        has_change(gained(old_peers, current), kind, site_id) <==> {
            &&& kind == ConfigChangeKind::PeerAdded
            &&& site_id matches Some(id) && !has_site(old_peers, id) && has_site(current, id)
        },
    decreases current.len(),
{
    if current.len() > 0 {
        let rest = current.drop_last();
        let last = current.last();
        lemma_gained(old_peers, rest, kind, site_id);
        lemma_site_place(old_peers, last.site_id);
        assert(forall|i: int| 0 <= i < rest.len() ==> rest[i] == current[i]);
        assert(current[current.len() - 1] == last);
        if let Some(id) = site_id {
            assert(has_site(current, id) <==> has_site(rest, id) || last.site_id == id) by {
                if has_site(rest, id) {
                    let i = choose|i: int| 0 <= i < rest.len() && (#[trigger] rest[i]).site_id == id;
                    assert(current[i].site_id == id);
                }
                if has_site(current, id) {
                    let i = choose|i: int|
                        0 <= i < current.len() && (#[trigger] current[i]).site_id == id;
                    if i < rest.len() {
                        assert(rest[i].site_id == id);
                    }
                }
            }
        }
        if site_place(old_peers, last.site_id) is None {
            let change = ChangeView {
                kind: ConfigChangeKind::PeerAdded,
                site_id: Some(last.site_id),
                description: "site "@ + last.site_name@ + " was added"@,
            };
            assert(gained(old_peers, current) =~= gained(old_peers, rest) + seq![change]);
            lemma_has_change_add(gained(old_peers, rest), seq![change], kind, site_id);
            assert(seq![change][0] == change);
        }
    }
}

/// What the changes from one profile to another hold for a site.
proof fn lemma_changes(a: ClientConfigModel, b: ClientConfigModel, site_id: Uuid)
    requires
        sites_are_distinct(a.peers@),
        sites_are_distinct(b.peers@),
    ensures
        has_change(a.changes_to(b), ConfigChangeKind::PeerAdded, Some(site_id)) <==> has_site(
            b.peers@,
            site_id,
        ) && !has_site(a.peers@, site_id),
        has_change(a.changes_to(b), ConfigChangeKind::PeerRemoved, Some(site_id)) <==> has_site(
            a.peers@,
            site_id,
        ) && !has_site(b.peers@, site_id),
        has_change(a.changes_to(b), ConfigChangeKind::PeerChanged, Some(site_id)) <==> site_differs(
            a.peers@,
            b.peers@,
            site_id,
        ),
        has_change(a.changes_to(b), ConfigChangeKind::Address, None) <==> a.address != b.address,
        has_change(a.changes_to(b), ConfigChangeKind::Options, None) <==> a.options@ != b.options@,
{
    let first = address_change(a.address, b.address);
    let second = options_change(a.options@, b.options@);
    let third = lost_or_changed(a.peers@, b.peers@);
    let fourth = gained(a.peers@, b.peers@);
    assert forall|kind: ConfigChangeKind, site: Option<Uuid>| #[trigger]
        has_change(a.changes_to(b), kind, site) <==> has_change(first, kind, site) || has_change(
            second,
            kind,
            site,
        ) || has_change(third, kind, site) || has_change(fourth, kind, site) by {
        lemma_has_change_add(first, second, kind, site);
        lemma_has_change_add(first + second, third, kind, site);
        lemma_has_change_add(first + second + third, fourth, kind, site);
    }
    assert forall|i: int, kind: ConfigChangeKind, site: Option<Uuid>|
        0 <= i < a.peers@.len() implies #[trigger] has_change(
        fate_of(a.peers@[i], b.peers@),
        kind,
        site,
    ) == {
        &&& site == Some(a.peers@[i].site_id)
        &&& if has_site(b.peers@, a.peers@[i].site_id) {
            kind == ConfigChangeKind::PeerChanged && site_differs(
                a.peers@,
                b.peers@,
                a.peers@[i].site_id,
            )
        } else {
            kind == ConfigChangeKind::PeerRemoved
        }
    } by {
        let peer = a.peers@[i];
        let fate = fate_of(peer, b.peers@);
        lemma_site_place(b.peers@, peer.site_id);
        if fate.len() > 0 {
            assert(fate[0].site_id == Some(peer.site_id));
        }
        if let Some(j) = site_place(b.peers@, peer.site_id) {
            assert(has_site(b.peers@, peer.site_id));
            if site_differs(a.peers@, b.peers@, peer.site_id) {
                let (m, n) = choose|m: int, n: int|
                    {
                        &&& 0 <= m < a.peers@.len()
                        &&& 0 <= n < b.peers@.len()
                        &&& (#[trigger] a.peers@[m]).site_id == peer.site_id
                        &&& (#[trigger] b.peers@[n]).site_id == peer.site_id
                        &&& a.peers@[m]@ != b.peers@[n]@
                    };
                assert(m == i);
                assert(n == j);
            }
        }
    }
    assert forall|kind: ConfigChangeKind, site: Option<Uuid>| #[trigger]
        has_change(third, kind, site) implies site is Some && (kind
        == ConfigChangeKind::PeerRemoved || kind == ConfigChangeKind::PeerChanged) by {
        lemma_lost_or_changed(a.peers@, b.peers@, kind, site);
    }
    lemma_lost_or_changed(a.peers@, b.peers@, ConfigChangeKind::PeerRemoved, Some(site_id));
    lemma_lost_or_changed(a.peers@, b.peers@, ConfigChangeKind::PeerChanged, Some(site_id));
    lemma_gained(a.peers@, b.peers@, ConfigChangeKind::PeerAdded, Some(site_id));
    lemma_gained(a.peers@, b.peers@, ConfigChangeKind::PeerRemoved, Some(site_id));
    lemma_gained(a.peers@, b.peers@, ConfigChangeKind::PeerChanged, Some(site_id));
    lemma_gained(a.peers@, b.peers@, ConfigChangeKind::Address, None);
    lemma_gained(a.peers@, b.peers@, ConfigChangeKind::Options, None);
    if a.address != b.address {
        assert(first[0].kind == ConfigChangeKind::Address);
    }
    if a.options@ != b.options@ {
        assert(second[0].kind == ConfigChangeKind::Options);
    }
    if has_site(a.peers@, site_id) && !has_site(b.peers@, site_id) {
        let i = choose|i: int| 0 <= i < a.peers@.len() && (#[trigger] a.peers@[i]).site_id == site_id;
        assert(has_change(
            fate_of(a.peers@[i], b.peers@),
            ConfigChangeKind::PeerRemoved,
            Some(site_id),
        ));
    }
    if site_differs(a.peers@, b.peers@, site_id) {
        let (i, j) = choose|i: int, j: int|
            {
                &&& 0 <= i < a.peers@.len()
                &&& 0 <= j < b.peers@.len()
                &&& (#[trigger] a.peers@[i]).site_id == site_id
                &&& (#[trigger] b.peers@[j]).site_id == site_id
                &&& a.peers@[i]@ != b.peers@[j]@
            };
        assert(has_change(
            fate_of(a.peers@[i], b.peers@),
            ConfigChangeKind::PeerChanged,
            Some(site_id),
        ));
    }
}

/// The changes from one profile to another mirror those back: what came one way went the other
/// way, what changed changed both ways, and a site came exactly where only the new profile has it.
pub proof fn law_changes_mirror(a: ClientConfigModel, b: ClientConfigModel, site_id: Uuid)
    requires
        sites_are_distinct(a.peers@),
        sites_are_distinct(b.peers@),
    ensures
        has_change(a.changes_to(b), ConfigChangeKind::PeerAdded, Some(site_id)) == has_change(
            b.changes_to(a),
            ConfigChangeKind::PeerRemoved,
            Some(site_id),
        ),
        has_change(a.changes_to(b), ConfigChangeKind::PeerAdded, Some(site_id)) == (has_site(
            b.peers@,
            site_id,
        ) && !has_site(a.peers@, site_id)),
        has_change(a.changes_to(b), ConfigChangeKind::PeerChanged, Some(site_id)) == has_change(
            b.changes_to(a),
            ConfigChangeKind::PeerChanged,
            Some(site_id),
        ),
        has_change(a.changes_to(b), ConfigChangeKind::PeerChanged, Some(site_id)) == site_differs(
            a.peers@,
            b.peers@,
            site_id,
        ),
        has_change(a.changes_to(b), ConfigChangeKind::Address, None) == (a.address != b.address),
        has_change(a.changes_to(b), ConfigChangeKind::Options, None) == (a.options@ != b.options@),
{
    lemma_changes(a, b, site_id);
    lemma_changes(b, a, site_id);
    assert(site_differs(a.peers@, b.peers@, site_id) == site_differs(b.peers@, a.peers@, site_id));
}

proof fn lemma_lost_once(old_peers: Seq<ClientPeer>, current: Seq<ClientPeer>)
    requires
        sites_are_distinct(old_peers),
    ensures
        forall|p: int, q: int|
            0 <= p < q < lost_or_changed(old_peers, current).len() ==> (#[trigger] lost_or_changed(
                old_peers,
                current,
            )[p]).site_id != (#[trigger] lost_or_changed(old_peers, current)[q]).site_id,
        forall|p: int|
            0 <= p < lost_or_changed(old_peers, current).len() ==> exists|i: int|
                0 <= i < old_peers.len() && (#[trigger] lost_or_changed(
                    old_peers,
                    current,
                )[p]).site_id == Some((#[trigger] old_peers[i]).site_id),
    decreases old_peers.len(),
{
    if old_peers.len() > 0 {
        let rest = old_peers.drop_last();
        let last = old_peers.last();
        let before = lost_or_changed(rest, current);
        let fate = fate_of(last, current);
        let all = lost_or_changed(old_peers, current);
        assert(sites_are_distinct(rest)) by {
            assert forall|i: int, j: int| 0 <= i < j < rest.len() implies (
            #[trigger] rest[i]).site_id != (#[trigger] rest[j]).site_id by {
                assert(old_peers[i].site_id != old_peers[j].site_id);
            }
        }
        lemma_lost_once(rest, current);
        assert(all == before + fate);
        assert forall|p: int| 0 <= p < all.len() implies exists|i: int|
            0 <= i < old_peers.len() && (#[trigger] all[p]).site_id == Some(
                (#[trigger] old_peers[i]).site_id,
            ) by {
            if p < before.len() {
                assert(all[p] == before[p]);
                let i = choose|i: int|
                    0 <= i < rest.len() && before[p].site_id == Some((#[trigger] rest[i]).site_id);
                assert(old_peers[i] == rest[i]);
            } else {
                assert(all[p] == fate[p - before.len()]);
                assert(old_peers[old_peers.len() - 1] == last);
            }
        }
        assert forall|p: int, q: int| 0 <= p < q < all.len() implies (#[trigger] all[p]).site_id != (
        #[trigger] all[q]).site_id by {
            if q < before.len() {
                assert(all[p] == before[p]);
                assert(all[q] == before[q]);
            } else {
                assert(all[q] == fate[0]);
                assert(all[p] == before[p]);
                let i = choose|i: int|
                    0 <= i < rest.len() && before[p].site_id == Some((#[trigger] rest[i]).site_id);
                assert(old_peers[i].site_id != old_peers[old_peers.len() - 1].site_id);
            }
        }
    }
}

proof fn lemma_gained_once(old_peers: Seq<ClientPeer>, current: Seq<ClientPeer>)
    requires
        sites_are_distinct(current),
    ensures
        forall|p: int, q: int|
            0 <= p < q < gained(old_peers, current).len() ==> (#[trigger] gained(
                old_peers,
                current,
            )[p]).site_id != (#[trigger] gained(old_peers, current)[q]).site_id,
        forall|p: int|
            0 <= p < gained(old_peers, current).len() ==> exists|i: int|
                0 <= i < current.len() && (#[trigger] gained(old_peers, current)[p]).site_id == Some(
                    (#[trigger] current[i]).site_id,
                ) && site_place(old_peers, current[i].site_id) is None,
    decreases current.len(),
{
    if current.len() > 0 {
        let rest = current.drop_last();
        let last = current.last();
        let before = gained(old_peers, rest);
        let all = gained(old_peers, current);
        assert(sites_are_distinct(rest)) by {
            assert forall|i: int, j: int| 0 <= i < j < rest.len() implies (
            #[trigger] rest[i]).site_id != (#[trigger] rest[j]).site_id by {
                assert(current[i].site_id != current[j].site_id);
            }
        }
        lemma_gained_once(old_peers, rest);
        assert forall|p: int| 0 <= p < all.len() implies exists|i: int|
            0 <= i < current.len() && (#[trigger] all[p]).site_id == Some(
                (#[trigger] current[i]).site_id,
            ) && site_place(old_peers, current[i].site_id) is None by {
            if p < before.len() {
                assert(all[p] == before[p]);
                let i = choose|i: int|
                    0 <= i < rest.len() && before[p].site_id == Some((#[trigger] rest[i]).site_id)
                        && site_place(old_peers, rest[i].site_id) is None;
                assert(current[i] == rest[i]);
            } else {
                assert(current[current.len() - 1] == last);
            }
        }
        assert forall|p: int, q: int| 0 <= p < q < all.len() implies (#[trigger] all[p]).site_id != (
        #[trigger] all[q]).site_id by {
            assert(all[p] == before[p]);
            if q < before.len() {
                assert(all[q] == before[q]);
            } else {
                let i = choose|i: int|
                    0 <= i < rest.len() && before[p].site_id == Some((#[trigger] rest[i]).site_id)
                        && site_place(old_peers, rest[i].site_id) is None;
                assert(current[i].site_id != current[current.len() - 1].site_id);
            }
        }
    }
}

/// A site is spoken of at most once in the changes from one profile to another.
pub proof fn law_sites_change_once(a: ClientConfigModel, b: ClientConfigModel, p: int, q: int)
    requires
        sites_are_distinct(a.peers@),
        sites_are_distinct(b.peers@),
        0 <= p < q < a.changes_to(b).len(),
        a.changes_to(b)[p].site_id is Some,
    ensures
        a.changes_to(b)[p].site_id != a.changes_to(b)[q].site_id,
{
    let head = address_change(a.address, b.address) + options_change(a.options@, b.options@);
    let third = lost_or_changed(a.peers@, b.peers@);
    let fourth = gained(a.peers@, b.peers@);
    let all = a.changes_to(b);
    lemma_lost_once(a.peers@, b.peers@);
    lemma_gained_once(a.peers@, b.peers@);
    assert(all == head + third + fourth);
    assert(forall|k: int| 0 <= k < head.len() ==> (#[trigger] head[k]).site_id is None);
    let n = head.len() as int;
    let m = n + third.len();
    assert(p >= n) by {
        if p < n {
            assert(all[p] == head[p]);
        }
    }
    if p < m {
        assert(all[p] == third[p - n]);
        if q < m {
            assert(all[q] == third[q - n]);
        } else {
            assert(all[q] == fourth[q - m]);
            let i = choose|i: int|
                0 <= i < a.peers@.len() && third[p - n].site_id == Some(
                    (#[trigger] a.peers@[i]).site_id,
                );
            let j = choose|j: int|
                0 <= j < b.peers@.len() && fourth[q - m].site_id == Some(
                    (#[trigger] b.peers@[j]).site_id,
                ) && site_place(a.peers@, b.peers@[j].site_id) is None;
            lemma_site_place(a.peers@, b.peers@[j].site_id);
        }
    } else {
        assert(all[p] == fourth[p - m]);
        assert(all[q] == fourth[q - m]);
    }
}

} // verus!
