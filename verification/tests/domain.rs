//! Addresses, access rules, identities and client profiles.

use std::collections::BTreeSet;

use base64::engine::general_purpose::STANDARD;
use base64::Engine;

use wiremesh::acl::{
    evaluate_acl, AclAction, AclRule, AclSubjects, IpProtocol, PacketContext, PortRange,
};
use wiremesh::config::{
    validate_wireguard_public_key, ClientConfigModel, ClientOptions, ClientPeer, ConfigChangeKind,
    ConfigError,
};
use wiremesh::identity::{
    effective_groups, normalize_email, normalize_group_name, IdentityError, IdentityKind,
    MembershipSourceKind, SourcedMembership, UserIdentity, UserStatus,
};
use wiremesh::ids::Uuid;
use wiremesh::ipv4::{address_of, address_to_text, parse_address, Ipv4Net, SocketAddrV4};
use wiremesh::network::{
    networks_overlap, validate_endpoint_routes, validate_gateway_routes, ClientPool, GatewayRoute,
    NetworkError,
};

fn net(value: &str) -> Ipv4Net {
    Ipv4Net::parse(value).unwrap()
}

fn key(byte: u8) -> String {
    STANDARD.encode([byte; 32])
}

fn identity(kind: IdentityKind, active: bool) -> UserIdentity {
    UserIdentity {
        id: 77,
        provider_id: None,
        kind,
        external_id: "subject".into(),
        current_email: "person@example.com".into(),
        active,
        provider_enabled: true,
    }
}

fn membership(group_id: Uuid, name: &str, source_kind: MembershipSourceKind) -> SourcedMembership {
    SourcedMembership {
        group_id,
        group_name: name.into(),
        source_kind,
        source_id: None,
        active: true,
    }
}

fn model() -> ClientConfigModel {
    ClientConfigModel {
        device_id: 0,
        device_name: "phone".into(),
        revision: 1,
        address: address_of(10, 20, 0, 2),
        options: ClientOptions { persistent_keepalive: Some(25), ..Default::default() },
        peers: vec![ClientPeer {
            site_id: 1,
            site_name: "Site A".into(),
            public_key: key(7),
            endpoint: "vpn.example.com:51820".into(),
            allowed_ips: vec![net("10.10.0.0/16")],
        }],
    }
}

fn allow_all(id: Uuid, position: u32, action: AclAction) -> AclRule {
    AclRule {
        id,
        position,
        action,
        destination: net("10.10.0.0/24"),
        protocol: IpProtocol::Any,
        destination_ports: None,
        subjects: AclSubjects::everyone(),
        enabled: true,
    }
}

fn tcp_packet(port: u16) -> PacketContext {
    PacketContext {
        user_id: 5,
        group_ids: BTreeSet::new(),
        destination: address_of(10, 10, 0, 8),
        protocol: IpProtocol::Tcp,
        destination_port: Some(port),
    }
}

#[test]
fn reserves_network_broadcast_and_first_usable() {
    let pool = ClientPool::new(net("10.20.0.0/29")).unwrap();
    assert_eq!(pool.compatibility_address(), address_of(10, 20, 0, 1));
    assert_eq!(pool.usable_capacity(), 5);
    assert_eq!(pool.allocate(&BTreeSet::new()).unwrap(), address_of(10, 20, 0, 2));
}

#[test]
fn allocator_never_reuses_quarantine() {
    let pool = ClientPool::new(net("10.20.0.0/29")).unwrap();
    let occupied = BTreeSet::from([address_of(10, 20, 0, 2), address_of(10, 20, 0, 3)]);
    assert_eq!(pool.allocate(&occupied).unwrap(), address_of(10, 20, 0, 4));
}

#[test]
fn rejects_cross_gateway_overlap() {
    let routes = vec![
        GatewayRoute { gateway_id: 11, site_id: 1, cidr: net("10.10.0.0/16") },
        GatewayRoute { gateway_id: 12, site_id: 2, cidr: net("10.10.1.0/24") },
    ];
    assert!(matches!(
        validate_gateway_routes(ClientPool::new(net("10.20.0.0/16")).unwrap(), &routes),
        Err(NetworkError::CrossGatewayOverlap { .. })
    ));
}

#[test]
fn permits_client_routes_on_only_one_gateway() {
    let routes = vec![GatewayRoute { gateway_id: 11, site_id: 1, cidr: net("10.20.0.0/24") }];
    assert!(
        validate_gateway_routes(ClientPool::new(net("10.20.0.0/16")).unwrap(), &routes).is_ok()
    );
}

#[test]
fn refuses_client_routes_on_two_gateways() {
    let routes = vec![
        GatewayRoute { gateway_id: 11, site_id: 1, cidr: net("10.20.0.0/24") },
        GatewayRoute { gateway_id: 12, site_id: 2, cidr: net("10.20.1.0/24") },
    ];
    assert_eq!(
        validate_gateway_routes(ClientPool::new(net("10.20.0.0/16")).unwrap(), &routes),
        Err(NetworkError::MultipleClientRoutingGateways)
    );
}

#[test]
fn validates_only_containing_supernets_as_expansion() {
    let pool = ClientPool::new(net("10.20.0.0/24")).unwrap();
    assert!(pool.validate_expansion(ClientPool::new(net("10.20.0.0/23")).unwrap()).is_ok());
    assert_eq!(
        pool.validate_expansion(ClientPool::new(net("10.21.0.0/16")).unwrap()),
        Err(NetworkError::NotAnExpansion)
    );
}

#[test]
fn rejects_literal_endpoints_captured_by_a_client_route() {
    let routes = vec![GatewayRoute { gateway_id: 11, site_id: 1, cidr: net("10.60.0.0/16") }];
    let endpoint = SocketAddrV4 { ip: address_of(10, 60, 10, 1), port: 51_820 };
    assert_eq!(
        validate_endpoint_routes(&routes, &[endpoint]),
        Err(NetworkError::EndpointInsideRoute(endpoint))
    );
}

#[test]
fn pools_have_at_least_four_addresses() {
    assert_eq!(ClientPool::new(net("10.20.0.0/31")), Err(NetworkError::PoolTooSmall));
    assert!(ClientPool::new(net("10.20.0.0/30")).is_ok());
}

#[test]
fn a_full_pool_has_no_address_left() {
    let pool = ClientPool::new(net("10.20.0.0/30")).unwrap();
    let all = BTreeSet::from([address_of(10, 20, 0, 2)]);
    assert_eq!(pool.usable_capacity(), 1);
    assert_eq!(pool.allocate(&all), Err(NetworkError::PoolExhausted));
}

#[test]
fn capacity_leaves_out_the_reserved_addresses() {
    assert_eq!(ClientPool::new(net("10.20.0.0/16")).unwrap().usable_capacity(), 65_533);
    assert_eq!(ClientPool::new(net("0.0.0.0/0")).unwrap().usable_capacity(), 4_294_967_293);
}

#[test]
fn reserved_addresses_are_not_allocatable() {
    let pool = ClientPool::new(net("10.20.0.0/29")).unwrap();
    assert!(!pool.contains_allocatable(address_of(10, 20, 0, 0)));
    assert!(!pool.contains_allocatable(address_of(10, 20, 0, 1)));
    assert!(pool.contains_allocatable(address_of(10, 20, 0, 2)));
    assert!(pool.contains_allocatable(address_of(10, 20, 0, 6)));
    assert!(!pool.contains_allocatable(address_of(10, 20, 0, 7)));
    assert!(!pool.contains_allocatable(address_of(10, 20, 0, 8)));
}

#[test]
fn networks_are_read_and_written() {
    let read = net("10.20.3.4/16");
    assert_eq!(read.addr(), address_of(10, 20, 3, 4));
    assert_eq!(read.prefix_len(), 16);
    assert_eq!(read.network(), address_of(10, 20, 0, 0));
    assert_eq!(read.broadcast(), address_of(10, 20, 255, 255));
    assert_eq!(read.to_text(), "10.20.3.4/16");
    assert!(read.contains(address_of(10, 20, 9, 9)));
    assert!(!read.contains(address_of(10, 21, 0, 0)));
    assert!(Ipv4Net::parse("10.20.0.0").is_none());
    assert!(Ipv4Net::parse("10.20.0.0/33").is_none());
    assert!(Ipv4Net::new(address_of(10, 0, 0, 0), 33).is_err());
}

#[test]
fn addresses_are_read_and_written() {
    assert_eq!(address_to_text(address_of(192, 0, 2, 7)), "192.0.2.7");
    assert_eq!(parse_address("192.0.2.7"), Some(address_of(192, 0, 2, 7)));
    assert_eq!(parse_address("192.0.2.256"), None);
    assert_eq!(parse_address("192.0.2.07"), None);
    assert_eq!(parse_address("192.0.2"), None);
}

#[test]
fn overlap_goes_both_ways() {
    assert!(networks_overlap(net("10.0.0.0/8"), net("10.9.0.0/16")));
    assert!(networks_overlap(net("10.9.0.0/16"), net("10.0.0.0/8")));
    assert!(!networks_overlap(net("10.0.0.0/16"), net("10.1.0.0/16")));
}

#[test]
fn network_refusals_say_why() {
    assert_eq!(
        NetworkError::PoolTooSmall.message(),
        "client pool must contain at least four addresses"
    );
    assert_eq!(NetworkError::PoolExhausted.message(), "client pool is exhausted");
    assert_eq!(
        NetworkError::MultipleClientRoutingGateways.message(),
        "client-pool routes may belong to only one gateway"
    );
    assert_eq!(
        NetworkError::NotAnExpansion.message(),
        "new pool must contain the old pool for an in-place expansion"
    );
    let overlap = NetworkError::CrossGatewayOverlap {
        left: net("10.0.0.0/8"),
        right: net("10.1.0.0/16"),
        left_gateway: 1,
        right_gateway: 2,
    };
    assert!(overlap.message().contains("10.0.0.0/8"));
    assert!(overlap.message().contains("10.1.0.0/16"));
    let endpoint = SocketAddrV4 { ip: address_of(10, 60, 10, 1), port: 51_820 };
    assert_eq!(
        NetworkError::EndpointInsideRoute(endpoint).message(),
        "public endpoint 10.60.10.1:51820 is inside a routed VPN prefix"
    );
}

#[test]
fn manual_disable_always_wins() {
    let status = UserStatus {
        manual_disabled: true,
        soft_deleted: false,
        identities: vec![identity(IdentityKind::Ldap, true)],
    };
    assert!(status.disabled());
    assert!(!status.ldap_disabled());
}

#[test]
fn ldap_is_disabled_only_when_every_identity_is_inactive() {
    let status = UserStatus {
        manual_disabled: false,
        soft_deleted: false,
        identities: vec![
            identity(IdentityKind::Ldap, false),
            identity(IdentityKind::Ldap, true),
        ],
    };
    assert!(!status.disabled());
}

#[test]
fn a_user_without_directories_is_not_disabled_by_them() {
    let status = UserStatus {
        manual_disabled: false,
        soft_deleted: false,
        identities: vec![identity(IdentityKind::Local, false)],
    };
    assert!(!status.ldap_disabled());
    let gone = UserStatus { soft_deleted: true, ..status.clone() };
    assert!(gone.disabled());
    let inactive = UserStatus {
        identities: vec![identity(IdentityKind::Ldap, false)],
        ..status
    };
    assert!(inactive.ldap_disabled());
    assert!(inactive.disabled());
}

#[test]
fn linked_ldap_suppresses_oidc_groups_but_not_local_groups() {
    let ldap_group: Uuid = 1;
    let oidc_group: Uuid = 2;
    let local_group: Uuid = 3;
    let memberships = vec![
        membership(ldap_group, "engineering", MembershipSourceKind::Ldap),
        membership(oidc_group, "finance", MembershipSourceKind::Oidc),
        membership(local_group, "vpn-admin", MembershipSourceKind::Local),
    ];
    let groups = effective_groups(&[identity(IdentityKind::Ldap, true)], &memberships);
    assert!(groups.contains_key(&ldap_group));
    assert!(groups.contains_key(&local_group));
    assert!(!groups.contains_key(&oidc_group));
}

#[test]
fn without_ldap_the_oidc_groups_count() {
    let memberships = vec![
        membership(1, "engineering", MembershipSourceKind::Ldap),
        membership(2, "finance", MembershipSourceKind::Oidc),
        membership(2, "finance", MembershipSourceKind::Local),
    ];
    let groups = effective_groups(&[identity(IdentityKind::Oidc, true)], &memberships);
    assert!(!groups.contains_key(&1));
    let kinds = &groups[&2];
    assert!(kinds.contains(MembershipSourceKind::Oidc));
    assert!(kinds.contains(MembershipSourceKind::Local));
    assert!(!kinds.contains(MembershipSourceKind::Ldap));
}

#[test]
fn normalization_is_case_insensitive() {
    assert_eq!(normalize_email(" Person@Example.COM ").unwrap(), "person@example.com");
    assert_eq!(normalize_group_name(" Engineering ").unwrap(), "engineering");
}

#[test]
fn normal_emails_stay_as_they_are() {
    let once = normalize_email("\tPerson@Example.COM\n").unwrap();
    assert_eq!(normalize_email(&once).unwrap(), once);
}

#[test]
fn emails_and_groups_are_refused() {
    assert_eq!(normalize_email("  "), Err(IdentityError::InvalidEmail));
    assert_eq!(normalize_email("a@b@c"), Err(IdentityError::InvalidEmail));
    assert_eq!(normalize_email("a b@c"), Err(IdentityError::InvalidEmail));
    assert_eq!(normalize_email("nobody"), Err(IdentityError::InvalidEmail));
    assert_eq!(normalize_email("@example.com"), Err(IdentityError::InvalidEmail));
    assert_eq!(normalize_email("person@"), Err(IdentityError::InvalidEmail));
    assert_eq!(normalize_group_name(" \t "), Err(IdentityError::EmptyGroup));
    assert_eq!(IdentityError::EmptyEmail.message(), "email is empty");
    assert_eq!(
        IdentityError::InvalidEmail.message(),
        "email must contain one local part and one domain"
    );
    assert_eq!(IdentityError::EmptyGroup.message(), "group name is empty");
}

#[test]
fn lower_case_covers_more_than_ascii() {
    assert_eq!(normalize_group_name("\u{c4}RZTE").unwrap(), "\u{e4}rzte");
}

#[test]
fn first_match_wins_across_user_and_group_rules() {
    let user: Uuid = 41;
    let group: Uuid = 42;
    let packet = PacketContext {
        user_id: user,
        group_ids: BTreeSet::from([group]),
        destination: parse_address("10.10.0.8").unwrap(),
        protocol: IpProtocol::Tcp,
        destination_port: Some(22),
    };
    let rules = vec![
        AclRule {
            id: 100,
            position: 20,
            action: AclAction::Allow,
            destination: net("10.10.0.0/24"),
            protocol: IpProtocol::Tcp,
            destination_ports: Some(PortRange { start: 22, end: 22 }),
            subjects: AclSubjects { users: BTreeSet::new(), groups: BTreeSet::from([group]) },
            enabled: true,
        },
        AclRule {
            id: 101,
            position: 10,
            action: AclAction::Deny,
            destination: net("10.10.0.8/32"),
            protocol: IpProtocol::Any,
            destination_ports: None,
            subjects: AclSubjects { users: BTreeSet::from([user]), groups: BTreeSet::new() },
            enabled: true,
        },
    ];
    assert_eq!(evaluate_acl(&rules, AclAction::Allow, &packet), AclAction::Deny);
}

#[test]
fn icmp_uses_normal_default() {
    let packet = PacketContext {
        user_id: 41,
        group_ids: BTreeSet::new(),
        destination: parse_address("10.10.0.8").unwrap(),
        protocol: IpProtocol::Icmp,
        destination_port: None,
    };
    assert_eq!(evaluate_acl(&[], AclAction::Deny, &packet), AclAction::Deny);
}

#[test]
fn the_order_in_the_list_does_not_matter() {
    let a = allow_all(1, 10, AclAction::Deny);
    let b = allow_all(2, 20, AclAction::Allow);
    let packet = tcp_packet(80);
    assert_eq!(
        evaluate_acl(&[a.clone(), b.clone()], AclAction::Allow, &packet),
        evaluate_acl(&[b, a], AclAction::Allow, &packet)
    );
}

#[test]
fn disabled_rules_are_passed_over() {
    let mut rule = allow_all(1, 10, AclAction::Deny);
    rule.enabled = false;
    assert_eq!(evaluate_acl(&[rule], AclAction::Allow, &tcp_packet(80)), AclAction::Allow);
}

#[test]
fn ports_and_protocols_decide() {
    let mut rule = allow_all(1, 10, AclAction::Allow);
    rule.protocol = IpProtocol::Tcp;
    rule.destination_ports = Some(PortRange { start: 80, end: 90 });
    let rules = vec![rule];
    assert_eq!(evaluate_acl(&rules, AclAction::Deny, &tcp_packet(79)), AclAction::Deny);
    assert_eq!(evaluate_acl(&rules, AclAction::Deny, &tcp_packet(80)), AclAction::Allow);
    assert_eq!(evaluate_acl(&rules, AclAction::Deny, &tcp_packet(90)), AclAction::Allow);
    let mut udp = tcp_packet(85);
    udp.protocol = IpProtocol::Udp;
    assert_eq!(evaluate_acl(&rules, AclAction::Deny, &udp), AclAction::Deny);
    let mut bare = tcp_packet(85);
    bare.destination_port = None;
    assert_eq!(evaluate_acl(&rules, AclAction::Deny, &bare), AclAction::Deny);
}

#[test]
fn port_ranges_hold_both_ends() {
    let values = PortRange { start: 3, end: 5 }.values();
    assert!(values.contains(&3) && values.contains(&5) && !values.contains(&6));
}

#[test]
fn placeholder_is_rendered_without_a_private_key() {
    let rendered = model().render(None);
    assert!(rendered.contains("PrivateKey = <CLIENT_PRIVATE_KEY>"));
    assert!(rendered.contains("PersistentKeepalive = 25"));
}

#[test]
fn a_profile_is_rendered_whole() {
    let mut profile = model();
    profile.options = ClientOptions {
        dns_servers: vec![address_of(10, 0, 0, 53)],
        search_domains: vec!["corp.example".into()],
        mtu: Some(1420),
        persistent_keepalive: None,
    };
    let rendered = profile.render(Some("SECRET"));
    assert!(rendered.starts_with("[Interface]\nPrivateKey = SECRET\nAddress = 10.20.0.2/32\n"));
    assert!(rendered.contains("DNS = 10.0.0.53, corp.example\n"));
    assert!(rendered.contains("MTU = 1420\n"));
    assert!(rendered.contains("Endpoint = vpn.example.com:51820\n"));
    assert!(rendered.contains("AllowedIPs = 10.10.0.0/16\n"));
    assert!(!rendered.contains("PersistentKeepalive"));
}

#[test]
fn diffs_client_visible_peer_changes() {
    let old = model();
    let mut current = old.clone();
    current.peers[0].endpoint = "new.example.com:51820".into();
    assert_eq!(current.diff(&old).len(), 1);
    assert_eq!(old.diff(&current)[0].kind, ConfigChangeKind::PeerChanged);
}

#[test]
fn diffs_tell_what_came_and_went() {
    let old = model();
    let mut current = old.clone();
    current.address = address_of(10, 20, 0, 9);
    current.options.mtu = Some(1400);
    current.peers[0].site_id = 2;
    let kinds: Vec<ConfigChangeKind> = old.diff(&current).iter().map(|c| c.kind).collect();
    assert!(kinds.contains(&ConfigChangeKind::Address));
    assert!(kinds.contains(&ConfigChangeKind::Options));
    assert!(kinds.contains(&ConfigChangeKind::PeerAdded));
    assert!(kinds.contains(&ConfigChangeKind::PeerRemoved));
    assert!(old.diff(&old.clone()).is_empty());
}

#[test]
fn fingerprints_ignore_the_revision() {
    let a = model();
    let mut b = a.clone();
    b.revision = 9;
    assert_eq!(a.fingerprint(), b.fingerprint());
    assert_eq!(a.fingerprint().len(), 64);
    b.address = address_of(10, 20, 0, 3);
    assert_ne!(a.fingerprint(), b.fingerprint());
}

#[test]
fn stored_profiles_are_json() {
    let profile = model();
    let read: serde_json::Value = serde_json::from_str(&profile.stored_json()).unwrap();
    assert_eq!(read["device_id"], "00000000-0000-0000-0000-000000000000");
    assert_eq!(read["revision"], 1);
    assert_eq!(read["address"], "10.20.0.2");
    assert_eq!(read["options"]["persistent_keepalive"], 25);
    assert!(read["options"]["mtu"].is_null());
    assert_eq!(read["peers"][0]["allowed_ips"][0], "10.10.0.0/16");
}

#[test]
fn profiles_are_checked() {
    let good = model();
    assert!(good.validate().is_ok());
    let mut keyless = good.clone();
    keyless.peers[0].public_key = "short".into();
    assert_eq!(keyless.validate(), Err(ConfigError::InvalidPublicKey));
    let mut routeless = good.clone();
    routeless.peers[0].allowed_ips.clear();
    assert_eq!(routeless.validate(), Err(ConfigError::PeerWithoutRoutes("Site A".into())));
    assert_eq!(routeless.validate().unwrap_err().message(), "peer Site A has no routes");
}

#[test]
fn public_keys_are_32_bytes_in_base64() {
    assert!(validate_wireguard_public_key(&key(1)).is_ok());
    assert!(validate_wireguard_public_key(&STANDARD.encode([1u8; 31])).is_err());
    assert!(validate_wireguard_public_key("not base64!").is_err());
    assert_eq!(
        ConfigError::InvalidPublicKey.message(),
        "public key must be base64-encoded 32 bytes"
    );
}

#[test]
fn texts_add_no_lines_to_a_profile() {
    let mut profile = model();
    profile.options.search_domains = vec!["corp.example\nPostUp = reboot".into()];
    profile.peers[0].site_name = "Site\r\nPostDown = reboot".into();
    profile.peers[0].endpoint = "vpn.example.com:51820\n[Peer]".into();
    let rendered = profile.render(Some("SECRET\nTable = off"));
    assert!(rendered.contains("DNS = corp.examplePostUp = reboot\n"));
    assert!(rendered.contains("# SitePostDown = reboot\n"));
    assert!(rendered.contains("PrivateKey = SECRETTable = off\n"));
    assert_eq!(rendered.lines().filter(|line| *line == "[Peer]").count(), 1);
    let known = [
        "PrivateKey = ", "Address = ", "DNS = ", "MTU = ", "PublicKey = ", "Endpoint = ",
        "AllowedIPs = ", "PersistentKeepalive = ", "# ",
    ];
    for line in rendered.lines() {
        assert!(
            line.is_empty()
                || line == "[Interface]"
                || line == "[Peer]"
                || known.iter().any(|key| line.starts_with(key)),
            "{line}"
        );
    }
}

#[test]
fn diffs_mirror_each_other() {
    let old = model();
    let mut current = old.clone();
    let mut other = old.peers[0].clone();
    other.site_id = 2;
    current.peers.push(other);
    current.peers[0].endpoint = "new.example.com:51820".into();
    current.revision = 77;
    current.device_name = "renamed".into();
    let of_site = |from: &ClientConfigModel, to: &ClientConfigModel, site: Uuid| {
        let kinds: Vec<ConfigChangeKind> = from
            .diff(to)
            .iter()
            .filter(|change| change.site_id == Some(site))
            .map(|change| change.kind)
            .collect();
        kinds
    };
    assert_eq!(of_site(&old, &current, 2), vec![ConfigChangeKind::PeerAdded]);
    assert_eq!(of_site(&current, &old, 2), vec![ConfigChangeKind::PeerRemoved]);
    let first = old.peers[0].site_id;
    assert_eq!(of_site(&old, &current, first), vec![ConfigChangeKind::PeerChanged]);
    assert_eq!(of_site(&current, &old, first), vec![ConfigChangeKind::PeerChanged]);
    assert_eq!(old.diff(&current).len(), 2);
}

#[test]
fn normal_forms_are_normal() {
    for value in [" Ada@Example.COM\t", "ada@example.com", "\u{a0}ADA@EXAMPLE.COM\u{3000}"] {
        let normal = normalize_email(value).unwrap();
        assert_eq!(normal, "ada@example.com");
        assert_eq!(normalize_email(&normal).unwrap(), normal);
    }
}
