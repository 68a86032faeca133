//! Sites, gateways, devices, migrations, directories and settings.

use std::collections::{BTreeMap, BTreeSet};

use base64::engine::general_purpose::STANDARD;
use base64::Engine;

use wiremesh::access;
use wiremesh::acl::{AclAction, IpProtocol, PortRange};
use wiremesh::auth::token_digest;
use wiremesh::config::{ClientConfigModel, ClientOptions, ConfigChangeKind};
use wiremesh::db;
use wiremesh::desired;
use wiremesh::desired::{AckRow, DeviceRow, GatewayRow, GatewaySources, HistoryRow, RuleRow};
use wiremesh::devices;
use wiremesh::devices::{
    ClientSiteRow, DeviceDetailRow, JobRow, ProfileRow, RefreshStep, Refreshed, SiteStatusRow,
};
use wiremesh::error::ApiError;
use wiremesh::federated;
use wiremesh::federated::{LdapConfig, LdapIdentityRow, OidcConfig, OidcStateRow};
use wiremesh::fleet;
use wiremesh::fleet::AgentRow;
use wiremesh::groups;
use wiremesh::groups::DirectoryEntry;
use wiremesh::grpc;
use wiremesh::grpc::{AgentSecrets, Connection, MessageStep, MigrationNotice, MigrationNoticeRow, StatusCode, StatusError};
use wiremesh::ids::uuid_to_text;
use wiremesh::ipv4::{address_of, Ipv4Net};
use wiremesh::migration;
use wiremesh::migration::{
    GatewayStateRow, LeaseRow, MigrationGatewayRow, MigrationRow, MigrationSources, PreparationRow,
    RouteRow,
};
use wiremesh::models::{
    AcknowledgeConfigRequest, AcknowledgementMethod, AclRuleModel, CreateAgentRequest,
    CreateDeviceRequest, CreateSiteRequest, DeviceResponse, GatewayKindRequest, ProviderKind,
    ReplaceAclRequest, RotateDeviceKeyRequest, UpdateRouterTargetRequest, UpdateSiteRequest,
    UpdateSystemSettingsRequest, UserResponse,
};
use wiremesh::router_target;
use wiremesh::router_target::RouterRow;
use wiremesh::runtime::{AgentHello, AgentMessage, GatewayFacts, RevisionApplied};
use wiremesh::secrets::SecretBox;
use wiremesh::settings;
use wiremesh::settings::{AuditRow, Counts, GroupRow, SettingRow};
use wiremesh::sites;
use wiremesh::sites::{EndpointRow, SiteGatewayRow, SiteRow, SiteSources};
use wiremesh::state::{DesiredGatewayState, DesiredPeer};
use wiremesh::time::{render_later, render_time, Timestamp};

fn net(value: &str) -> Ipv4Net {
    Ipv4Net::parse(value).unwrap()
}

fn key(byte: u8) -> String {
    STANDARD.encode([byte; 32])
}

fn id(n: u128) -> String {
    uuid_to_text(n)
}

fn now() -> Timestamp {
    Timestamp { secs: 1_700_000_000, nanos: 0 }
}

fn refused<T>(r: Result<T, ApiError>) -> ApiError {
    match r {
        Ok(_) => panic!("it should be refused"),
        Err(e) => e,
    }
}

fn denied<T>(r: Result<T, StatusError>) -> StatusError {
    match r {
        Ok(_) => panic!("it should be denied"),
        Err(e) => e,
    }
}

fn invalid(text: &str) -> ApiError {
    ApiError::Validation(text.into())
}

fn conflict(text: &str) -> ApiError {
    ApiError::Conflict(text.into())
}

fn state(gateway_id: u128, revision: u64, devices: &[u128]) -> DesiredGatewayState {
    DesiredGatewayState {
        gateway_id,
        revision,
        interface_name: "wg-wiremesh".into(),
        listen_port: 51_820,
        mtu: None,
        compatibility_address: None,
        routes: Vec::new(),
        peers: devices
            .iter()
            .map(|device_id| DesiredPeer {
                device_id: *device_id,
                user_id: 1,
                public_key: "test-key".into(),
                allowed_address: address_of(10, 20, 0, 2),
                group_ids: BTreeSet::new(),
            })
            .collect(),
        acl_default: AclAction::Allow,
        acl_rules: Vec::new(),
        terminate_sources: Vec::new(),
    }
}

fn site_request() -> CreateSiteRequest {
    CreateSiteRequest {
        name: " branch ".into(),
        routes: vec![net("10.70.0.0/16")],
        gateway_kind: GatewayKindRequest::Mikrotik,
        interface_name: "wiremesh".into(),
        endpoint_host: "vpn.example.com".into(),
        public_port: Some(51_820),
        listen_port: Some(51_820),
        public_key: None,
        agent_id: None,
        granted_group_ids: Vec::new(),
        acl_default: AclAction::Allow,
        compatibility_address: false,
    }
}

fn sources() -> SiteSources {
    SiteSources {
        client_pool: net("10.20.0.0/16"),
        routes: vec![RouteRow { gateway_id: id(60), site_id: id(61), cidr: "10.60.0.0/16".into() }],
        endpoints: vec![EndpointRow {
            id: id(60),
            endpoint_host: "192.0.2.1".into(),
            endpoint_port: 51_820,
        }],
    }
}

fn site_row(granted: &str) -> ClientSiteRow {
    ClientSiteRow {
        id: id(200),
        name: "Branch".into(),
        endpoint_host: "vpn.example.com".into(),
        public_port: None,
        listen_port: Some(51_820),
        public_key: Some(key(9)),
        routes: vec!["10.70.0.0/16".into()],
        grants: vec![granted.into()],
    }
}

fn device_request() -> CreateDeviceRequest {
    CreateDeviceRequest { user_id: 5, name: " phone ".into(), public_key: key(1) }
}

fn user(limit: u32) -> UserResponse {
    UserResponse {
        id: 5,
        email: "person@example.com".into(),
        name: "Person".into(),
        title: "".into(),
        manual_disabled: false,
        ldap_disabled: false,
        disabled: false,
        soft_deleted: false,
        purged: false,
        device_limit: limit,
        created_at: "t".into(),
    }
}

fn device(status: &str) -> DeviceResponse {
    devices::get_device(
        7,
        &Some(DeviceDetailRow {
            user_id: id(5),
            name: "phone".into(),
            public_key: key(1),
            vpn_address: "10.20.0.2".into(),
            status: status.into(),
            config_revision: 1,
            acknowledged_revision: 0,
            created_at: "t".into(),
        }),
    )
    .unwrap()
}

fn model(rows: &[ClientSiteRow]) -> ClientConfigModel {
    devices::build_config(
        7,
        "phone",
        address_of(10, 20, 0, 2),
        1,
        &ClientOptions::default(),
        rows,
        &["staff".into()],
    )
    .unwrap()
}

fn ldap() -> LdapConfig {
    LdapConfig {
        url: "ldaps://directory.example".into(),
        start_tls: false,
        bind_dn: "cn=wiremesh".into(),
        bind_password: "pw".into(),
        base_dn: "dc=example".into(),
        user_filter: federated::default_user_filter().into(),
        id_attribute: federated::default_id_attribute().into(),
        email_attribute: federated::default_email_attribute().into(),
        name_attribute: federated::default_name_attribute().into(),
        title_attribute: federated::default_title_attribute().into(),
        group_attribute: federated::default_group_attribute().into(),
        group_base_dn: Some("ou=groups".into()),
        group_filter: federated::default_group_filter().into(),
        group_name_attribute: federated::default_group_name_attribute().into(),
        group_member_attribute: federated::default_group_member_attribute().into(),
        nested_group_depth: 1,
        disabled_attribute: Some("locked".into()),
        disabled_values: vec!["TRUE".into()],
        page_size: federated::default_page_size(),
    }
}

fn oidc() -> OidcConfig {
    OidcConfig {
        issuer_url: "https://identity.example".into(),
        client_id: "wiremesh".into(),
        client_secret: "test-only".into(),
        redirect_url: "https://wiremesh.example/callback".into(),
        scopes: vec!["groups".into(), "email".into()],
        userinfo_url: None,
        groups_claim: federated::default_groups_claim().into(),
        title_claim: federated::default_title_claim().into(),
    }
}

fn dir_entry(dn: &str, attrs: &[(&str, &[&str])]) -> DirectoryEntry {
    DirectoryEntry {
        dn: dn.into(),
        attrs: attrs
            .iter()
            .map(|(name, values)| {
                (name.to_string(), values.iter().map(|value| value.to_string()).collect())
            })
            .collect(),
        bin_attrs: Vec::new(),
    }
}

fn options() -> ClientOptions {
    ClientOptions {
        dns_servers: vec![address_of(10, 0, 0, 53)],
        search_domains: vec!["corp".into()],
        mtu: Some(1420),
        persistent_keepalive: Some(25),
    }
}

fn settings_rows() -> Vec<SettingRow> {
    let row = |key: &str, value: &str, options: Result<ClientOptions, String>| SettingRow {
        key: key.into(),
        value_json: value.into(),
        options,
    };
    vec![
        row("client_pool", "\"10.20.0.0/16\"", Err("no".into())),
        row("default_device_limit", "5", Err("no".into())),
        row("client_options", "{}", Ok(options())),
        row("other", "nothing", Err("no".into())),
    ]
}

fn moved(addresses: Vec<migration::AddressMove>) -> MigrationRow {
    MigrationRow {
        status: "preparing".into(),
        effective_at: render_later(now(), 31).unwrap(),
        old_pool: "10.20.0.0/16".into(),
        new_pool: "10.30.0.0/16".into(),
        addresses,
    }
}

#[test]
fn creates_users_and_unique_device_leases() {
    let pool = net("10.20.0.0/16");
    let create = |leases: &[String]| {
        devices::create_device(
            &device_request(),
            7,
            pool,
            leases,
            &ClientOptions::default(),
            &[],
            &[],
        )
        .unwrap()
    };
    let first = create(&[]);
    let second = create(&["10.20.0.2".into()]);
    assert_ne!(first.address, second.address);
    assert_eq!(first.address, address_of(10, 20, 0, 2));
    assert_eq!(first.name, "phone");
    assert_eq!(first.audit.action, "device.create");
    assert_eq!((first.device_id, first.user_id), (7, device_request().user_id));
    assert_eq!(first.public_key, device_request().public_key);
    assert_eq!(
        first.details_json,
        format!("{{\"address\":\"10.20.0.2\",\"public_key\":\"{}\"}}", key(1))
    );
}

#[test]
fn profile_download_acknowledges_placeholder_revision() {
    let phone = device("active");
    assert!(phone.outdated);
    let config = devices::device_config(&phone, model(&[]), &None, &[], now()).unwrap();
    assert!(config.placeholder_config.contains("<CLIENT_PRIVATE_KEY>"));
    let request = AcknowledgeConfigRequest {
        revision: 1,
        method: AcknowledgementMethod::PlaceholderDownload,
    };
    let note = devices::acknowledge_config(&phone, &request).unwrap();
    assert_eq!((note.revision, note.method), (1, "placeholder_download"));
    assert_eq!(note.audit.action, "device.config_acknowledge");
    assert_eq!(note.details_json, "{\"method\":\"placeholder_download\",\"revision\":1}");
    let acknowledged = devices::get_device(
        7,
        &Some(DeviceDetailRow {
            user_id: id(5),
            name: "phone".into(),
            public_key: key(3),
            vpn_address: "10.20.0.2".into(),
            status: "active".into(),
            config_revision: 1,
            acknowledged_revision: 1,
            created_at: "t".into(),
        }),
    )
    .unwrap();
    assert!(!acknowledged.outdated);
    let old = AcknowledgeConfigRequest { revision: 9, ..request };
    assert_eq!(
        refused(devices::acknowledge_config(&phone, &old)),
        conflict("revision 9 is no longer current")
    );
}

#[test]
fn devices_are_checked() {
    assert!(devices::check_device_request(&device_request()).is_ok());
    let mut request = device_request();
    request.public_key = "x".into();
    assert_eq!(
        refused(devices::check_device_request(&request)),
        invalid("public key must be base64-encoded 32 bytes")
    );
    let mut request = device_request();
    request.name = " ".into();
    assert_eq!(
        refused(devices::check_device_request(&request)),
        invalid("device name is required")
    );
    assert!(devices::check_device_limit(&user(2), 1).is_ok());
    assert_eq!(
        refused(devices::check_device_limit(&user(2), 2)),
        conflict("device limit reached")
    );
    let gone = UserResponse { disabled: true, ..user(2) };
    assert_eq!(
        refused(devices::check_device_limit(&gone, 0)),
        ApiError::Forbidden("disabled users cannot create devices".into())
    );
}

#[test]
fn busy_databases_are_tried_five_times() {
    assert!(devices::is_retryable_sqlite(true, ""));
    assert!(devices::is_retryable_sqlite(false, "database is locked"));
    assert!(!devices::is_retryable_sqlite(false, "disk full"));
    let delays: Vec<Option<u64>> = (0..5).map(|n| devices::retry_delay(n, true)).collect();
    assert_eq!(delays, vec![Some(20), Some(40), Some(60), Some(80), None]);
    assert_eq!(devices::retry_delay(0, false), None);
}

#[test]
fn leased_addresses_are_not_given_out() {
    let pool = net("10.20.0.0/29");
    let leases: Vec<String> = vec!["10.20.0.3".into(), "10.20.0.2".into()];
    assert_eq!(
        devices::allocate_device_address(pool, &leases).unwrap(),
        address_of(10, 20, 0, 4)
    );
    let all: Vec<String> = (2..7).map(|n| format!("10.20.0.{n}")).collect();
    assert_eq!(
        refused(devices::allocate_device_address(pool, &all)),
        invalid("client pool is exhausted")
    );
    assert!(matches!(
        devices::allocate_device_address(pool, &["x".into()]),
        Err(ApiError::Internal(_))
    ));
    assert_eq!(
        refused(devices::allocate_device_address(net("10.0.0.0/31"), &[])),
        invalid("client pool must contain at least four addresses")
    );
}

#[test]
fn profiles_hold_granted_sites() {
    let granted = model(&[site_row("staff"), site_row("others")]);
    assert_eq!(granted.peers.len(), 1);
    assert_eq!(granted.peers[0].endpoint, "vpn.example.com:51820");
    let mut keyless = site_row("staff");
    keyless.public_key = None;
    let mut portless = site_row("staff");
    portless.listen_port = None;
    assert!(model(&[keyless, portless]).peers.is_empty());
    let mut routeless = site_row("staff");
    routeless.routes.clear();
    assert_eq!(
        refused(devices::store_snapshot(&model(&[routeless]))),
        invalid("peer Branch has no routes")
    );
    let (fingerprint, text) = devices::store_snapshot(&granted).unwrap();
    assert_eq!(fingerprint, granted.fingerprint());
    assert_eq!(text, granted.stored_json());
}

#[test]
fn unacknowledged_profiles_are_all_new() {
    let phone = device("active");
    let config =
        devices::device_config(&phone, model(&[site_row("staff")]), &None, &[], now()).unwrap();
    assert_eq!(config.changes.len(), 1);
    assert_eq!(config.changes[0].kind, ConfigChangeKind::PeerAdded);
    assert_eq!(config.changes[0].description, "site Branch is available");
    let acknowledged = DeviceResponse { acknowledged_revision: 1, ..phone };
    let before = Some(model(&[]));
    let config = devices::device_config(
        &acknowledged,
        model(&[site_row("staff")]),
        &before,
        &[],
        now(),
    )
    .unwrap();
    assert_eq!(config.changes[0].kind, ConfigChangeKind::PeerAdded);
    assert!(devices::profile_changes(1, &None, &model(&[site_row("staff")])).is_empty());
}

#[test]
fn sites_are_pending_ready_or_failed() {
    let row = SiteStatusRow {
        id: id(3),
        name: "Branch".into(),
        status: "ready".into(),
        desired_revision: 2,
        applied_revision: 2,
        last_seen_at: Some(render_later(now(), -44).unwrap()),
        last_error: None,
        has_public_key: true,
        has_port: true,
    };
    assert_eq!(row.provisioning(now()).unwrap().state, "ready");
    let late = SiteStatusRow { last_seen_at: Some(render_later(now(), -45).unwrap()), ..row };
    assert_eq!(late.provisioning(now()).unwrap().state, "pending");
    let failed = SiteStatusRow { last_error: Some("boom".into()), ..late };
    let told = failed.provisioning(now()).unwrap();
    assert_eq!(told.state, "error");
    assert_eq!(told.error.as_deref(), Some("boom"));
    assert_eq!(devices::peer_statuses(&[failed], now()).unwrap().len(), 1);
}

#[test]
fn keys_of_active_devices_are_replaced() {
    let request = RotateDeviceKeyRequest { public_key: key(2) };
    let plan = devices::rotate_device_key(&request, &device("active"), model(&[])).unwrap();
    assert_eq!((plan.revision, plan.public_key.as_str()), (2, key(2).as_str()));
    assert_eq!(plan.model.revision, 2);
    assert_eq!(plan.details_json, "{\"revision\":2}");
    assert_eq!(
        refused(devices::rotate_device_key(&request, &device("deleted"), model(&[]))),
        conflict("only active devices can rotate keys")
    );
    let bad = RotateDeviceKeyRequest { public_key: "x".into() };
    assert!(devices::rotate_device_key(&bad, &device("active"), model(&[])).is_err());
}

#[test]
fn deleted_devices_wait_for_their_gateways() {
    assert!(devices::delete_device(&device("active")));
    assert!(!devices::delete_device(&device("deleted")));
    let states = [state(9, 4, &[])];
    let waiting = devices::removal(&states);
    assert!(!waiting.at_once);
    assert_eq!(waiting.acks[0].required_revision, 4);
    assert!(!desired::lease_is_released(true, false, &waiting.acks));
    let done = desired::acknowledge(&waiting.acks, 9, 4);
    assert!(desired::lease_is_released(true, false, &done));
    assert!(devices::removal(&[]).at_once);
    let (entry, details) = devices::delete_device_audit(&device("active"), &states);
    assert_eq!(entry.action, "device.delete");
    assert_eq!(details, format!("{{\"pending_gateways\":[\"{}\"]}}", id(9)));
}

#[test]
fn profiles_are_refreshed_where_they_changed() {
    let before = model(&[]);
    let row = |model: Result<ClientConfigModel, String>| ProfileRow {
        id: id(7),
        name: "phone".into(),
        vpn_address: "10.20.0.2".into(),
        config_revision: 1,
        fingerprint: before.fingerprint(),
        model,
    };
    let refresh = |rows: &[ProfileRow], sites: &[ClientSiteRow]| {
        devices::refresh_user_configs(rows, &ClientOptions::default(), sites, &["staff".into()])
    };
    let same = refresh(&[row(Ok(before.clone()))], &[]).unwrap();
    assert!(matches!(same[0], Refreshed::Same));
    assert_eq!(devices::refresh_summary(&same), (0, false));
    let changed = refresh(&[row(Ok(before.clone()))], &[site_row("staff")]).unwrap();
    assert_eq!(devices::refresh_summary(&changed), (1, true));
    match &changed[0] {
        Refreshed::Stored { profile, access_changed } => {
            assert!(*access_changed);
            assert_eq!(profile.model.revision, 2);
        }
        Refreshed::Same => panic!("a site came"),
    }
    assert!(refresh(&[row(Err("torn".into()))], &[]).is_ok());
    assert_eq!(
        refused(refresh(&[row(Err("torn".into()))], &[site_row("staff")])),
        ApiError::Internal("torn".into())
    );
    let mut renamed = before.clone();
    renamed.options.mtu = Some(1400);
    assert_eq!(
        devices::refresh_profile(&before.fingerprint(), &before, &renamed),
        RefreshStep::Store { access_changed: false }
    );
}

#[test]
fn changed_profiles_are_told_once() {
    let job = |status: &str| JobRow {
        recipient: "a@x".into(),
        template: "access_change".into(),
        status: status.into(),
    };
    let notice = devices::queue_profile_notification(5, "a@x", 2, true, true, &[job("sent")]);
    let notice = notice.unwrap();
    assert_eq!(notice.template, "access_change");
    assert_eq!(
        notice.parameters_json,
        format!("{{\"changed_devices\":2,\"user_id\":\"{}\"}}", id(5))
    );
    let queue = |changed: usize, access: bool, mail: bool, jobs: &[JobRow]| {
        devices::queue_profile_notification(5, "a@x", changed, access, mail, jobs).is_some()
    };
    assert!(!queue(2, true, true, &[job("sending")]));
    assert!(queue(2, false, true, &[job("pending")]));
    assert!(!queue(0, true, true, &[]));
    assert!(!queue(1, true, false, &[]));
}

#[test]
fn device_exposure_follows_acknowledged_and_newer_state_history() {
    let history = |applied: i64| {
        vec![
            HistoryRow {
                gateway_id: id(9),
                applied_revision: applied,
                revision: 1,
                state: state(9, 1, &[7]),
            },
            HistoryRow {
                gateway_id: id(9),
                applied_revision: applied,
                revision: 2,
                state: state(9, 2, &[]),
            },
        ]
    };
    assert_eq!(desired::gateway_ids_that_may_hold_device(&history(1), 7).unwrap(), vec![9]);
    assert!(desired::gateway_ids_that_may_hold_device(&history(2), 7).unwrap().is_empty());
    assert_eq!(
        wiremesh::users::gateways_of_devices(&history(1), &[8, 7]).unwrap(),
        vec![9]
    );
}

#[test]
fn gateways_let_granted_devices_in() {
    let device = |n: u128, status: &str, groups: &[&str]| DeviceRow {
        id: id(n),
        user_id: id(5),
        public_key: key(1),
        vpn_address: format!("10.20.0.{n}"),
        status: status.into(),
        manual_disabled: false,
        ldap_disabled: false,
        soft_deleted_at: None,
        group_ids: groups.iter().map(|group| group.to_string()).collect(),
    };
    let staff = id(70);
    let mut disabled = device(5, "active", &[&staff]);
    disabled.ldap_disabled = true;
    let sources = GatewaySources {
        gateway: Some(GatewayRow {
            site_id: id(61),
            interface_name: "wm0".into(),
            listen_port: None,
            desired_revision: 3,
            kind: "mikrotik".into(),
            compatibility_address: true,
            acl_default: "deny".into(),
        }),
        routes: vec!["10.60.0.0/16".into()],
        grants: vec![staff.clone()],
        devices: vec![
            device(2, "active", &[&staff]),
            device(3, "deleted", &[&staff]),
            device(4, "active", &[]),
            disabled,
        ],
        rules: vec![RuleRow {
            id: id(80),
            position: 10,
            action: "allow".into(),
            destination: "10.60.1.0/24".into(),
            protocol: "tcp".into(),
            port_start: Some(22),
            port_end: Some(22),
            enabled: true,
            users: vec![],
            groups: vec![staff.clone()],
        }],
        mtu: Some(1420),
        client_pool: "10.20.0.0/16".into(),
    };
    let built = desired::rebuild_gateway(0, 9, &sources, &[address_of(10, 20, 0, 3)]).unwrap();
    assert_eq!(built.revision, 4);
    assert_eq!(built.listen_port, 51_820);
    assert_eq!(built.compatibility_address, Some(address_of(10, 20, 0, 1)));
    let ids: Vec<u128> = built.peers.iter().map(|peer| peer.device_id).collect();
    assert_eq!(ids, vec![2]);
    assert_eq!(built.acl_rules.len(), 1);
    assert_eq!(built.acl_default, AclAction::Deny);
    assert_eq!(
        refused(desired::rebuild_gateway(1, 9, &sources, &[])),
        conflict("configuration changes are paused during an active subnet migration")
    );
    let (text, hash) = desired::encode_state(&built);
    assert!(text.starts_with('{') && hash.len() == 64);
    let mut wrong = sources;
    wrong.rules[0].port_end = Some(21);
    assert_eq!(
        refused(desired::rebuild_gateway(0, 9, &wrong, &[])),
        ApiError::Internal("invalid ACL port range in database".into())
    );
    wrong.gateway = None;
    assert!(matches!(
        desired::rebuild_gateway(0, 9, &wrong, &[]),
        Err(ApiError::NotFound(_))
    ));
}

#[test]
fn applied_revisions_are_acknowledged() {
    let plan = desired::record_applied(9, Some(5), 2, 4, "hash").unwrap();
    assert_eq!(plan.applied_revision, 4);
    assert_eq!((plan.status, plan.event), ("ready", "applied"));
    assert_eq!(plan.actual_state_hash, "hash");
    assert_eq!(plan.details_json, "{\"actual_state_hash\":\"hash\",\"revision\":4}");
    assert_eq!(desired::record_applied(9, Some(5), 5, 4, "hash").unwrap().applied_revision, 5);
    assert_eq!(
        refused(desired::record_applied(9, Some(3), 2, 4, "hash")),
        conflict("agent acknowledged an unknown future revision")
    );
    assert!(desired::record_applied(9, None, 2, 4, "hash").is_err());
    let acks = [
        AckRow { gateway_id: 9, required_revision: 4, acknowledged: false },
        AckRow { gateway_id: 9, required_revision: 5, acknowledged: false },
        AckRow { gateway_id: 8, required_revision: 1, acknowledged: false },
    ];
    let after = desired::acknowledge(&acks, 9, 4);
    let met: Vec<bool> = after.iter().map(|ack| ack.acknowledged).collect();
    assert_eq!(met, vec![true, false, false]);
    assert!(!desired::is_all_met(&after));
    assert!(!desired::key_is_retired(false, &[]));
    assert!(acks[0].is_met_by(9, 4) && !acks[1].is_met_by(9, 4) && !acks[2].is_met_by(9, 4));
    assert!(!after[0].is_met_by(9, 4));
    let plan = desired::record_error(9, 4, "backend_error", "boom");
    assert_eq!((plan.status, plan.event), ("error", "error"));
    assert_eq!((plan.error_code.as_str(), plan.last_error.as_str()), ("backend_error", "boom"));
    assert_eq!(plan.audit.outcome, "failure");
    assert_eq!(
        plan.details_json,
        "{\"code\":\"backend_error\",\"message\":\"boom\",\"revision\":4}"
    );
}

#[test]
fn sites_are_checked_and_planned() {
    let site = sites::create_site(&site_request(), 1, 2, &sources(), None).unwrap();
    assert_eq!(site.name, "branch");
    assert_eq!((site.kind, site.status, site.acl_default), ("mikrotik", "provisioning", "allow"));
    assert_eq!(site.routes, vec!["10.70.0.0/16"]);
    let public_key = STANDARD.encode([3; 32]);
    let full = CreateSiteRequest {
        public_port: Some(443),
        listen_port: Some(51_821),
        public_key: Some(public_key.clone()),
        agent_id: Some(4),
        granted_group_ids: vec![8, 7],
        compatibility_address: true,
        ..site_request()
    };
    let site = sites::create_site(&full, 1, 2, &sources(), Some("mikrotik")).unwrap();
    assert_eq!((site.status, site.interface_name.as_str()), ("ready", "wiremesh"));
    assert_eq!((site.public_port, site.listen_port), (Some(443), Some(51_821)));
    assert_eq!((site.public_key, site.agent_id), (Some(public_key), Some(4)));
    assert_eq!(site.granted_group_ids, vec![8, 7]);
    assert!(site.compatibility_address);
    let site = sites::create_site(&site_request(), 1, 2, &sources(), None).unwrap();
    assert_eq!(
        site.details_json,
        format!("{{\"gateway_id\":\"{}\",\"routes\":[\"10.70.0.0/16\"]}}", id(2))
    );
    let text = |change: &dyn Fn(&mut CreateSiteRequest)| {
        let mut request = site_request();
        change(&mut request);
        match refused(sites::create_site(&request, 1, 2, &sources(), Some("linux"))) {
            ApiError::Validation(message) => message,
            _ => panic!("the request is wrong"),
        }
    };
    assert_eq!(
        text(&|r| r.routes.clear()),
        "site name and at least one route are required"
    );
    assert_eq!(text(&|r| r.interface_name = "a b".into()), "interface name is invalid");
    assert_eq!(text(&|r| r.endpoint_host = "a b".into()), "endpoint host is invalid");
    assert_eq!(text(&|r| r.listen_port = Some(0)), "gateway ports cannot be zero");
    assert_eq!(
        text(&|r| r.public_key = Some("x".into())),
        "public key must be base64-encoded 32 bytes"
    );
    assert!(text(&|r| r.routes = vec![net("10.60.5.0/24")]).contains("10.60.0.0/16"));
    assert!(text(&|r| r.endpoint_host = "10.70.0.1".into()).starts_with("public endpoint"));
    assert_eq!(
        text(&|r| r.agent_id = Some(4)),
        "gateway and assigned agent kinds must match"
    );
    let mut request = site_request();
    request.agent_id = Some(4);
    assert_eq!(
        refused(sites::create_site(&request, 1, 2, &sources(), None)),
        invalid("assigned agent does not exist")
    );
}

#[test]
fn sites_are_changed_in_place() {
    let request = UpdateSiteRequest {
        name: "branch".into(),
        routes: vec![net("10.71.0.0/16")],
        endpoint_host: "vpn.example.com".into(),
        public_port: None,
        granted_group_ids: vec![3],
        acl_default: AclAction::Deny,
        compatibility_address: true,
    };
    let gateway = Some(SiteGatewayRow { id: id(2), listen_port: 51_820 });
    let update = sites::update_site(&request, 1, &gateway, &sources()).unwrap();
    assert_eq!(update.gateway_id, 2);
    assert_eq!(update.acl_default, "deny");
    assert_eq!((update.public_port, update.compatibility_address), (None, true));
    assert_eq!(update.granted_group_ids, vec![3]);
    assert_eq!(
        update.details_json,
        format!("{{\"groups\":[\"{}\"],\"routes\":[\"10.71.0.0/16\"]}}", id(3))
    );
    assert_eq!(
        refused(sites::update_site(&request, 1, &None, &sources())),
        ApiError::NotFound("site does not exist".into())
    );
    let zero = UpdateSiteRequest { public_port: Some(0), ..request };
    assert_eq!(
        refused(sites::update_site(&zero, 1, &gateway, &sources())),
        invalid("gateway port cannot be zero")
    );
}

#[test]
fn sites_are_told() {
    let row = Some(SiteRow {
        name: "branch".into(),
        acl_default: "allow".into(),
        gateway_id: id(2),
        kind: "linux".into(),
        status: "ready".into(),
        interface_name: "wm0".into(),
        endpoint_host: "vpn.example.com".into(),
        public_port: None,
        listen_port: Some(51_820),
        public_key: None,
        compatibility_address: false,
        desired_revision: 4,
        applied_revision: 3,
        last_seen_at: None,
        last_error: None,
    });
    let site = sites::get_site(1, &row, &["10.70.0.0/16".into()], &[id(3)]).unwrap();
    assert_eq!(site.endpoint.as_deref(), Some("vpn.example.com:51820"));
    assert_eq!(site.granted_group_ids, vec![3]);
    assert_eq!(site.desired_revision, 4);
    assert!(sites::get_site(1, &None, &[], &[]).is_err());
    assert!(sites::get_site(1, &row, &["x".into()], &[]).is_err());
}

#[test]
fn access_rules_are_replaced() {
    let rule = |position: u32, protocol: IpProtocol, ports: Option<(u16, u16)>| AclRuleModel {
        id: None,
        position,
        action: AclAction::Allow,
        destination: net("10.70.0.0/16"),
        protocol,
        destination_ports: ports.map(|(start, end)| PortRange { start, end }),
        user_ids: vec![5],
        group_ids: vec![6, 5],
        enabled: position == 1,
    };
    let request = |rules: Vec<AclRuleModel>| ReplaceAclRequest {
        default_action: AclAction::Deny,
        rules,
    };
    let good = request(vec![rule(1, IpProtocol::Tcp, Some((80, 90))), rule(2, IpProtocol::Any, None)]);
    let gateway = id(2);
    let plan = access::replace_acl(&good, 1, Some(&gateway), &[11, 12]).unwrap();
    assert_eq!(plan.rules[0].port_end, Some(90));
    assert_eq!((plan.rules[1].id, plan.rules[1].protocol), (12, "any"));
    assert_eq!(plan.details_json, "{\"default\":\"deny\",\"rules\":2}");
    for written in &plan.rules {
        assert_eq!((&written.user_ids, &written.group_ids), (&vec![5], &vec![6, 5]));
        assert_eq!(written.enabled, written.position == 1);
    }
    let twice = request(vec![rule(1, IpProtocol::Any, None), rule(1, IpProtocol::Any, None)]);
    assert_eq!(
        refused(access::replace_acl(&twice, 1, Some(&gateway), &[11, 12])),
        invalid("ACL positions must be unique")
    );
    for wrong in [rule(1, IpProtocol::Icmp, Some((1, 2))), rule(1, IpProtocol::Tcp, Some((2, 1)))] {
        assert_eq!(
            refused(access::check_new_rules(&[wrong])),
            invalid("ACL ports require TCP or UDP and an ordered range")
        );
    }
    assert!(access::replace_acl(&good, 1, None, &[11, 12]).is_err());
    let told = access::get_acl(
        Some("deny"),
        &[RuleRow {
            id: id(11),
            position: 1,
            action: "allow".into(),
            destination: "10.70.0.0/16".into(),
            protocol: "udp".into(),
            port_start: Some(1),
            port_end: Some(2),
            enabled: true,
            users: vec![id(5)],
            groups: vec![],
        }],
    )
    .unwrap();
    assert_eq!(told.rules[0].user_ids, vec![5]);
    assert_eq!(told.rules[0].protocol, IpProtocol::Udp);
    assert!(access::get_acl(None, &[]).is_err());
    assert!(access::get_acl(Some("maybe"), &[]).is_err());
}

#[test]
fn scheduled_hard_migration_moves_leases_and_profiles_atomically() {
    let devices = || vec![LeaseRow { id: id(7), vpn_address: "10.20.0.2".into() }];
    let sources = || MigrationSources {
        active: 0,
        old_pool: net("10.20.0.0/16"),
        routes: vec![],
        devices: devices(),
        gateways: vec![GatewayStateRow {
            id: id(9),
            kind: "linux".into(),
            compatibility_address: false,
            desired_revision: 3,
            state: state(9, 3, &[7]),
        }],
    };
    let at = render_later(now(), 31).unwrap();
    let created = migration::create(&at, net("10.30.0.0/16"), now(), sources()).unwrap();
    assert_eq!(created.plan.addresses[0].new_address, address_of(10, 30, 0, 2));
    assert_eq!(created.status, "preparing");
    let future = &created.plan.gateways[&9];
    assert_eq!(future.base_revision, 3);
    assert_eq!(future.state.revision, 4);
    assert_eq!(future.state.peers[0].allowed_address, address_of(10, 30, 0, 2));
    assert_eq!(future.state.terminate_sources, vec![address_of(10, 20, 0, 2)]);
    let ready = [MigrationGatewayRow { prepared: true, base_revision: 3, desired_revision: 3 }];
    let mut row = moved(created.plan.addresses.clone());
    let armed = migration::arm(&Some(row), "10.20.0.0/16", &devices(), &ready, now());
    assert_eq!(armed.unwrap(), "armed");
    row = moved(created.plan.addresses.clone());
    row.status = "armed".into();
    assert!(migration::is_due("armed", &row.effective_at, &render_later(now(), 32).unwrap()));
    assert!(!migration::is_due("armed", &row.effective_at, &render_time(now()).unwrap()));
    let step = migration::apply_one(&Some(row), "10.20.0.0/16", &devices(), &ready);
    assert_eq!(step.status(), Some("applied"));
    match step {
        migration::ApplyStep::Apply(pool) => assert_eq!(pool, net("10.30.0.0/16")),
        _ => panic!("nothing changed since"),
    }
    assert_eq!(
        migration::placeholder(1, 7),
        format!("migration:{}:{}", id(1), id(7))
    );
}

#[test]
fn migrations_are_refused() {
    let none = |active: i64| MigrationSources {
        active,
        old_pool: net("10.20.0.0/16"),
        routes: vec![],
        devices: vec![],
        gateways: vec![],
    };
    let create = |at: &str, pool: &str, active: i64| {
        refused(migration::create(at, net(pool), now(), none(active)))
    };
    let at = render_later(now(), 31).unwrap();
    assert_eq!(
        create("soon", "10.30.0.0/16", 0),
        invalid("effective_at must be an RFC 3339 timestamp")
    );
    assert_eq!(
        create(&render_later(now(), 30).unwrap(), "10.30.0.0/16", 0),
        invalid("migration must be scheduled at least 30 seconds in the future")
    );
    assert_eq!(
        create(&at, "10.30.0.0/16", 1),
        conflict("another subnet migration is already active")
    );
    assert_eq!(create(&at, "10.20.0.0/16", 0), invalid("new pool is unchanged"));
    assert_eq!(
        create(&at, "10.0.0.0/8", 0),
        invalid("containing-supernet changes are in-place expansions, not hard migrations")
    );
    assert_eq!(
        create(&at, "10.30.0.0/31", 0),
        invalid("client pool must contain at least four addresses")
    );
}

#[test]
fn only_prepared_migrations_are_armed() {
    let arm = |row: Option<MigrationRow>, pool: &str, gateways: &[MigrationGatewayRow]| {
        refused(migration::arm(&row, pool, &[], gateways, now()))
    };
    let pool = "10.20.0.0/16";
    let idle = [MigrationGatewayRow { prepared: false, base_revision: 1, desired_revision: 1 }];
    let drifted = [MigrationGatewayRow { prepared: true, base_revision: 1, desired_revision: 2 }];
    assert_eq!(
        arm(Some(moved(vec![])), pool, &idle),
        conflict("1 gateway(s) have not validated the future state")
    );
    assert_eq!(
        arm(Some(moved(vec![])), pool, &drifted),
        conflict("gateway state changed after preparation; cancel and create a new migration")
    );
    assert_eq!(
        arm(Some(moved(vec![])), "10.99.0.0/16", &[]),
        conflict("client pool changed after this migration was planned")
    );
    let mut armed = moved(vec![]);
    armed.status = "armed".into();
    assert_eq!(arm(Some(armed), pool, &[]), conflict("migration is not preparing"));
    let mut late = moved(vec![]);
    late.effective_at = render_time(now()).unwrap();
    assert_eq!(arm(Some(late), pool, &[]), conflict("migration effective time has passed"));
    assert!(matches!(arm(None, pool, &[]), ApiError::NotFound(_)));
    assert_eq!(migration::cancel("preparing").unwrap(), "cancelled");
    for over in ["cancelled", "failed", "applied"] {
        assert!(migration::cancel(over).is_err());
        let row = || Some(MigrationRow { status: over.into(), ..moved(Vec::new()) });
        assert_eq!(arm(row(), pool, &[]), conflict("migration is not preparing"));
        let step = migration::apply_one(&row(), pool, &[], &[]);
        assert_eq!(step.status(), None);
        assert!(matches!(step, migration::ApplyStep::Refuse(_)));
    }
    assert_eq!(
        refused(migration::cancel("armed")),
        conflict("only a preparing migration can be cancelled")
    );
    let expected = Some(PreparationRow { future_revision: 4, expected_state_hash: "h".into() });
    assert!(migration::record_prepared(&expected, 4, "h").is_ok());
    assert!(migration::record_prepared(&expected, 5, "h").is_err());
    assert!(migration::record_prepared(&None, 4, "h").is_err());
    assert!(migration::has_drifted(&drifted) && !migration::has_drifted(&idle));
}

#[test]
fn devices_that_changed_stop_a_migration() {
    let moves = vec![migration::AddressMove {
        device_id: 7,
        old_address: address_of(10, 20, 0, 2),
        new_address: address_of(10, 30, 0, 2),
    }];
    let check = |devices: &[LeaseRow]| {
        refused(migration::validate_plan_source(&moves, "p", "p", devices))
    };
    assert_eq!(check(&[]), conflict("device set changed after this migration was planned"));
    let elsewhere = [LeaseRow { id: id(7), vpn_address: "10.20.0.3".into() }];
    assert_eq!(
        check(&elsewhere),
        conflict("device addresses changed after this migration was planned")
    );
    let mut row = moved(moves.clone());
    row.status = "armed".into();
    let step = migration::apply_one(&Some(row), "10.20.0.0/16", &elsewhere, &[]);
    assert_eq!(step.status(), Some("failed"));
    assert!(matches!(step, migration::ApplyStep::Fail(_)));
    assert!(matches!(
        migration::apply_one(&None, "10.20.0.0/16", &[], &[]),
        migration::ApplyStep::Refuse(_)
    ));
    let told = migration::migration_response(&id(1), &moved(moves.clone()), 1, 2).unwrap();
    assert_eq!(told.affected_devices, 1);
    assert_eq!(told.new_pool, net("10.30.0.0/16"));
}

#[test]
fn router_credentials_are_encrypted_and_exported_only_for_the_agent() {
    let vault = SecretBox::from_bytes(&[12_u8; 32]).unwrap();
    let row = Some(RouterRow { id: id(2), kind: "mikrotik".into(), router_url: None });
    let gateway_id = router_target::router_of_site(&row).unwrap();
    let request = UpdateRouterTargetRequest {
        base_url: "https://router.example.com".into(),
        username: "wiremesh".into(),
        password: Some("router-secret".into()),
        ca_certificate_pem: Some(
            "-----BEGIN CERTIFICATE-----\ntest\n-----END CERTIFICATE-----".into(),
        ),
    };
    let update = router_target::update_for_site(&vault, 5, gateway_id, &None, &request).unwrap();
    let told = &update.response;
    assert!(told.configured && told.has_password && told.has_ca_certificate);
    assert!(!String::from_utf8_lossy(&update.envelope).contains("router-secret"));
    assert_eq!(update.router_url, "https://router.example.com");
    let credential = router_target::next_credential(&request, &None).unwrap();
    let payload =
        router_target::payload_for_gateway(Some("mikrotik"), &Some(credential.clone())).unwrap();
    let read: serde_json::Value = serde_json::from_str(&payload.unwrap()).unwrap();
    assert_eq!(read["password"], "router-secret");
    let opened = vault.decrypt(&router_target::context(2), &update.envelope).unwrap();
    assert_eq!(opened, router_target::credential_text(&credential).as_bytes());
    assert!(router_target::payload_for_gateway(Some("linux"), &Some(credential)).unwrap().is_none());
    assert!(router_target::payload_for_gateway(None, &None).is_err());
}

#[test]
fn router_targets_are_checked() {
    let linux = Some(RouterRow { id: id(2), kind: "linux".into(), router_url: None });
    assert_eq!(
        refused(router_target::router_of_site(&linux)),
        invalid("router credentials apply only to MikroTik sites")
    );
    assert!(router_target::router_of_site(&None).is_err());
    assert_eq!(router_target::validate_url(" https://r.example/ ").unwrap(), "https://r.example/");
    for url in ["http://r", "https://r/rest", "https://u@r", "https://r?q", "https://r#f"] {
        assert!(router_target::validate_url(url).is_err(), "{url}");
    }
    let request = UpdateRouterTargetRequest {
        base_url: "https://r.example".into(),
        username: " ".into(),
        password: None,
        ca_certificate_pem: None,
    };
    assert_eq!(
        refused(router_target::next_credential(&request, &None)),
        invalid("RouterOS username must contain 1-128 characters")
    );
    let named = UpdateRouterTargetRequest { username: "u".into(), ..request };
    assert_eq!(
        refused(router_target::next_credential(&named, &None)),
        invalid("RouterOS password is required")
    );
    let known = UpdateRouterTargetRequest { password: Some("p".into()), ..named };
    assert_eq!(
        refused(router_target::next_credential(&known, &None)),
        invalid("RouterOS CA certificate is required")
    );
    let torn = UpdateRouterTargetRequest { ca_certificate_pem: Some("x".into()), ..known };
    assert!(router_target::next_credential(&torn, &None).is_err());
    let unset = Some(RouterRow {
        id: id(2),
        kind: "mikrotik".into(),
        router_url: Some("https://r".into()),
    });
    let told = router_target::get_for_site(&unset, &None).unwrap();
    assert!(!told.configured && told.base_url == "https://r");
}

#[test]
fn agents_are_created_and_their_secrets_rotated() {
    let request = CreateAgentRequest { name: " edge-1 ".into(), kind: GatewayKindRequest::Linux };
    let agent = fleet::create_agent(&request, 3, "secret").unwrap();
    assert_eq!(agent.response.name, "edge-1");
    assert_eq!(agent.secret_hash, token_digest(b"secret"));
    assert_eq!(agent.details_json, "{\"kind\":\"linux\",\"name\":\"edge-1\"}");
    let nameless = CreateAgentRequest { name: " ".into(), ..request };
    assert_eq!(
        refused(fleet::create_agent(&nameless, 3, "secret")),
        invalid("agent name must contain 1-128 characters")
    );
    let next = fleet::rotate_agent_secret(true, 3, "next").unwrap();
    assert_eq!(next.details_json, "{\"overlap\":true}");
    assert!(fleet::rotate_agent_secret(false, 3, "next").is_err());
    assert_eq!(fleet::promote_agent_secret(true, 3).unwrap().1, "{\"overlap\":false}");
    assert_eq!(
        refused(fleet::promote_agent_secret(false, 3)),
        conflict("agent has no next secret to promote")
    );
    let row = AgentRow {
        id: id(3),
        name: "edge-1".into(),
        kind: "linux".into(),
        version: None,
        last_seen_at: Some(render_time(now()).unwrap()),
    };
    assert!(fleet::agent_from_row(&row, now()).unwrap().online);
    let later = Timestamp { secs: now().secs + 45, nanos: 0 };
    assert!(!fleet::agent_from_row(&row, later).unwrap().online);
}

#[test]
fn agents_sign_in_with_either_secret() {
    let row = Some(AgentSecrets {
        current: token_digest(b"old"),
        next: Some(token_digest(b"new")),
    });
    assert!(grpc::authenticate_agent(&row, "old").is_ok());
    assert!(grpc::authenticate_agent(&row, "new").is_ok());
    assert_eq!(
        denied(grpc::authenticate_agent(&row, "other")).code,
        StatusCode::Unauthenticated
    );
    assert!(grpc::authenticate_agent(&None, "old").is_err());
    assert_eq!(grpc::bearer_secret(Some("Bearer abc")).unwrap(), "abc");
    assert!(grpc::bearer_secret(Some("Bearer ")).is_err());
    assert!(grpc::bearer_secret(None).is_err());
}

#[test]
fn the_first_message_is_hello() {
    let hello = |major: u32, agent: &str| AgentHello {
        agent_id: agent.into(),
        protocol_major: major,
        protocol_minor: 7,
        agent_version: "1".into(),
        boot_id: "b".into(),
        capabilities: vec!["nftables".into()],
    };
    let check = |hello: AgentHello| grpc::check_hello(&Some(AgentMessage::Hello(hello)));
    assert_eq!(check(hello(1, &id(3))).unwrap(), 3);
    let wrong = denied(check(hello(2, &id(3))));
    assert_eq!(wrong.code, StatusCode::FailedPrecondition);
    assert_eq!(wrong.message, "protocol major 2 is unsupported; controller requires 1");
    assert!(check(hello(1, "x")).is_err());
    assert!(grpc::check_hello(&Some(AgentMessage::Heartbeat { unix_seconds: 1 })).is_err());
    let record = grpc::register_hello(&hello(1, &id(3)));
    assert_eq!(record.protocol_minor, 0);
    assert_eq!(record.capabilities_json, "[\"nftables\"]");
}

#[test]
fn agents_speak_for_their_own_gateways() {
    let applied = |gateway: &str| {
        Some(AgentMessage::Applied(RevisionApplied {
            gateway_id: gateway.into(),
            revision: 1,
            actual_state_hash: "h".into(),
            applied_unix_seconds: 0,
        }))
    };
    assert_eq!(grpc::message_subject(&applied("g")).as_deref(), Some("g"));
    assert!(matches!(
        grpc::handle_message(&applied(&id(9)), true).unwrap(),
        MessageStep::Applied { gateway_id: 9 }
    ));
    assert_eq!(
        denied(grpc::handle_message(&applied(&id(9)), false)).code,
        StatusCode::PermissionDenied
    );
    let facts = |public_key: String, port: u32| {
        Some(AgentMessage::Facts(GatewayFacts {
            gateway_id: id(9),
            public_key,
            listen_port: port,
            actual_state_hash: "h".into(),
            backend_version: "v".into(),
        }))
    };
    assert!(matches!(
        grpc::handle_message(&facts(key(1), 51_820), true).unwrap(),
        MessageStep::Facts { gateway_id: 9, listen_port: 51_820 }
    ));
    assert!(grpc::handle_message(&facts("x".into(), 51_820), true).is_err());
    assert!(grpc::handle_message(&facts(key(1), 70_000), true).is_err());
    assert_eq!(denied(grpc::handle_message(&None, true)).message, "empty agent message");
    let same = grpc::record_facts(&Some(key(1)), Some(51_820), &key(1), 51_820);
    assert!(!same.register_key && !same.refresh_profiles);
    let moved = grpc::record_facts(&Some(key(1)), Some(1), &key(1), 51_820);
    assert!(!moved.register_key && moved.refresh_profiles);
    assert!(grpc::record_facts(&None, Some(51_820), &key(1), 51_820).register_key);
}

#[test]
fn connections_send_what_is_new() {
    let mut connection = Connection::new();
    assert!(connection.wants(9, 1));
    connection.note_revision(9, 1);
    assert!(!connection.wants(9, 1) && connection.wants(9, 2));
    let pings: Vec<bool> = (0..6).map(|_| connection.tick()).collect();
    assert_eq!(pings, vec![false, false, true, false, false, true]);
    assert_eq!(connection.previous_status(1, 9), None);
    connection.note_migration(1, 9, "preparing");
    assert_eq!(connection.previous_status(1, 9).as_deref(), Some("preparing"));
}

#[test]
fn migrations_are_announced_once() {
    let row = |status: &str| MigrationNoticeRow {
        id: id(1),
        gateway_id: id(9),
        status: status.into(),
        effective_at: render_time(now()).unwrap(),
    };
    let plan = |status: &str, previous: Option<&str>| {
        grpc::plan_notice(&row(status), &previous.map(str::to_string)).unwrap()
    };
    assert!(matches!(
        plan("armed", None),
        MigrationNotice::Announce { prepare: true, arm: true, effective_unix_seconds: 1_700_000_000 }
    ));
    assert!(matches!(
        plan("armed", Some("preparing")),
        MigrationNotice::Announce { prepare: false, arm: true, .. }
    ));
    assert!(matches!(plan("armed", Some("armed")), MigrationNotice::Nothing));
    assert!(matches!(plan("cancelled", Some("armed")), MigrationNotice::Cancel));
    assert!(matches!(plan("cancelled", None), MigrationNotice::Nothing));
    assert_eq!(grpc::notice_ids(&row("armed")).unwrap(), (1, 9));
    assert!(grpc::future_of(&BTreeMap::new(), 9).is_err());
    assert_eq!(grpc::key_is_taken().code, StatusCode::AlreadyExists);
    let record = grpc::prepared_record(1, 9, 4, "h");
    assert_eq!((record.event, record.audit.object_id), ("prepared", Some(9)));
    assert_eq!(record.audit.action, "gateway.migration.prepared");
    assert_eq!(
        record.details_json,
        format!("{{\"migration_id\":\"{}\",\"revision\":4,\"state_hash\":\"h\"}}", id(1))
    );
    assert_eq!(
        grpc::internal_status(&conflict("x")).message,
        "controller operation failed"
    );
    assert_eq!(grpc::database_status().code, StatusCode::Internal);
    assert_eq!(grpc::database_status().message, "controller database operation failed");
}

#[test]
fn database_files_are_found() {
    assert_eq!(db::sqlite_file_path("sqlite://data/w.db?mode=rwc").as_deref(), Some("data/w.db"));
    assert_eq!(db::sqlite_file_path("sqlite://:memory:"), None);
    assert_eq!(db::sqlite_file_path("sqlite://"), None);
    assert_eq!(db::sqlite_file_path("postgres://x"), None);
}

#[test]
fn filters_are_escaped() {
    assert_eq!(
        federated::person_filter(&ldap(), "a*(b)\\c@x"),
        "(&(objectClass=person)(mail=a\\2a\\28b\\29\\5cc@x))"
    );
}

#[test]
fn directory_logins_are_decided() {
    let begin = |password: &str, enabled: bool| {
        federated::begin_ldap_login(" A@X.org ", password, ProviderKind::Ldap, enabled)
    };
    assert_eq!(begin("pw", true).unwrap(), "a@x.org");
    assert_eq!(
        refused(begin("", true)),
        ApiError::Unauthorized("email or password is incorrect".into())
    );
    assert_eq!(
        refused(begin("pw", false)),
        ApiError::Forbidden("LDAP realm is not enabled".into())
    );
    let person = dir_entry("cn=a", &[("entryUUID", &["u1"])]);
    assert_eq!(federated::ldap_person(&ldap(), &[person]).unwrap(), "u1");
    assert!(federated::ldap_person(&ldap(), &[]).is_err());
    let bare = dir_entry("cn=a", &[]);
    assert!(matches!(
        federated::ldap_person(&ldap(), &[bare]),
        Err(ApiError::Forbidden(_))
    ));
    let row = |active: bool| {
        Some(LdapIdentityRow {
            user_id: id(5),
            active,
            provider_enabled: true,
            manual_disabled: false,
            ldap_disabled: false,
            soft_deleted_at: None,
        })
    };
    assert_eq!(federated::finish_ldap_login(&row(true)).unwrap(), 5);
    assert!(federated::finish_ldap_login(&row(false)).is_err());
    assert!(federated::finish_ldap_login(&None).is_err());
}

#[test]
fn nested_groups_are_followed_as_deep_as_asked() {
    let members = |names: &[&'static str]| -> Vec<&'static str> { names.to_vec() };
    let staff = members(&["CN=Ann,DC=x"]);
    let all = members(&["cn=staff,dc=x"]);
    let top = members(&["cn=all,dc=x"]);
    let groups = [
        dir_entry("cn=staff,dc=x", &[("cn", &["Staff"]), ("member", &staff)]),
        dir_entry("cn=all,dc=x", &[("member", &all)]),
        dir_entry("cn=top,dc=x", &[("cn", &["Top"]), ("member", &top)]),
    ];
    let graph = federated::build_group_graph(&ldap(), &groups);
    assert_eq!(graph.groups_for_member("cn=ann,dc=x", 0), vec!["Staff"]);
    assert_eq!(graph.groups_for_member("cn=ann,dc=x", 1), vec!["Staff", "all"]);
    assert_eq!(graph.groups_for_member("cn=ann,dc=x", 9), vec!["Staff", "Top", "all"]);
    assert!(graph.groups_for_member("cn=bob,dc=x", 9).is_empty());
    assert_eq!(groups::normalize_dn(" CN=A "), "cn=a");
    assert_eq!(groups::group_name_from_dn("cn=Staff,dc=x").as_deref(), Some("Staff"));
    assert_eq!(groups::group_name_from_dn("nothing"), None);
}

#[test]
fn cycles_of_groups_end() {
    let a = ["cn=b"];
    let b = ["cn=a", "cn=ann"];
    let groups = [
        dir_entry("cn=a", &[("cn", &["A"]), ("member", &a)]),
        dir_entry("cn=b", &[("cn", &["B"]), ("member", &b)]),
    ];
    let graph = federated::build_group_graph(&ldap(), &groups);
    assert_eq!(graph.groups_for_member("cn=ann", 32), vec!["A", "B"]);
}

#[test]
fn directories_are_read() {
    let groups = [dir_entry("cn=staff,dc=x", &[("cn", &["Staff"]), ("member", &["cn=ann"])])];
    let ann = dir_entry(
        "cn=ann",
        &[
            ("entryUUID", &["u1"]),
            ("mail", &["ann@x.org"]),
            ("memberOf", &["cn=ops,dc=x"]),
            ("locked", &["true"]),
        ],
    );
    let people = federated::directory_people(&ldap(), &groups, &[ann]).unwrap();
    assert_eq!(people[0].name, "ann@x.org");
    assert_eq!(people[0].groups, vec!["Staff", "ops"]);
    assert!(!people[0].active);
    let nameless = dir_entry("cn=bob", &[("mail", &["bob@x.org"])]);
    assert_eq!(
        refused(federated::directory_people(&ldap(), &[], &[nameless])),
        invalid("LDAP entry cn=bob has no immutable ID")
    );
    let mut binary = dir_entry("cn=eve", &[("mail", &["eve@x.org"])]);
    binary.bin_attrs.push(("entryUUID".into(), vec![vec![1, 2, 3]]));
    let people = federated::directory_people(&ldap(), &[], &[binary]).unwrap();
    assert_eq!(people[0].external_id, "AQID");
    assert!(people[0].active);
}

#[test]
fn syncs_are_checked() {
    assert!(federated::check_sync(ProviderKind::Ldap, true).is_ok());
    assert!(federated::check_sync(ProviderKind::Oidc, true).is_err());
    assert!(federated::check_sync_config(&ldap()).is_ok());
    let wide = LdapConfig { page_size: 5_001, ..ldap() };
    assert_eq!(
        refused(federated::check_sync_config(&wide)),
        invalid("LDAP page_size must be between 1 and 5000")
    );
    let deep = LdapConfig { nested_group_depth: 33, ..ldap() };
    assert_eq!(
        refused(federated::check_sync_config(&deep)),
        invalid("LDAP nested_group_depth cannot exceed 32")
    );
    assert!(federated::check_result_size(100_000).is_ok());
    assert!(federated::check_result_size(100_001).is_err());
    assert!(federated::is_sync_due(&None, Some(300), now()));
    assert!(!federated::is_sync_due(&None, None, now()));
    let last = Some(render_later(now(), -300).unwrap());
    assert!(federated::is_sync_due(&last, Some(300), now()));
    assert!(!federated::is_sync_due(&last, Some(301), now()));
}

#[test]
fn oidc_logins_begin_and_end_once() {
    let vault = SecretBox::from_bytes(&[8_u8; 32]).unwrap();
    let begun = federated::start_oidc(
        &vault,
        3,
        4,
        "state",
        "nonce",
        "verifier",
        "https://x/callback",
        now(),
    )
    .unwrap();
    assert_eq!(begun.state_hash, token_digest(b"state"));
    assert_eq!(begun.expires_at, render_later(now(), 600).unwrap());
    assert_eq!(
        vault.decrypt(&federated::state_context(3), &begun.pkce_verifier_envelope).unwrap(),
        b"{\"verifier\":\"verifier\",\"nonce\":\"nonce\"}"
    );
    let row = |consumed: Option<String>| {
        Some(OidcStateRow {
            id: id(3),
            provider_id: id(4),
            consumed_at: consumed,
            expires_at: begun.expires_at.clone(),
        })
    };
    let text = render_time(now()).unwrap();
    assert_eq!(federated::finish_oidc(&row(None), &text).unwrap(), (3, 4));
    assert_eq!(
        refused(federated::finish_oidc(&row(Some(text.clone())), &text)),
        ApiError::Unauthorized("OIDC state is invalid or expired".into())
    );
    assert!(federated::finish_oidc(&row(None), &begun.expires_at).is_err());
    assert_eq!(
        federated::requested_scopes(&oidc().scopes),
        vec!["openid", "email", "profile", "groups"]
    );
    assert!(federated::check_oidc(ProviderKind::Oidc, true).is_ok());
    assert!(federated::check_oidc(ProviderKind::Oidc, false).is_err());
    assert!(federated::check_userinfo_url("http://x").is_err());
}

#[test]
fn claims_are_read() {
    let userinfo = r#"{"name":"Ann","title":"Dr","groups":["b","a","b",7]}"#;
    let claims =
        federated::person_claims(&oidc(), "sub", Some("ann@x.org"), Some(true), userinfo).unwrap();
    assert_eq!((claims.name.as_str(), claims.title.as_str()), ("Ann", "Dr"));
    assert_eq!(claims.groups, vec!["a", "b"]);
    let bare = federated::person_claims(&oidc(), "sub", Some("ann@x.org"), None, "{}").unwrap();
    assert_eq!(bare.name, "ann@x.org");
    assert!(!bare.email_verified && bare.groups.is_empty());
    assert!(federated::person_claims(&oidc(), "sub", None, None, "{}").is_err());
    assert_eq!(federated::claim_strings(r#"{"groups":"one"}"#, "groups"), vec!["one"]);
}

#[test]
fn settings_are_read() {
    let read = settings::system_settings(&settings_rows()).unwrap();
    assert_eq!(read.client_pool, net("10.20.0.0/16"));
    assert_eq!(read.default_device_limit, 5);
    assert_eq!(read.client_options, options());
    for (missing, text) in [
        (0, "client_pool setting missing"),
        (1, "default_device_limit setting missing"),
        (2, "client_options setting missing"),
    ] {
        let mut rows = settings_rows();
        rows.remove(missing);
        assert_eq!(
            refused(settings::system_settings(&rows)),
            ApiError::Internal(text.into())
        );
    }
    let mut rows = settings_rows();
    rows[1].value_json = "-1".into();
    assert!(matches!(settings::system_settings(&rows), Err(ApiError::Internal(_))));
    let mut rows = settings_rows();
    rows[0].value_json = "10".into();
    assert!(settings::system_settings(&rows).is_err());
    assert_eq!(settings::stored_pool("\"10.0.0.0/8\"").unwrap(), net("10.0.0.0/8"));
}

#[test]
fn client_options_are_checked() {
    assert!(settings::validate_client_options(&options()).is_ok());
    let check = |options: ClientOptions| refused(settings::validate_client_options(&options));
    assert_eq!(
        check(ClientOptions { search_domains: vec!["a b".into()], ..options() }),
        invalid("DNS search domains are invalid")
    );
    for mtu in [575, 9001] {
        assert_eq!(
            check(ClientOptions { mtu: Some(mtu), ..options() }),
            invalid("MTU must be between 576 and 9000")
        );
    }
    assert_eq!(
        check(ClientOptions { persistent_keepalive: Some(0), ..options() }),
        invalid("PersistentKeepalive must be omitted or non-zero")
    );
}

#[test]
fn settings_are_changed() {
    let request = |pool: &str, limit: u32| UpdateSystemSettingsRequest {
        client_pool: net(pool),
        default_device_limit: limit,
        client_options: options(),
    };
    let current = net("10.20.0.0/16");
    let update = settings::update_system_settings(&request("10.0.0.0/8", 7), current, &[], &[])
        .unwrap();
    assert_eq!(update.values[0], ("client_pool", "\"10.0.0.0/8\"".to_string()));
    assert_eq!(update.values[1], ("default_device_limit", "7".to_string()));
    assert_eq!(
        update.values[2].1,
        "{\"dns_servers\":[\"10.0.0.53\"],\"search_domains\":[\"corp\"],\"mtu\":1420,\"persistent_keepalive\":25}"
    );
    assert_eq!(
        update.details_json,
        "{\"client_options\":{\"dns_servers\":[\"10.0.0.53\"],\"mtu\":1420,\"persistent_keepalive\":25,\"search_domains\":[\"corp\"]},\"client_pool\":\"10.0.0.0/8\",\"default_device_limit\":7}"
    );
    let refuse = |request: UpdateSystemSettingsRequest| {
        refused(settings::update_system_settings(&request, current, &[], &[]))
    };
    assert_eq!(
        refuse(request("10.20.0.0/16", 0)),
        invalid("default device limit must be between 1 and 100")
    );
    assert_eq!(
        refuse(request("10.21.0.0/16", 5)),
        invalid("new pool must contain the old pool for an in-place expansion")
    );
    let routes = [
        RouteRow { gateway_id: id(1), site_id: id(2), cidr: "10.30.0.0/16".into() },
        RouteRow { gateway_id: id(3), site_id: id(4), cidr: "10.40.0.0/16".into() },
    ];
    assert_eq!(
        refused(settings::update_system_settings(
            &request("10.0.0.0/8", 5),
            current,
            &routes,
            &[]
        )),
        invalid("client-pool routes may belong to only one gateway")
    );
}

#[test]
fn metrics_are_told() {
    let counts = Counts {
        users: 1,
        devices: 2,
        sites: 3,
        gateways_online: 4,
        gateways_stale: 5,
        pool_allocated: 6,
        pool_quarantined: 7,
        gateways_drifted: 8,
        outdated_profiles: 9,
        mail_jobs_pending: 10,
        armed_migrations: 11,
    };
    let text = settings::prometheus_metrics(&counts, net("10.20.0.0/29"), "1.2.3").unwrap();
    assert!(text.starts_with(
        "# HELP wiremesh_users Users not soft-deleted.\n# TYPE wiremesh_users gauge\nwiremesh_users 1\n"
    ));
    assert!(text.contains("wiremesh_gateways{state=\"online\"} 4\n"));
    assert!(text.contains("wiremesh_client_pool_addresses{state=\"capacity\"} 5\n"));
    assert!(text.contains("wiremesh_client_pool_addresses{state=\"quarantined\"} 7\n"));
    assert!(text.ends_with("wiremesh_build_info{version=\"1.2.3\"} 1\n"));
    assert_eq!(text.lines().count(), 30);
    assert!(settings::prometheus_metrics(&counts, net("10.20.0.0/32"), "1").is_err());
}

#[test]
fn the_audit_log_and_groups_are_told() {
    let row = AuditRow {
        id: id(1),
        occurred_at: "t".into(),
        actor_user_id: Some(id(5)),
        actor_kind: "user".into(),
        action: "user.create".into(),
        object_kind: "user".into(),
        object_id: None,
        outcome: "success".into(),
        details_json: "{ \"b\": 1, \"a\": 2 }".into(),
    };
    let event = settings::audit_event(&row).unwrap();
    assert_eq!(event.actor_user_id, Some(5));
    assert_eq!(event.details, "{\"a\":2,\"b\":1}");
    let torn = AuditRow { details_json: "{".into(), ..row };
    assert!(matches!(settings::audit_event(&torn), Err(ApiError::Internal(_))));
    let group = GroupRow {
        id: id(3),
        normalized_name: "staff".into(),
        display_name: "Staff".into(),
        members: 4,
    };
    assert_eq!(settings::group_from_row(&group).unwrap().members, 4);
}
