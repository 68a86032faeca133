//! Gateways: the messages to them, and what their backends do.

use std::collections::BTreeSet;

use base64::engine::general_purpose::STANDARD;
use base64::Engine;

use wiremesh::acl::{
    evaluate_acl, AclAction, AclRule, AclSubjects, IpProtocol, PacketContext, PortRange,
};
use wiremesh::agent::{
    cache_file_name, is_cached_state, prepared_file_name, ApplyOutcome, ApplyStep, DriverError,
    ObservedGateway, ReconcileError, Reconciler,
};
use wiremesh::drift::{by_gateway, DriftRun};
use wiremesh::fingerprint::{state_hash, state_text};
use wiremesh::ipv4::{address_of, Ipv4Net};
use wiremesh::linux;
use wiremesh::linux_plan;
use wiremesh::mikrotik;
use wiremesh::protocol::{desired_from_proto, desired_to_proto, ProtocolError};
use wiremesh::router;
use wiremesh::router_plan;
use wiremesh::runtime;
use wiremesh::runtime::{
    AgentConfig, AgentConfigError, AgentMessage, AgentStep, ControllerMessage, PendingMigrations,
    Purpose,
};
use wiremesh::state::{DesiredGatewayState, DesiredPeer};
use wiremesh::walk::{Progress, Report};

const NIL: &str = "00000000-0000-0000-0000-000000000000";

fn net(value: &str) -> Ipv4Net {
    Ipv4Net::parse(value).unwrap()
}

fn key(byte: u8) -> String {
    STANDARD.encode([byte; 32])
}

fn bare(revision: u64) -> DesiredGatewayState {
    DesiredGatewayState {
        gateway_id: 500,
        revision,
        interface_name: "wm0".into(),
        listen_port: 51_820,
        mtu: None,
        compatibility_address: None,
        routes: vec![],
        peers: vec![],
        acl_default: AclAction::Allow,
        acl_rules: vec![],
        terminate_sources: vec![address_of(10, 20, 0, 2)],
    }
}

fn linux_state() -> DesiredGatewayState {
    let group = 9001;
    DesiredGatewayState {
        gateway_id: 0,
        revision: 4,
        interface_name: "wm0".into(),
        listen_port: 51_820,
        mtu: Some(1_420),
        compatibility_address: None,
        routes: vec![net("10.40.0.0/16")],
        peers: vec![DesiredPeer {
            device_id: 21,
            user_id: 22,
            public_key: key(7),
            allowed_address: address_of(10, 20, 0, 2),
            group_ids: BTreeSet::from([group]),
        }],
        acl_default: AclAction::Deny,
        acl_rules: vec![AclRule {
            id: 0,
            position: 10,
            action: AclAction::Allow,
            destination: net("10.40.1.0/24"),
            protocol: IpProtocol::Tcp,
            destination_ports: Some(PortRange { start: 22, end: 22 }),
            subjects: AclSubjects { users: BTreeSet::new(), groups: BTreeSet::from([group]) },
            enabled: true,
        }],
        terminate_sources: vec![],
    }
}

fn router_state() -> DesiredGatewayState {
    let user = 31;
    DesiredGatewayState {
        gateway_id: 0,
        revision: 9,
        interface_name: "wiremesh".into(),
        listen_port: 51_820,
        mtu: Some(1_420),
        compatibility_address: Some(address_of(10, 20, 0, 1)),
        routes: vec![net("10.50.0.0/16")],
        peers: vec![DesiredPeer {
            device_id: 32,
            user_id: user,
            public_key: key(4),
            allowed_address: address_of(10, 20, 0, 2),
            group_ids: BTreeSet::new(),
        }],
        acl_default: AclAction::Deny,
        acl_rules: vec![AclRule {
            id: 33,
            position: 10,
            action: AclAction::Allow,
            destination: net("10.50.1.0/24"),
            protocol: IpProtocol::Tcp,
            destination_ports: Some(PortRange { start: 443, end: 443 }),
            subjects: AclSubjects { users: BTreeSet::from([user]), groups: BTreeSet::new() },
            enabled: true,
        }],
        terminate_sources: vec![],
    }
}

fn arguments(command: &linux::CommandSpec) -> String {
    format!("{} {}", command.program, command.arguments.join(" "))
}

fn settle(step: AgentStep) -> AgentStep {
    match step {
        AgentStep::Proceed { snapshot, purpose } => runtime::use_snapshot(snapshot, purpose),
        other => other,
    }
}

fn config() -> AgentConfig {
    AgentConfig {
        controller_url: "https://controller.example:8443".into(),
        server_name: "controller.example".into(),
        ca_certificate: "/etc/wiremesh/ca.pem".into(),
        agent_id: 7,
        secret: "0123456789abcdef0123456789abcdef".into(),
        cache_directory: "/var/lib/wiremesh/desired".into(),
        capabilities: vec!["wireguard".into()],
        heartbeat_interval: 10,
    }
}

#[test]
fn desired_snapshot_round_trips() {
    let state = DesiredGatewayState {
        gateway_id: 1001,
        revision: 7,
        interface_name: "wm0".into(),
        listen_port: 51_820,
        mtu: Some(1_420),
        compatibility_address: None,
        routes: vec![net("10.0.0.0/8")],
        peers: vec![DesiredPeer {
            device_id: 1002,
            user_id: 1003,
            public_key: "key".into(),
            allowed_address: address_of(10, 20, 0, 2),
            group_ids: BTreeSet::from([1004]),
        }],
        acl_default: AclAction::Deny,
        acl_rules: vec![],
        terminate_sources: vec![],
    };
    assert_eq!(desired_from_proto(desired_to_proto(&state)).unwrap(), state);
}

#[test]
fn snapshots_with_rules_round_trip() {
    let mut state = linux_state();
    state.acl_rules[0].protocol = IpProtocol::Udp;
    state.terminate_sources = vec![address_of(10, 20, 0, 9)];
    let read = desired_from_proto(desired_to_proto(&state)).unwrap();
    assert_eq!(read, state);
}

#[test]
fn wrong_snapshots_name_the_field() {
    let mut message = desired_to_proto(&linux_state());
    message.listen_port = 70_000;
    match desired_from_proto(message) {
        Err(ProtocolError::Invalid { field, .. }) => assert_eq!(field, "listen_port"),
        Ok(_) => panic!("the port is too large"),
    }
    let mut message = desired_to_proto(&linux_state());
    message.gateway_id = "gateway".into();
    match desired_from_proto(message) {
        Err(ProtocolError::Invalid { field, .. }) => assert_eq!(field, "gateway_id"),
        Ok(_) => panic!("the identifier is none"),
    }
    let mut message = desired_to_proto(&linux_state());
    message.acl_default = "maybe".into();
    assert!(desired_from_proto(message).is_err());
    let mut message = desired_to_proto(&linux_state());
    message.routes = vec!["10.0.0.0/40".into()];
    assert!(desired_from_proto(message).is_err());
    let mut message = desired_to_proto(&linux_state());
    message.peers[0].allowed_address = "10.0.0".into();
    assert!(desired_from_proto(message).is_err());
}

fn told(hash: &str) -> ApplyOutcome {
    ApplyOutcome { revision: 1, actual_state_hash: hash.into() }
}

/// Brings about a state with a backend that does whatever it is asked.
fn bring_about(
    reconciler: &mut Reconciler,
    desired: DesiredGatewayState,
    hash: &str,
) -> (Vec<ApplyStep>, ApplyOutcome) {
    let mut run = reconciler.begin(desired).unwrap_or_else(|_| panic!("the state is new"));
    let mut steps = Vec::new();
    loop {
        steps.push(run.step());
        let report = match run.step() {
            ApplyStep::Apply => Report::Told(told(hash)),
            _ => Report::Done,
        };
        run = match reconciler.advance(run, report) {
            Progress::Next(next) => next,
            Progress::Finished(outcome) => return (steps, outcome),
            Progress::Failed(_) => panic!("nothing failed"),
        };
    }
}

#[test]
fn applies_flushes_and_caches() {
    let mut reconciler = Reconciler::new();
    let (steps, outcome) = bring_about(&mut reconciler, bare(2), "live");
    let applies = steps.iter().filter(|step| **step == ApplyStep::Apply).count();
    let flushes = steps.iter().filter(|step| **step == ApplyStep::Flush).count();
    assert_eq!(applies, 1);
    assert_eq!(flushes, 1);
    assert_eq!(steps.last(), Some(&ApplyStep::Persist));
    assert_eq!(outcome, told("live"));
    assert_eq!(reconciler.current_gateways(), vec![(500, 2)]);
    assert!(matches!(
        reconciler.begin(bare(1)),
        Err(ReconcileError::StaleRevision { incoming: 1, current: 2 })
    ));
}

#[test]
fn connections_are_flushed_only_where_sources_are_cut_off() {
    let mut reconciler = Reconciler::new();
    let (steps, _) = bring_about(&mut reconciler, bare(1), "a");
    assert_eq!(
        steps,
        vec![ApplyStep::Validate, ApplyStep::Apply, ApplyStep::Flush, ApplyStep::Persist]
    );
    let quiet = DesiredGatewayState { terminate_sources: vec![], ..bare(2) };
    let (steps, _) = bring_about(&mut reconciler, quiet, "a");
    assert_eq!(steps, vec![ApplyStep::Validate, ApplyStep::Apply, ApplyStep::Persist]);
}

#[test]
fn a_failed_step_ends_an_apply_and_nothing_is_remembered() {
    let failures = [
        ReconcileError::Driver(DriverError::Invalid("x".into())),
        ReconcileError::Driver(DriverError::Apply("x".into())),
        ReconcileError::Driver(DriverError::Unavailable("x".into())),
        ReconcileError::Cache("x".into()),
    ];
    for (at, failure) in failures.iter().enumerate() {
        let mut reconciler = Reconciler::new();
        bring_about(&mut reconciler, bare(1), "a");
        let mut run = reconciler.begin(bare(2)).unwrap_or_else(|_| panic!("the state is new"));
        let mut taken = 0;
        let error = loop {
            let report = if taken == at {
                Report::Failed(failure.clone())
            } else if run.step() == ApplyStep::Apply {
                Report::Told(told("b"))
            } else {
                Report::Done
            };
            taken += 1;
            run = match reconciler.advance(run, report) {
                Progress::Next(next) => next,
                Progress::Finished(_) => panic!("a step failed"),
                Progress::Failed(error) => break error,
            };
        };
        assert_eq!(&error, failure);
        assert_eq!(taken, at + 1);
        assert_eq!(reconciler.current_gateways(), vec![(500, 1)]);
        assert!(!reconciler.drifted(500, Some("a")));
        assert!(reconciler.begin(bare(2)).is_ok());
    }
}

#[test]
fn states_are_brought_about_in_canonical_order() {
    let mut desired = linux_state();
    desired.routes = vec![net("10.70.0.0/16"), net("10.60.0.0/16")];
    let run = Reconciler::new().begin(desired).unwrap_or_else(|_| panic!("the state is new"));
    assert_eq!(run.desired().routes, vec![net("10.60.0.0/16"), net("10.70.0.0/16")]);
    assert_eq!(run.step(), ApplyStep::Validate);
}

#[test]
fn drift_is_seen_by_the_hash() {
    let mut reconciler = Reconciler::new();
    assert!(reconciler.drifted(500, Some("a")));
    bring_about(&mut reconciler, bare(1), "a");
    assert!(!reconciler.drifted(500, Some("a")));
    assert!(reconciler.drifted(500, Some("b")));
    assert!(reconciler.drifted(500, None));
    reconciler.restore(501, 3);
    assert_eq!(reconciler.current_gateways(), vec![(500, 1), (501, 3)]);
}

fn cached(gateway_id: u128) -> DesiredGatewayState {
    DesiredGatewayState { gateway_id, ..bare(1) }
}

#[test]
fn a_round_repairs_the_gateways_that_have_drifted() {
    let mut reconciler = Reconciler::new();
    for gateway_id in [1, 2, 3] {
        bring_about(&mut reconciler, cached(gateway_id), "a");
    }
    let states = vec![cached(4), cached(2), cached(1), cached(3)];
    assert_eq!(
        by_gateway(states.clone()).iter().map(|state| state.gateway_id).collect::<Vec<_>>(),
        vec![1, 2, 3, 4]
    );
    let mut run = DriftRun::begin(states);
    let mut seen = Vec::new();
    while let Some(gateway_id) = run.next() {
        seen.push(gateway_id);
        let observed = match gateway_id {
            1 => Some("a"),
            2 => Some("b"),
            3 => None,
            _ => Some("a"),
        };
        if let Some(state) = run.look(&reconciler, observed) {
            assert_eq!(state.gateway_id, gateway_id);
            let (_, outcome) = bring_about(&mut reconciler, state, "c");
            run = run.settle(Ok(outcome)).unwrap_or_else(|_| panic!("the apply succeeded"));
        }
    }
    assert_eq!(seen, vec![1, 2, 3, 4]);
    assert_eq!(run.finish(), vec![(2, told("c")), (3, told("c")), (4, told("c"))]);
    assert!(!reconciler.drifted(2, Some("c")));
}

#[test]
fn a_failed_repair_ends_a_round() {
    let reconciler = Reconciler::new();
    let mut run = DriftRun::begin(vec![cached(2), cached(1)]);
    assert_eq!(run.next(), Some(1));
    assert!(run.look(&reconciler, None).is_some());
    assert_eq!(run.next(), Some(2));
    let failure = ReconcileError::Driver(DriverError::Unavailable("x".into()));
    assert!(matches!(run.settle(Err(failure.clone())), Err(error) if error == failure));
    let mut nothing = DriftRun::begin(Vec::new());
    assert_eq!(nothing.next(), None);
    assert!(nothing.look(&reconciler, None).is_none());
    assert_eq!(nothing.finish(), vec![]);
}

#[test]
fn cached_states_are_found_by_name() {
    assert_eq!(cache_file_name(0), format!("{NIL}.json"));
    assert_eq!(prepared_file_name(0, 0), format!("prepared-{NIL}-{NIL}.json"));
    assert!(is_cached_state(&cache_file_name(0), true));
    assert!(!is_cached_state(&prepared_file_name(0, 0), true));
    assert!(is_cached_state(&prepared_file_name(0, 0), false));
    assert!(!is_cached_state("state.tmp", true));
    assert!(!is_cached_state(".json", true));
}

#[test]
fn errors_say_what_failed() {
    assert_eq!(DriverError::Invalid("x".into()).message(), "invalid desired state: x");
    assert_eq!(DriverError::Unavailable("x".into()).message(), "backend unavailable: x");
    assert_eq!(DriverError::Apply("x".into()).message(), "backend apply failed: x");
    assert!(DriverError::Unavailable("x".into()).retryable());
    assert!(!DriverError::Apply("x".into()).retryable());
    assert_eq!(
        ReconcileError::StaleRevision { incoming: 1, current: 2 }.message(),
        "refusing stale revision 1; current revision is 2"
    );
    assert_eq!(
        ReconcileError::Cache("disk".into()).message(),
        "failed to persist desired-state cache: disk"
    );
    assert_eq!(
        ReconcileError::Encode("json".into()).message(),
        "failed to encode desired-state cache: json"
    );
}

#[test]
fn the_hash_sees_the_canonical_form() {
    let mut a = linux_state();
    a.routes = vec![net("10.41.0.0/16"), net("10.40.0.0/16")];
    let mut b = a.clone();
    b.routes.reverse();
    assert_eq!(state_hash(&a), state_hash(&b));
    assert_eq!(state_hash(&a).len(), 64);
    b.canonicalize();
    let mut again = b.clone();
    again.canonicalize();
    assert_eq!(again, b);
    let read: serde_json::Value = serde_json::from_str(&state_text(&b)).unwrap();
    assert_eq!(read["routes"][0], "10.40.0.0/16");
    assert_eq!(read["peers"][0]["allowed_address"], "10.20.0.2");
}

#[test]
fn wireguard_configuration_contains_only_public_peer_material() {
    let rendered = linux::render_wireguard(&linux_state());
    assert!(rendered.contains("AllowedIPs = 10.20.0.2/32"));
    assert!(!rendered.contains("PrivateKey"));
}

#[test]
fn nftables_policy_is_ordered_stateful_and_anti_spoofing() {
    let rendered = linux::render_nftables(&linux_state()).unwrap();
    let established = rendered.find("established,related").unwrap();
    let acl = rendered.find("tcp dport 22 accept").unwrap();
    let default = rendered.find("wiremesh site default").unwrap();
    assert!(established < acl && acl < default);
    assert!(rendered.contains("ip saddr != { 10.20.0.2 } drop"));
    assert!(rendered.contains("ip daddr != { 10.40.0.0/16 } drop"));
    assert!(rendered.starts_with("destroy table inet wm_"));
}

#[test]
fn without_devices_everything_is_dropped() {
    let mut state = linux_state();
    state.peers.clear();
    let rendered = linux::render_nftables(&state).unwrap();
    assert!(rendered.ends_with("forward drop\n"));
    assert!(!rendered.contains("site default"));
}

#[test]
fn linux_states_are_checked() {
    let invalid = |state: &DesiredGatewayState, text: &str| match linux::validate_state(state) {
        Err(DriverError::Invalid(message)) => assert_eq!(message, text),
        _ => panic!("{text}"),
    };
    assert!(linux::validate_state(&linux_state()).is_ok());
    let mut state = linux_state();
    state.interface_name = "a name".into();
    invalid(&state, "invalid Linux interface name");
    let mut state = linux_state();
    state.listen_port = 0;
    invalid(&state, "listen port cannot be zero");
    let mut state = linux_state();
    state.routes.clear();
    invalid(&state, "site must have protected routes");
    let mut state = linux_state();
    let twin = state.peers[0].clone();
    state.peers.push(twin);
    invalid(&state, "duplicate peer address or public key");
    let mut state = linux_state();
    state.acl_rules[0].protocol = IpProtocol::Icmp;
    invalid(&state, "ACL ports require TCP or UDP");
    assert!(linux::valid_interface_name("wg-wiremesh"));
    assert!(!linux::valid_interface_name("sixteen-letters-"));
}

#[test]
fn routes_go_and_come() {
    let listing = b"10.20.0.2/32 scope link\n10.20.0.7/32 scope link\n10.20.0.0/16 proto kernel\n";
    let commands: Vec<String> =
        linux_plan::route_commands(&linux_state(), listing).iter().map(arguments).collect();
    assert_eq!(
        commands,
        vec![
            "ip -4 route delete 10.20.0.7/32 dev wm0",
            "ip -4 route replace 10.20.0.2/32 dev wm0",
        ]
    );
}

#[test]
fn the_tunnel_is_set_up_in_order() {
    let commands = linux_plan::tunnel_commands(&linux_state(), "/var/lib/key");
    let texts: Vec<String> = commands.iter().map(arguments).collect();
    assert_eq!(
        texts,
        vec![
            "wg set wm0 private-key /var/lib/key listen-port 51820",
            "wg syncconf wm0 /dev/stdin",
            "ip link set dev wm0 mtu 1420",
            "ip link set dev wm0 up",
        ]
    );
    assert_eq!(
        commands[1].stdin.as_deref(),
        Some(linux::render_wireguard(&linux_state()).as_str())
    );
}

#[test]
fn stages_follow_one_another() {
    let state = linux_state();
    let mut run = linux_plan::LinuxRun::begin(&state).unwrap_or_else(|_| panic!("it is valid"));
    let mut programs = Vec::new();
    let mut stages = 0;
    let outcome = loop {
        let commands =
            linux_plan::stage_commands(run.stage, &state, false, "/key", b"").unwrap();
        programs.extend(commands.iter().map(|command| command.program.clone()));
        stages += 1;
        let report = match run.stage {
            linux_plan::LinuxStage::Observe => Report::Told("live".to_string()),
            _ => Report::Done,
        };
        run = match run.advance(report) {
            Progress::Next(next) => next,
            Progress::Finished(outcome) => break outcome,
            Progress::Failed(_) => panic!("nothing failed"),
        };
    };
    assert_eq!(programs, vec!["sysctl", "ip", "wg", "wg", "ip", "ip", "ip", "nft"]);
    assert_eq!(stages, 9);
    assert_eq!(outcome, ApplyOutcome { revision: 4, actual_state_hash: "live".into() });
    assert!(matches!(
        linux_plan::LinuxRun::begin(&bare(1)),
        Err(DriverError::Invalid(message)) if message == "site must have protected routes"
    ));
}

#[test]
fn a_failed_stage_ends_the_work_of_the_backend() {
    let run = linux_plan::LinuxRun::begin(&linux_state()).unwrap_or_else(|_| panic!("valid"));
    let next = match run.advance(Report::Done) {
        Progress::Next(next) => next,
        _ => panic!("it goes on"),
    };
    assert_eq!(next.stage, linux_plan::LinuxStage::Forwarding);
    let failure = DriverError::Apply("sysctl failed".into());
    assert!(matches!(
        next.advance(Report::Failed(failure.clone())),
        Progress::Failed(error) if error == failure
    ));
    let run = router_plan::RouterRun::begin(&router_state()).unwrap_or_else(|_| panic!("valid"));
    assert!(matches!(
        run.advance(Report::Failed(failure.clone())),
        Progress::Failed(error) if error == failure
    ));
}

#[test]
fn commands_that_fail_say_so() {
    let failed = linux::CommandResult {
        success: false,
        stdout: Vec::new(),
        stderr: b" no such device \n".to_vec(),
    };
    match linux::checked("ip", failed) {
        Err(DriverError::Apply(message)) => assert_eq!(message, "ip failed: no such device"),
        _ => panic!("the command failed"),
    }
    let quiet = linux::CommandResult {
        success: false,
        stdout: Vec::new(),
        stderr: b"conntrack v1.4.7: 0 flow entries have been deleted.".to_vec(),
    };
    assert!(linux::flush_result(&quiet).is_ok());
    let loud =
        linux::CommandResult { success: false, stdout: Vec::new(), stderr: b"denied".to_vec() };
    assert!(linux::flush_result(&loud).is_err());
}

#[test]
fn generated_keys_are_checked() {
    let line = format!("{}\n", key(3));
    assert_eq!(linux::accept_generated_key(line.into_bytes()).unwrap(), format!("{}\n", key(3)));
    assert!(linux::accept_generated_key(vec![0xff, 0xfe]).is_err());
    assert!(linux::accept_generated_key(b"short".to_vec()).is_err());
}

#[test]
fn what_changes_by_itself_is_left_out_of_the_hash() {
    let dump = b"priv\tpub\t51820\toff\nB\tpsk\tep\t10.0.0.2/32\t0\t1\t2\t25\nA\tpsk\tep\t10.0.0.1/32\t0\t5\t6\toff\n";
    let later = b"priv\tpub\t51820\toff\nA\tpsk\tep2\t10.0.0.1/32\t9\t7\t8\toff\nB\tpsk\tep\t10.0.0.2/32\t9\t3\t4\t25\n";
    assert_eq!(linux::normalize_wg_dump(dump), linux::normalize_wg_dump(later));
    assert_eq!(
        linux::normalize_wg_dump(dump),
        "interface:pub:51820:off\npeer:A:10.0.0.1/32:off\npeer:B:10.0.0.2/32:25"
    );
    assert_eq!(linux::normalize_lines(b" b \n\na\n"), "a\nb");
    assert_eq!(
        linux::normalize_nft_json(
            br#"{"nftables":[{"metainfo":{"v":1}},{"rule":{"handle":4,"expr":[{"counter":{"packets":1,"bytes":2}}]}}]}"#
        )
        .unwrap(),
        r#"{"nftables":[{},{"rule":{"expr":[{"counter":{}}]}}]}"#
    );
    assert!(linux::normalize_nft_json(b"{").is_err());
    let hash = linux::live_state_hash(dump, b"a\n", b"{}").unwrap();
    assert_eq!(hash, linux::live_state_hash(later, b"a", b"{ }").unwrap());
    assert_ne!(hash, linux::live_state_hash(later, b"b", b"{}").unwrap());
}

#[test]
fn observed_facts_are_trimmed() {
    let facts = linux_plan::observed(3, 51_820, b" KEY\n", b"wireguard-tools v1\n", "h".into());
    assert_eq!(facts.public_key, "KEY");
    assert_eq!(facts.backend_version, "wireguard-tools v1");
    assert_eq!(facts.gateway_id, 3);
    assert_eq!(facts.actual_state_hash, "h");
}

#[test]
fn table_names_are_short() {
    assert_eq!(linux::nft_table_name(0), "wm_000000000000");
    assert_eq!(linux::nft_table_name(u128::MAX), "wm_ffffffffffff");
}

#[test]
fn rejects_old_routeros_versions() {
    assert!(!mikrotik::supported_version("7.14.3 (stable)"));
    assert!(mikrotik::supported_version("7.15"));
    assert!(mikrotik::supported_version("8.0beta2"));
}

#[test]
fn versions_are_reported() {
    assert_eq!(mikrotik::check_version(Some("7.16".into())).unwrap(), "7.16");
    match mikrotik::check_version(Some("6.49".into())) {
        Err(DriverError::Invalid(message)) => {
            assert_eq!(message, "RouterOS 6.49 is unsupported; 7.15+ is required")
        }
        _ => panic!("the version is too old"),
    }
    assert!(matches!(mikrotik::check_version(None), Err(DriverError::Apply(_))));
}

#[test]
fn plans_scoped_routes_and_ordered_firewall_rules() {
    let desired = router_state();
    let routes = mikrotik::route_operations(&desired);
    assert_eq!(routes.len(), 1);
    assert_eq!(routes[0].get("dst-address"), Some("10.20.0.2/32"));
    assert_eq!(routes[0].get("gateway"), Some("wiremesh"));
    let firewall = mikrotik::firewall_operations(&desired).unwrap();
    let descriptions: Vec<&str> =
        firewall.iter().filter_map(|operation| operation.get("comment")).collect();
    let established =
        descriptions.iter().position(|value| value.ends_with("stateful-return")).unwrap();
    let rule = descriptions.iter().position(|value| value.contains(":rule:")).unwrap();
    let default = descriptions.iter().position(|value| value.ends_with(":default")).unwrap();
    assert!(established < rule && rule < default);
}

#[test]
fn router_operations_carry_the_prefix() {
    let desired = router_state();
    assert_eq!(mikrotik::managed_prefix(0), format!("wiremesh:{NIL}"));
    let peers = mikrotik::peer_operations(&desired);
    assert_eq!(peers[0].get("public-key"), Some(key(4).as_str()));
    assert_eq!(peers[0].get("allowed-address"), Some("10.20.0.2/32"));
    let address = mikrotik::address_operation(&desired).unwrap();
    assert_eq!(address.get("address"), Some("10.20.0.1/32"));
    let body = mikrotik::interface_body(&desired);
    assert!(body.contains(&("mtu".to_string(), "1420".to_string())));
    let firewall = mikrotik::firewall_operations(&desired).unwrap();
    assert!(firewall.iter().any(|operation| operation.get("dst-port") == Some("443")));
    assert!(firewall
        .iter()
        .filter_map(|operation| operation.get("comment"))
        .all(|comment| comment.starts_with("wiremesh:")));
}

#[test]
fn router_states_are_checked() {
    let mut state = router_state();
    state.interface_name = String::new();
    assert!(matches!(mikrotik::validate_state(&state), Err(DriverError::Invalid(_))));
    let mut state = router_state();
    state.listen_port = 0;
    assert!(mikrotik::validate_state(&state).is_err());
    let mut state = router_state();
    state.peers[0].public_key = "no".into();
    assert!(mikrotik::validate_state(&state).is_err());
    assert!(mikrotik::validate_state(&router_state()).is_ok());
}

#[test]
fn router_logins_are_checked() {
    let check = |backend: &str, url: &str, user: &str, password: &str| {
        router::check_credential(0, backend, url, user, password)
    };
    let url = check("mikrotik", "https://router.example", "admin", "pw").unwrap();
    assert_eq!(url.text, "https://router.example/");
    assert_eq!(url.scheme, "https");
    assert!(check("linux", "https://router.example", "admin", "pw").is_err());
    assert!(check("mikrotik", "http://router.example", "admin", "pw").is_err());
    assert!(check("mikrotik", "https://router.example/rest", "admin", "pw").is_err());
    assert!(check("mikrotik", "https://router.example?x=1", "admin", "pw").is_err());
    assert!(check("mikrotik", "https://router.example", " ", "pw").is_err());
    assert!(check("mikrotik", "https://router.example", "admin", "").is_err());
    match check("mikrotik", "not a url", "admin", "pw") {
        Err(DriverError::Invalid(message)) => {
            assert!(message.starts_with("invalid RouterOS URL: "))
        }
        _ => panic!("that is no address"),
    }
}

#[test]
fn router_answers_are_read() {
    assert_eq!(router::decode_answer(true, "/rest/x", "200 OK", b"").unwrap(), "null");
    assert_eq!(
        router::decode_answer(true, "/rest/x", "200 OK", b"[ {\"b\":1, \"a\":2} ]").unwrap(),
        "[{\"a\":2,\"b\":1}]"
    );
    match router::decode_answer(false, "/rest/x", "500 Internal Server Error", b"boom") {
        Err(DriverError::Apply(message)) => {
            assert_eq!(message, "RouterOS /rest/x returned 500 Internal Server Error: boom")
        }
        _ => panic!("the request failed"),
    }
    assert!(router::decode_answer(true, "/rest/x", "200 OK", b"{").is_err());
    assert_eq!(
        router::listed_records("[{\"a\":1},{\"b\":2}]", "ip/route").unwrap(),
        vec!["{\"a\":1}", "{\"b\":2}"]
    );
    assert!(router::listed_records("{}", "ip/route").is_err());
    assert_eq!(router::single_record("[{\"a\":1}]", "x").unwrap(), "{\"a\":1}");
    assert_eq!(router::single_record("{\"a\":1}", "x").unwrap(), "{\"a\":1}");
    assert!(router::single_record("[]", "x").is_err());
}

#[test]
fn only_managed_records_are_removed() {
    let records: Vec<String> = vec![
        r#"{".id":"*1","comment":"wiremesh:a:route:1"}"#.into(),
        r#"{".id":"*2","comment":"by hand"}"#.into(),
        r#"{".id":"*3"}"#.into(),
        r#"{"comment":"wiremesh:a:route:4"}"#.into(),
    ];
    let filter = router::RecordFilter::Managed("wiremesh:a");
    assert_eq!(router::records_to_remove(&filter, &records), vec!["*1"]);
    let peers: Vec<String> = vec![
        r#"{".id":"*5","interface":"wg"}"#.into(),
        r#"{".id":"*6","interface":"other"}"#.into(),
    ];
    let filter = router::RecordFilter::OnInterface("wg");
    assert_eq!(router::records_to_remove(&filter, &peers), vec!["*5"]);
}

#[test]
fn interfaces_are_found_or_created() {
    let records: Vec<String> =
        vec![r#"{"name":"a",".id":"*1"}"#.into(), r#"{"name":"b",".id":"*2"}"#.into()];
    let found = router::find_interface(&records, "b");
    assert_eq!(
        router::interface_step(found).unwrap(),
        router::InterfaceStep::Update { id: "*2".into() }
    );
    assert_eq!(router::find_interface(&records, "c"), None);
    assert_eq!(router::interface_step(None).unwrap(), router::InterfaceStep::Create);
    assert!(router::interface_step(Some("{}".into())).is_err());
    assert_eq!(router::created_interface(r#"{".id":"*9"}"#, None).unwrap(), "*9");
    assert_eq!(
        router::created_interface("null", Some(r#"{".id":"*8"}"#.into())).unwrap(),
        "*8"
    );
    assert!(router::created_interface("null", None).is_err());
    assert_eq!(router::reported_key(r#"{"public-key":"K"}"#).unwrap(), "K");
    assert!(router::reported_key("{}").is_err());
}

#[test]
fn connections_are_known_by_their_source() {
    let sources = [address_of(10, 20, 0, 2)];
    assert!(router::is_from(r#"{"src-address":"10.20.0.2:443"}"#, &sources));
    assert!(router::is_from(r#"{"src-address":"10.20.0.2"}"#, &sources));
    assert!(!router::is_from(r#"{"src-address":"10.20.0.22:443"}"#, &sources));
    assert!(!router::is_from("{}", &sources));
}

#[test]
fn counters_do_not_change_the_router_hash() {
    let state = |rx: u32, order: bool| {
        let mut peers = vec![
            format!(r#"{{".id":"*1","interface":"wg","name":"a","rx":"{rx}"}}"#),
            format!(r#"{{".id":"*2","interface":"wg","name":"b","rx":"{rx}"}}"#),
        ];
        if order {
            peers.reverse();
        }
        router::RouterState {
            interface: r#"{"name":"wg","private-key":"secret"}"#.into(),
            peers,
            routes: vec![],
            addresses: vec![],
            filters: vec![],
            address_lists: vec![],
        }
    };
    assert_eq!(router::router_state_hash(&state(1, false)), router::router_state_hash(&state(2, true)));
    let mut other = state(1, false);
    other.routes.push(r#"{"dst-address":"10.20.0.2/32"}"#.into());
    assert_ne!(router::router_state_hash(&state(1, false)), router::router_state_hash(&other));
}

#[test]
fn router_stages_end() {
    let state = router_state();
    let mut run = router_plan::RouterRun::begin(&state).unwrap_or_else(|_| panic!("it is valid"));
    let mut count = 0;
    let mut cleared = Vec::new();
    let mut created = Vec::new();
    let outcome = loop {
        count += 1;
        cleared.extend(router_plan::stage_resources(run.stage));
        created.extend(router_plan::stage_operations(run.stage, &state).unwrap());
        let report = match run.stage {
            router_plan::RouterStage::Interface => Report::Told("*1".to_string()),
            router_plan::RouterStage::Observe => Report::Told("live".to_string()),
            router_plan::RouterStage::Confirm => {
                assert_eq!(run.interface_id, "*1");
                Report::Done
            }
            _ => Report::Done,
        };
        run = match run.advance(report) {
            Progress::Next(next) => next,
            Progress::Finished(outcome) => break outcome,
            Progress::Failed(_) => panic!("nothing failed"),
        };
    };
    assert_eq!(count, 9);
    assert_eq!(
        cleared,
        vec![
            "interface/wireguard/peers",
            "ip/route",
            "ip/address",
            "ip/firewall/filter",
            "ip/firewall/address-list",
        ]
    );
    let mut expected = mikrotik::peer_operations(&state);
    expected.extend(mikrotik::route_operations(&state));
    expected.extend(mikrotik::address_operation(&state));
    expected.extend(mikrotik::firewall_operations(&state).unwrap());
    assert_eq!(created, expected);
    assert_eq!(
        outcome,
        ApplyOutcome { revision: state.revision, actual_state_hash: "live".into() }
    );
}

#[test]
fn agent_settings_are_checked() {
    assert!(config().validate().is_ok());
    let plain = AgentConfig { controller_url: "http://controller".into(), ..config() };
    assert_eq!(plain.validate(), Err(AgentConfigError::NotHttps));
    assert_eq!(AgentConfigError::NotHttps.message(), "controller URL must use https://");
    let nameless = AgentConfig { server_name: " ".into(), ..config() };
    assert_eq!(nameless.validate(), Err(AgentConfigError::MissingServerName));
    assert_eq!(AgentConfigError::MissingServerName.message(), "TLS server name is required");
    let weak = AgentConfig { secret: "short".into(), ..config() };
    assert_eq!(weak.validate(), Err(AgentConfigError::InvalidSecret));
    assert_eq!(AgentConfigError::InvalidSecret.message(), "agent secret is invalid");
}

#[test]
fn delays_double_up_to_half_a_minute() {
    let mut delay = 1;
    let mut seen = Vec::new();
    for _ in 0..7 {
        seen.push(delay);
        delay = runtime::next_delay(delay);
    }
    assert_eq!(seen, vec![1, 2, 4, 8, 16, 30, 30]);
}

#[test]
fn every_third_heartbeat_looks_for_drift() {
    let mut count = 0;
    let mut looks = Vec::new();
    for _ in 0..6 {
        let (next, look) = runtime::count_heartbeat(count);
        count = next;
        looks.push(look);
    }
    assert_eq!(looks, vec![false, false, true, false, false, true]);
    assert_eq!(runtime::count_heartbeat(255), (0, true));
}

#[test]
fn agents_introduce_themselves() {
    let hello = runtime::hello(&config(), "1.0", "boot");
    assert_eq!(hello.agent_id, "00000000-0000-0000-0000-000000000007");
    assert_eq!(hello.protocol_major, 1);
    assert_eq!(hello.protocol_minor, 0);
    assert_eq!(hello.boot_id, "boot");
    assert_eq!(hello.capabilities, vec!["wireguard"]);
}

#[test]
fn messages_to_the_controller() {
    let facts = runtime::facts_message(ObservedGateway {
        gateway_id: 0,
        public_key: "K".into(),
        listen_port: 51_820,
        actual_state_hash: "h".into(),
        backend_version: "v".into(),
    });
    assert_eq!(facts.gateway_id, NIL);
    assert_eq!(facts.listen_port, 51_820);
    let done = ApplyOutcome { revision: 3, actual_state_hash: "h".into() };
    let applied = runtime::applied(0, done, 99);
    assert_eq!((applied.revision, applied.applied_unix_seconds), (3, 99));
    let error = |e: ReconcileError| runtime::apply_error(NIL, 3, &e);
    assert_eq!(
        error(ReconcileError::StaleRevision { incoming: 1, current: 2 }).code,
        "stale_revision"
    );
    let backend = error(ReconcileError::Driver(DriverError::Unavailable("x".into())));
    assert_eq!(backend.code, "backend_error");
    assert!(backend.retryable);
    assert!(!error(ReconcileError::Driver(DriverError::Invalid("x".into()))).retryable);
    assert_eq!(error(ReconcileError::Cache("x".into())).code, "cache_error");
    assert_eq!(error(ReconcileError::Encode("x".into())).code, "cache_error");
}

#[test]
fn snapshots_are_applied() {
    let mut pending = PendingMigrations::new();
    let message = ControllerMessage::Desired(desired_to_proto(&linux_state()));
    match settle(runtime::handle_controller_message(message, &mut pending, 0)) {
        AgentStep::Apply { state, gateway_id, revision } => {
            assert_eq!(state, linux_state());
            assert_eq!(gateway_id, NIL);
            assert_eq!(revision, 4);
        }
        _ => panic!("the snapshot carries no credential"),
    }
    let mut wrong = desired_to_proto(&linux_state());
    wrong.acl_default = "maybe".into();
    let wrong = ControllerMessage::Desired(wrong);
    match settle(runtime::handle_controller_message(wrong, &mut pending, 0)) {
        AgentStep::Reply(error) => assert_eq!(error.code, "invalid_snapshot"),
        _ => panic!("the snapshot is wrong"),
    }
}

#[test]
fn credentials_come_before_the_snapshot() {
    let mut pending = PendingMigrations::new();
    let mut snapshot = desired_to_proto(&linux_state());
    snapshot.credential_envelope = b"{}".to_vec();
    let step =
        runtime::handle_controller_message(ControllerMessage::Desired(snapshot), &mut pending, 0);
    let (snapshot, purpose) = match step {
        AgentStep::Configure { gateway_id, snapshot, purpose } => {
            assert_eq!(gateway_id, 0);
            (snapshot, purpose)
        }
        _ => panic!("the credential was passed over"),
    };
    assert!(matches!(purpose, Purpose::Apply));
    let refused = ReconcileError::Driver(DriverError::Invalid("no".into()));
    match runtime::after_configuration(snapshot.clone(), Purpose::Apply, Err(refused)) {
        AgentStep::Reply(error) => assert_eq!(error.code, "backend_error"),
        _ => panic!("the credential was refused"),
    }
    assert!(matches!(
        settle(runtime::after_configuration(snapshot, Purpose::Apply, Ok(()))),
        AgentStep::Apply { .. }
    ));
}

#[test]
fn arming_takes_what_was_prepared() {
    let mut pending = PendingMigrations::new();
    let prepare = ControllerMessage::PrepareMigration {
        migration_id: NIL.into(),
        future_state: Some(desired_to_proto(&linux_state())),
    };
    let (migration_id, state) =
        match settle(runtime::handle_controller_message(prepare, &mut pending, 0)) {
            AgentStep::Prepare { migration_id, state } => (migration_id, state),
            _ => panic!("the state is fine"),
        };
    let told = runtime::after_prepare(&mut pending, migration_id, state, "hash".into());
    assert_eq!(told.revision, 4);
    assert_eq!(told.state_hash, "hash");
    let arm = || ControllerMessage::ArmMigration {
        migration_id: NIL.into(),
        gateway_id: NIL.into(),
        effective_unix_seconds: 130,
    };
    match runtime::handle_controller_message(arm(), &mut pending, 100) {
        AgentStep::Arm { state, wait_seconds, .. } => {
            assert_eq!(state, linux_state());
            assert_eq!(wait_seconds, 30);
        }
        _ => panic!("the migration was prepared"),
    }
    match runtime::handle_controller_message(arm(), &mut pending, 100) {
        AgentStep::Fail(message) => {
            assert_eq!(message, "controller armed an unprepared migration")
        }
        _ => panic!("the prepared state is gone"),
    }
}

#[test]
fn cancelled_migrations_are_discarded() {
    let mut pending = PendingMigrations::new();
    pending.insert(0, linux_state());
    let cancel = ControllerMessage::CancelMigration {
        migration_id: NIL.into(),
        gateway_id: NIL.into(),
    };
    assert!(matches!(
        runtime::handle_controller_message(cancel, &mut pending, 0),
        AgentStep::Discard { migration_id: 0, gateway_id: 0 }
    ));
    assert!(pending.remove(0, 0).is_none());
    let unreadable = ControllerMessage::CancelMigration {
        migration_id: "x".into(),
        gateway_id: NIL.into(),
    };
    assert!(matches!(
        runtime::handle_controller_message(unreadable, &mut pending, 0),
        AgentStep::Ignore
    ));
    assert!(matches!(
        runtime::handle_controller_message(ControllerMessage::Ping, &mut pending, 0),
        AgentStep::Ignore
    ));
}

#[test]
fn outcomes_are_reported() {
    let good = Ok(ApplyOutcome { revision: 4, actual_state_hash: "h".into() });
    match runtime::after_apply(0, NIL, 4, good, 77) {
        AgentMessage::Applied(applied) => assert_eq!(applied.applied_unix_seconds, 77),
        _ => panic!("it was applied"),
    }
    let bad = Err(ReconcileError::Cache("disk".into()));
    match runtime::after_apply(0, NIL, 4, bad, 77) {
        AgentMessage::Error(error) => assert_eq!(error.revision, 4),
        _ => panic!("it was not applied"),
    }
}

fn at_one_position() -> Vec<AclRule> {
    let rule = |id: u128, action: AclAction, user: u128| AclRule {
        id,
        position: 10,
        action,
        destination: net("10.50.1.0/24"),
        protocol: IpProtocol::Any,
        destination_ports: None,
        subjects: AclSubjects { users: BTreeSet::from([user]), groups: BTreeSet::new() },
        enabled: true,
    };
    vec![rule(1, AclAction::Allow, 31), rule(2, AclAction::Deny, 31), rule(3, AclAction::Deny, 41)]
}

fn two_devices() -> DesiredGatewayState {
    let mut state = router_state();
    state.acl_rules = at_one_position();
    state.peers.push(DesiredPeer {
        device_id: 42,
        user_id: 41,
        public_key: key(5),
        allowed_address: address_of(10, 20, 0, 3),
        group_ids: BTreeSet::new(),
    });
    state
}

fn to_the_network(user_id: u128) -> PacketContext {
    PacketContext {
        user_id,
        group_ids: BTreeSet::new(),
        destination: address_of(10, 50, 1, 7),
        protocol: IpProtocol::Tcp,
        destination_port: Some(80),
    }
}

#[test]
fn denials_are_rendered_before_permissions_of_their_position() {
    let state = two_devices();
    let action = evaluate_acl(&state.acl_rules, state.acl_default, &to_the_network(31));
    assert_eq!(action, AclAction::Deny);
    let rendered = linux::render_nftables(&state).unwrap();
    let place = |id: &str| rendered.find(&format!("wiremesh rule 00000000-0000-0000-0000-{id}"));
    let (allow, deny) = (place("000000000001").unwrap(), place("000000000002").unwrap());
    assert!(deny < allow);
    let first = rendered
        .lines()
        .find(|line| line.contains("saddr { 10.20.0.2 }") && line.contains("daddr 10.50.1.0/24"))
        .unwrap();
    assert!(first.contains(" drop comment"));
}

#[test]
fn routers_deny_before_they_permit_and_share_no_list() {
    let records = mikrotik::firewall_operations(&two_devices()).unwrap();
    let lists: Vec<(&str, &str)> = records
        .iter()
        .filter(|record| record.get("comment").unwrap().contains(":rule:"))
        .map(|record| (record.get("action").unwrap(), record.get("src-address-list").unwrap()))
        .collect();
    assert_eq!(
        lists,
        vec![
            ("drop", "wm_00000000_r10"),
            ("drop", "wm_00000000_r10_1"),
            ("accept", "wm_00000000_r10_2"),
        ]
    );
    let addresses = |list: &str| {
        let found: Vec<&str> = records
            .iter()
            .filter(|record| record.get("list") == Some(list))
            .map(|record| record.get("address").unwrap())
            .collect();
        found
    };
    assert_eq!(addresses("wm_00000000_r10"), vec!["10.20.0.2/32"]);
    assert_eq!(addresses("wm_00000000_r10_1"), vec!["10.20.0.3/32"]);
    assert_eq!(addresses("wm_00000000_r10_2"), vec!["10.20.0.2/32"]);
}

#[test]
fn texts_of_states_tell_them_apart() {
    let state = two_devices();
    let mut turned = state.clone();
    turned.peers.reverse();
    turned.acl_rules.reverse();
    assert_eq!(state_text(&state), state_text(&turned));
    assert_eq!(state_hash(&state), state_hash(&turned));
    let mut split = state.clone();
    split.interface_name = "wire\",\"mesh".into();
    let mut longer = state.clone();
    longer.peers[0].public_key.push('A');
    let mut regrouped = state.clone();
    regrouped.acl_rules[0].subjects =
        AclSubjects { users: BTreeSet::new(), groups: BTreeSet::from([31]) };
    let texts = [&state, &split, &longer, &regrouped].map(state_text);
    for (i, text) in texts.iter().enumerate() {
        assert!(texts[i + 1..].iter().all(|other| other != text));
        assert!(serde_json::from_str::<serde_json::Value>(text).is_ok());
    }
    let mut odd = state;
    odd.interface_name = "a\"b\\c\n\u{1}\u{7f}é".into();
    assert!(state_text(&odd).contains("\"interface_name\":\"a\\\"b\\\\c\\n\\u0001\u{7f}é\","));
}
