//! What is read from records, what is written down, and the commands that gateways are given.

use wiremesh::acl::AclAction;
use wiremesh::auth;
use wiremesh::error::ApiError;
use wiremesh::ids::uuid_to_text;
use wiremesh::ipv4::{address_of, Ipv4Net};
use wiremesh::linux::CommandSpec;
use wiremesh::linux_plan;
use wiremesh::mail;
use wiremesh::migration;
use wiremesh::models::{default_acl_action, default_true, ProviderKind};
use wiremesh::network;
use wiremesh::providers;
use wiremesh::providers::{LdapLinkRow, ProviderRow};
use wiremesh::rows;
use wiremesh::sites;
use wiremesh::time;
use wiremesh::time::Timestamp;
use wiremesh::urls;
use wiremesh::users;
use wiremesh::users::MemberRow;

const ID: u128 = 0x0190_0000_0000_7000_8000_0000_0000_0001;
const OTHER: u128 = 0x0190_0000_0000_7000_8000_0000_0000_0002;
const ID_TEXT: &str = "01900000-0000-7000-8000-000000000001";
const OTHER_TEXT: &str = "01900000-0000-7000-8000-000000000002";

fn line(command: &CommandSpec) -> String {
    assert_eq!(command.stdin, None);
    let mut words = vec![command.program.clone()];
    words.extend(command.arguments.iter().cloned());
    words.join(" ")
}

#[test]
fn linux_commands_are_exact() {
    assert_eq!(line(&linux_plan::forwarding_command()), "sysctl -q -w net.ipv4.ip_forward=1");
    assert_eq!(line(&linux_plan::probe_command("wg0")), "ip link show dev wg0");
    assert_eq!(line(&linux_plan::create_command("wg0")), "ip link add dev wg0 type wireguard");
    assert_eq!(line(&linux_plan::genkey_command()), "wg genkey");
    assert_eq!(line(&linux_plan::up_command("wg0")), "ip link set dev wg0 up");
    assert_eq!(line(&linux_plan::mtu_command("wg0", 1420)), "ip link set dev wg0 mtu 1420");
    assert_eq!(
        line(&linux_plan::identity_command("wg0", "/k", 51820)),
        "wg set wg0 private-key /k listen-port 51820"
    );
    assert_eq!(
        line(&linux_plan::replace_route_command("10.0.0.0/24", "wg0")),
        "ip -4 route replace 10.0.0.0/24 dev wg0"
    );
    assert_eq!(
        line(&linux_plan::flush_command(address_of(10, 0, 0, 7))),
        "conntrack -D -s 10.0.0.7"
    );
    assert_eq!(linux_plan::key_file_name(ID), format!("{ID_TEXT}.key"));
    assert_eq!(linux_plan::metadata_file_name(ID), format!("{ID_TEXT}.metadata.json"));
}

fn provider_row(kind: &str) -> ProviderRow {
    ProviderRow {
        id: uuid_to_text(ID),
        kind: kind.to_owned(),
        name: "Directory".to_owned(),
        enabled: true,
        trusted_create: false,
        sync_interval_seconds: Some(300),
        last_successful_sync_at: None,
    }
}

#[test]
fn providers_are_read_from_their_records() {
    let found = providers::get_provider(&Some(provider_row("ldap"))).unwrap();
    assert_eq!(found.id, ID);
    assert_eq!(found.kind, ProviderKind::Ldap);
    assert_eq!(found.name, "Directory");
    assert!(found.enabled);
    assert!(!found.trusted_create);
    assert_eq!(found.sync_interval_seconds, Some(300));
    assert_eq!(found.last_successful_sync_at, None);
    assert_eq!(
        providers::get_provider(&None),
        Err(ApiError::NotFound("identity provider does not exist".to_owned()))
    );
    assert!(matches!(
        providers::get_provider(&Some(provider_row("saml"))),
        Err(ApiError::Internal(_))
    ));
}

#[test]
fn the_login_page_is_told_of_providers() {
    let told = providers::login_provider(ID_TEXT, "oidc", "Sign in").unwrap();
    assert_eq!(told.id, ID);
    assert_eq!(told.kind, ProviderKind::Oidc);
    assert_eq!(told.name, "Sign in");
    assert_eq!(
        providers::login_provider(ID_TEXT, "saml", "Sign in"),
        Err(ApiError::Internal("invalid provider kind".to_owned()))
    );
    assert!(matches!(
        providers::login_provider("nobody", "oidc", "Sign in"),
        Err(ApiError::Internal(_))
    ));
}

#[test]
fn steps_of_a_migration_are_written_down() {
    assert_eq!(
        migration::migration_notice(ID, "2026-01-01T00:00:00Z"),
        format!("{{\"effective_at\":\"2026-01-01T00:00:00Z\",\"migration_id\":\"{ID_TEXT}\"}}")
    );
    let entry = migration::migration_audit(OTHER, "subnet_migration.arm", ID);
    assert_eq!(entry.actor_user_id, Some(OTHER));
    assert_eq!(entry.actor_kind, "user");
    assert_eq!(entry.action, "subnet_migration.arm");
    assert_eq!(entry.object_kind, "subnet_migration");
    assert_eq!(entry.object_id, Some(ID));
    let entry = migration::applied_audit(ID);
    assert_eq!(entry.actor_user_id, None);
    assert_eq!(entry.actor_kind, "scheduler");
    assert_eq!(entry.action, "subnet_migration.apply");
    assert_eq!(entry.object_id, Some(ID));
    assert_eq!(entry.outcome, "success");
}

#[test]
fn changes_of_users_are_written_down() {
    let (entry, details) = users::soft_delete_audit(ID, 3);
    assert_eq!(entry.action, "user.soft_delete");
    assert_eq!(entry.object_id, Some(ID));
    assert_eq!(details, "{\"pending_gateways\":3}");
    let (entry, details) = users::purge_audit(ID, 2);
    assert_eq!(entry.action, "user.purge");
    assert_eq!(details, "{\"devices_removed\":2}");
    let (entry, details) = users::membership_audit(ID, OTHER, true);
    assert_eq!(entry.action, "group.member.add");
    assert_eq!(entry.object_id, Some(ID));
    assert_eq!(details, format!("{{\"source\":\"local\",\"user_id\":\"{OTHER_TEXT}\"}}"));
    let (entry, _) = users::membership_audit(ID, OTHER, false);
    assert_eq!(entry.action, "group.member.remove");
    assert!(users::acks_for(&[]).is_empty());
    assert_eq!(users::restore_audit(ID).action, "user.restore");
}

#[test]
fn changes_of_providers_are_written_down() {
    let (entry, details) = providers::enabled_audit(ID, false);
    assert_eq!((entry.action, entry.object_id), ("identity.provider.enabled", Some(ID)));
    assert_eq!(details, "{\"enabled\":false}");
    assert_eq!(providers::enabled_audit(ID, true).1, "{\"enabled\":true}");
    let end = providers::finish_sync(OTHER, ID);
    assert_eq!((end.status, end.audit.action), ("success", "identity.ldap.sync"));
    assert_eq!(end.audit.object_id, Some(OTHER));
    assert_eq!(end.details_json, format!("{{\"run_id\":\"{ID_TEXT}\"}}"));
    let (entry, details) = providers::oidc_audit(OTHER, ID);
    assert_eq!((entry.action, entry.object_id), ("auth.login.oidc", Some(OTHER)));
    assert_eq!(details, format!("{{\"provider_id\":\"{ID_TEXT}\"}}"));
}

#[test]
fn what_requests_leave_out_has_a_default() {
    assert_eq!(default_acl_action(), AclAction::Allow);
    assert!(default_true());
}

#[test]
fn stored_values_are_read_or_refused() {
    assert_eq!(rows::db_id(ID_TEXT, "site"), Ok(ID));
    match rows::db_id("nobody", "site") {
        Err(ApiError::Internal(message)) => {
            assert!(message.starts_with("invalid site UUID in database: "));
        }
        other => panic!("{other:?}"),
    }
    assert_eq!(rows::db_address("10.0.0.7", "device"), Ok(address_of(10, 0, 0, 7)));
    assert_eq!(
        rows::db_address("10.0.0", "device"),
        Err(ApiError::Internal(
            "invalid device address in database: invalid IPv4 address syntax".to_owned()
        ))
    );
    assert_eq!(rows::signed_text(-7), "-7");
    assert_eq!(rows::signed_text(i64::MIN), "-9223372036854775808");
    assert_eq!(rows::signed_text(0), "0");
}

#[test]
fn a_device_is_online_for_a_while_after_it_was_seen() {
    let now = Timestamp { secs: 1_000_000_000, nanos: 0 };
    assert!(!time::fresh(None, now));
    assert!(!time::fresh(Some("yesterday"), now));
    assert!(time::fresh(Some("2001-09-09T01:46:00Z"), now));
    assert!(!time::fresh(Some("2001-09-09T01:45:00Z"), now));
    assert_eq!(now.plus_seconds(5), Some(Timestamp { secs: 1_000_000_005, nanos: 0 }));
    assert_eq!(Timestamp { secs: i64::MAX, nanos: 0 }.plus_seconds(1), None);
}

#[test]
fn an_administrator_needs_an_address_and_a_name() {
    assert_eq!(
        auth::check_bootstrap(" Root@Example.COM ", " Root "),
        Ok(("root@example.com".to_owned(), "Root".to_owned()))
    );
    assert!(matches!(
        auth::check_bootstrap("root@example.com", "  "),
        Err(ApiError::Validation(_))
    ));
    assert!(matches!(auth::check_bootstrap("root", "Root"), Err(ApiError::Validation(_))));
}

#[test]
fn small_texts_are_shaped() {
    assert_eq!(urls::trim_end_slashes("https://mesh.example//"), "https://mesh.example");
    assert_eq!(mail::truncate_error(&"x".repeat(501)), "x".repeat(500));
    assert_eq!(mail::truncate_error("short"), "short");
    let host = "gw.example".to_owned();
    assert_eq!(sites::endpoint_text(&host, Some(443), Some(51820)), Some("gw.example:443".to_owned()));
    assert_eq!(sites::endpoint_text(&host, None, Some(51820)), Some("gw.example:51820".to_owned()));
    assert_eq!(sites::endpoint_text(&host, None, None), None);
    assert_eq!(network::address_count(Ipv4Net::parse("10.0.0.0/24").unwrap()), 256);
}

fn member_row(id: u128, email: &str, kind: &str, source: &str, provider: Option<&str>) -> MemberRow {
    MemberRow {
        id: uuid_to_text(id),
        email: email.to_owned(),
        name: email.to_uppercase(),
        source_kind: kind.to_owned(),
        source_id: source.to_owned(),
        provider: provider.map(str::to_owned),
    }
}

#[test]
fn members_of_a_group_are_listed_with_their_sources() {
    let rows = vec![
        member_row(ID, "a@example.com", "local", "manual", None),
        member_row(ID, "a@example.com", "local", "import", None),
        member_row(ID, "a@example.com", "ldap", "realm", Some("Directory")),
        member_row(OTHER, "b@example.com", "oidc", "realm", None),
    ];
    let members = users::list_group_members(true, &rows).unwrap();
    assert_eq!(members.len(), 2);
    assert_eq!(members[0].user_id, ID);
    assert_eq!(members[0].email, "a@example.com");
    assert_eq!(members[0].name, "A@EXAMPLE.COM");
    assert_eq!(members[0].sources, vec!["local".to_owned(), "ldap:Directory".to_owned()]);
    assert_eq!(members[1].user_id, OTHER);
    assert_eq!(members[1].sources, vec!["oidc:realm".to_owned()]);
    assert_eq!(
        users::list_group_members(false, &rows),
        Err(ApiError::NotFound("group does not exist".to_owned()))
    );
    let mut broken = rows;
    broken[1].id = "nobody".to_owned();
    assert!(matches!(users::list_group_members(true, &broken), Err(ApiError::Internal(_))));
}

fn link(user: &str, active: bool, provider_enabled: bool) -> LdapLinkRow {
    LdapLinkRow { user_id: user.to_owned(), active, provider_enabled }
}

#[test]
fn directories_keep_out_whom_no_live_identity_lets_in() {
    let rows = vec![
        link("a", false, true),
        link("b", true, false),
        link("c", false, true),
        link("b", false, true),
        link("c", true, true),
    ];
    assert_eq!(
        providers::recompute_ldap_disablement(&rows),
        vec!["a".to_owned(), "b".to_owned()]
    );
    assert!(providers::recompute_ldap_disablement(&[]).is_empty());
}
