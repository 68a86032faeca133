//! Signing in, users, groups, imports and mail.

use wiremesh::audit;
use wiremesh::auth;
use wiremesh::auth::{AccountRow, LoginRow, Principal, SessionRow, TokenPurpose, TokenRow, TokenUserRow};
use wiremesh::config::validate_wireguard_public_key;
use wiremesh::desired::AckRow;
use wiremesh::error::{ApiError, ErrorAnswer};
use wiremesh::federated;
use wiremesh::identity::{
    effective_groups, IdentityKind, MembershipSourceKind, SourcedMembership, UserIdentity,
    UserStatus,
};
use wiremesh::ids::uuid_to_text;
use wiremesh::keys;
use wiremesh::mail;
use wiremesh::models::{
    CreateGroupRequest, CreateProviderRequest, CreateUserRequest, ImportFormat,
    ImportUsersRequest, LdapSnapshotEntry, LdapSyncSnapshot, OidcClaims, ProviderKind,
    SmtpSecurity, UpdateSmtpSettingsRequest,
};
use wiremesh::providers;
use wiremesh::providers::{EmailRow, GroupStep, LinkRow, LinkStep};
use wiremesh::secrets;
use wiremesh::secrets::{SecretBox, SecretError};
use wiremesh::time::{parse_time, read_time, render_later, render_time, Timestamp};
use wiremesh::user_import;
use wiremesh::user_import::{Existing, ImportStep};
use wiremesh::users;
use wiremesh::users::{AdminRow, DeviceRecord, LifecycleRow, LifecycleStep, Unique, UserRow};

const PASSWORD: &str = "a sufficiently long password";

fn now() -> Timestamp {
    Timestamp { secs: 1_700_000_000, nanos: 0 }
}

fn now_text() -> String {
    render_time(now()).unwrap()
}

fn refused<T>(r: Result<T, ApiError>) -> ApiError {
    match r {
        Ok(_) => panic!("it should be refused"),
        Err(e) => e,
    }
}

fn account() -> AccountRow {
    AccountRow {
        id: uuid_to_text(9),
        email: "admin@example.com".into(),
        name: "Admin".into(),
        manual_disabled: false,
        ldap_disabled: false,
        soft_deleted_at: None,
    }
}

fn admin(user_id: u128) -> AdminRow {
    AdminRow { user_id, manual_disabled: false, ldap_disabled: false, soft_deleted: false }
}

fn entry() -> LdapSnapshotEntry {
    LdapSnapshotEntry {
        external_id: "immutable-1".into(),
        email: "person@example.com".into(),
        name: "Original Name".into(),
        title: "Engineer".into(),
        groups: vec!["Engineering".into()],
        active: true,
    }
}

fn directory(name: &str) -> CreateProviderRequest {
    CreateProviderRequest {
        kind: ProviderKind::Ldap,
        name: name.into(),
        trusted_create: true,
        sync_interval_seconds: Some(300),
        config: r#"{"url":"ldaps://directory.example","bind_dn":"cn=wiremesh,dc=example","bind_password":"test-only","base_dn":"dc=example"}"#.into(),
    }
}

fn import(content: &str) -> ImportUsersRequest {
    ImportUsersRequest { format: ImportFormat::Csv, content: content.into() }
}

fn smtp() -> UpdateSmtpSettingsRequest {
    UpdateSmtpSettingsRequest {
        enabled: true,
        host: " mail.example ".into(),
        port: 587,
        security: SmtpSecurity::StartTls,
        username: Some("wiremesh".into()),
        password: Some("pw".into()),
        from_address: "WireMesh <vpn@example.com>".into(),
        public_base_url: "https://vpn.example/".into(),
    }
}

#[test]
fn enrollment_is_single_use_and_argon2_parameters_are_fixed() {
    let ids = auth::BootstrapIds { user: 9, identity: 10, group: 11, membership: 12, token: 13 };
    let plan =
        auth::bootstrap_admin("Admin@Example.com", "Admin", None, None, ids, "drawn", now())
            .unwrap();
    match &plan.user {
        auth::BootstrapUser::Create { id, email, name, .. } => {
            assert_eq!((*id, email.as_str(), name.as_str()), (9, "admin@example.com", "Admin"));
        }
        auth::BootstrapUser::Enable { .. } => panic!("there was no such user"),
    }
    assert!(plan.create_group);
    assert_eq!(plan.result.enrollment_token, "drawn");
    assert_eq!(plan.token.token_hash, auth::token_digest(b"drawn"));
    let mut row = TokenRow {
        id: uuid_to_text(plan.token.id),
        purpose: "enrollment".into(),
        consumed_at: None,
        expires_at: plan.token.expires_at.clone(),
        account: account(),
    };
    let consumed = auth::consume_password_token(
        PASSWORD,
        &Some(row),
        TokenPurpose::Enrollment,
        &now_text(),
    )
    .unwrap();
    assert_eq!(consumed.user_id, 9);
    assert!(consumed.password_hash.contains("m=65536,t=3,p=1"));
    row = TokenRow {
        id: uuid_to_text(plan.token.id),
        purpose: "enrollment".into(),
        consumed_at: Some(now_text()),
        expires_at: plan.token.expires_at.clone(),
        account: account(),
    };
    let again = auth::consume_password_token(
        "another long password",
        &Some(row),
        TokenPurpose::Enrollment,
        &now_text(),
    );
    assert_eq!(
        refused(again),
        ApiError::Unauthorized("enrollment token is invalid or expired".into())
    );
    let login = Some(LoginRow { account: account(), password_hash: consumed.password_hash });
    assert_eq!(auth::login_local(&login, PASSWORD).unwrap(), 9);
    assert_eq!(
        refused(auth::login_local(&login, "another long password")),
        ApiError::Unauthorized("email or password is incorrect".into())
    );
    assert_eq!(
        refused(auth::login_local(&None, PASSWORD)),
        ApiError::Unauthorized("email or password is incorrect".into())
    );
}

#[test]
fn automatic_bootstrap_only_runs_without_an_enabled_admin() {
    assert!(auth::bootstrap_admin_if_needed(0));
    assert!(!auth::bootstrap_admin_if_needed(1));
}

#[test]
fn bootstrap_recovers_a_known_user() {
    let ids = auth::BootstrapIds { user: 9, identity: 10, group: 11, membership: 12, token: 13 };
    let known = uuid_to_text(77);
    let group = uuid_to_text(78);
    let plan = auth::bootstrap_admin(
        "admin@example.com",
        "Admin",
        Some(&known),
        Some(&group),
        ids,
        "drawn",
        now(),
    )
    .unwrap();
    assert!(matches!(plan.user, auth::BootstrapUser::Enable { id: 77 }));
    assert!(!plan.create_group);
    assert_eq!(plan.group_id, group);
    assert_eq!(plan.result.expires_at, render_later(now(), 7 * 24 * 3600).unwrap());
    assert!(auth::bootstrap_admin("x", "Admin", None, None, ids, "t", now()).is_err());
    assert_eq!(
        refused(auth::bootstrap_admin("a@b", " ", None, None, ids, "t", now())),
        ApiError::Validation("name is required".into())
    );
}

#[test]
fn sessions_are_accepted_until_they_expire() {
    let session = auth::create_session(1, 9, "token", now()).unwrap();
    assert_eq!(session.token_hash, auth::token_digest(b"token"));
    assert_eq!(session.expires_at, render_later(now(), 12 * 3600).unwrap());
    let row = |disabled: bool| {
        let mut account = account();
        account.ldap_disabled = disabled;
        Some(SessionRow { expires_at: session.expires_at.clone(), account })
    };
    let principal =
        auth::require_session(Some("token"), &row(false), &now_text(), true).unwrap();
    assert_eq!(principal.id, 9);
    assert!(principal.is_admin);
    assert!(principal.response().is_admin);
    let later = render_later(now(), 12 * 3600).unwrap();
    assert_eq!(
        refused(auth::require_session(Some("token"), &row(false), &later, true)),
        ApiError::Unauthorized("session is invalid or expired".into())
    );
    assert_eq!(
        refused(auth::require_session(None, &None, &later, true)),
        ApiError::Unauthorized("sign in is required".into())
    );
    assert_eq!(
        refused(auth::require_session(Some("token"), &row(true), &now_text(), true)),
        ApiError::Forbidden("user is disabled".into())
    );
}

#[test]
fn tokens_come_from_headers_and_cookies() {
    assert_eq!(auth::session_token(Some("Bearer abc"), None).as_deref(), Some("abc"));
    let cookie = "theme=dark; wiremesh_session=xyz; other=1";
    assert_eq!(auth::session_token(None, Some(cookie)).as_deref(), Some("xyz"));
    assert_eq!(auth::session_token(Some("Basic abc"), Some(cookie)).as_deref(), Some("xyz"));
    assert_eq!(auth::session_token(None, Some("theme=dark")), None);
    assert_eq!(
        auth::session_cookie("abc"),
        "wiremesh_session=abc; Path=/; HttpOnly; Secure; SameSite=Strict; Max-Age=43200"
    );
    assert_eq!(
        auth::clear_session_cookie(),
        "wiremesh_session=; Path=/; HttpOnly; Secure; SameSite=Strict; Max-Age=0"
    );
}

#[test]
fn passwords_have_a_length() {
    assert!(auth::validate_password("twelve chars").is_ok());
    assert_eq!(
        refused(auth::validate_password("eleven char")),
        ApiError::Validation("password must contain at least 12 characters".into())
    );
    assert_eq!(
        refused(auth::validate_password(&"x".repeat(1025))),
        ApiError::Validation("password is too long".into())
    );
}

#[test]
fn drawn_tokens_differ() {
    let a = auth::random_token();
    assert_eq!(a.len(), 43);
    assert_ne!(a, auth::random_token());
    assert_eq!(auth::random_secret().len(), 43);
    let digest = auth::token_digest(b"abc");
    assert_eq!(digest[..4], [0xba, 0x78, 0x16, 0xbf]);
}

#[test]
fn principals_reach_what_is_theirs() {
    let user = Principal { id: 5, email: "u@x".into(), name: "U".into(), is_admin: false };
    assert!(user.require_self_or_admin(5).is_ok());
    assert_eq!(
        refused(user.require_self_or_admin(6)),
        ApiError::Forbidden("the resource belongs to another user".into())
    );
    assert_eq!(
        refused(user.require_admin()),
        ApiError::Forbidden("administrator access is required".into())
    );
    let root = Principal { is_admin: true, ..user };
    assert!(root.require_admin().is_ok() && root.require_self_or_admin(6).is_ok());
}

#[test]
fn records_of_issued_tokens_do_not_tell_them() {
    let vault = SecretBox::from_bytes(&[6_u8; 32]).unwrap();
    let row = Some(TokenUserRow {
        email: "person@example.com".into(),
        manual_disabled: false,
        ldap_disabled: false,
        soft_deleted_at: None,
        purged_at: None,
        has_password: false,
        has_local_identity: true,
    });
    let ids = auth::IssueIds { token: 1, identity: 2, job: 3 };
    let issue = |token: &str| {
        auth::issue_user_token(&vault, 8, 9, &row, TokenPurpose::Enrollment, ids, token, now())
            .unwrap()
    };
    let (one, other) = (issue("first"), issue("second"));
    assert_eq!(one.audit.action, other.audit.action);
    assert_eq!(one.audit.details_json, "{}");
    assert_eq!(other.audit.details_json, "{}");
    assert_eq!(one.job.parameters_json, other.job.parameters_json);
    assert_ne!(one.token.token_hash, other.token.token_hash);
    assert!(one.identity.is_none());
}

#[test]
fn issued_tokens_are_mailed_sealed() {
    let vault = SecretBox::from_bytes(&[6_u8; 32]).unwrap();
    let row = |has_password: bool| {
        Some(TokenUserRow {
            email: "person@example.com".into(),
            manual_disabled: false,
            ldap_disabled: false,
            soft_deleted_at: None,
            purged_at: None,
            has_password,
            has_local_identity: false,
        })
    };
    let ids = auth::IssueIds { token: 1, identity: 2, job: 3 };
    let plan = auth::issue_user_token(
        &vault,
        8,
        9,
        &row(false),
        TokenPurpose::Enrollment,
        ids,
        "drawn",
        now(),
    )
    .unwrap();
    assert_eq!(plan.response.token, "drawn");
    assert_eq!(plan.response.purpose, "enrollment");
    assert_eq!(plan.job.template, "enrollment");
    assert!(plan.identity.is_some());
    let sealed = vault.decrypt(&auth::mail_context_text(3), &plan.job.secret_envelope).unwrap();
    assert_eq!(sealed, b"{\"token\":\"drawn\"}");
    assert!(!String::from_utf8_lossy(&plan.job.secret_envelope).contains("drawn"));
    assert_eq!(plan.audit.action, "auth.enrollment.issue");
    assert_eq!(
        refused(auth::issue_user_token(
            &vault,
            8,
            9,
            &row(false),
            TokenPurpose::Reset,
            ids,
            "drawn",
            now(),
        )),
        ApiError::Conflict("user has no local password; issue an enrollment token instead".into())
    );
    let reset = auth::issue_user_token(
        &vault,
        8,
        9,
        &row(true),
        TokenPurpose::Reset,
        ids,
        "drawn",
        now(),
    )
    .unwrap();
    assert_eq!(reset.token.expires_at, render_later(now(), 3600).unwrap());
    assert_eq!(reset.audit.action, "auth.reset.issue");
}

#[test]
fn linked_accounts_get_sessions() {
    assert!(auth::establish_session(&Some(account())).is_ok());
    assert_eq!(
        refused(auth::establish_session(&None)),
        ApiError::Unauthorized("linked user does not exist".into())
    );
}

#[test]
fn failures_are_written_down_without_a_name() {
    let entry = audit::record_auth_failure("auth.login.local");
    assert_eq!((entry.actor_kind, entry.outcome), ("anonymous", "failure"));
    assert_eq!(entry.actor_user_id, None);
    assert_eq!(audit::default_audit_limit(), 100);
    assert_eq!(audit::audit_limit(0), 1);
    assert_eq!(audit::audit_limit(7), 7);
    assert_eq!(audit::audit_limit(9_999), 500);
}

#[test]
fn envelope_uses_context_as_authenticated_data() {
    let vault = SecretBox::from_bytes(&[9_u8; 32]).unwrap();
    let value = br#"{"password":"secret"}"#;
    let envelope = vault.encrypt("provider:a", value).unwrap();
    assert_eq!(vault.decrypt("provider:a", &envelope).unwrap(), value);
    assert!(vault.decrypt("provider:b", &envelope).is_err());
}

#[test]
fn envelopes_are_versioned() {
    let vault = SecretBox::from_bytes(&[9_u8; 32]).unwrap();
    let sealed = vault.encrypt_with_nonce("c", b"text", &[1_u8; 24]).unwrap();
    assert_eq!(sealed.len(), 1 + 24 + 4 + 16);
    assert_eq!(sealed[0], 1);
    assert_eq!(sealed[1..25], [1_u8; 24]);
    let mut other = sealed.clone();
    other[0] = 2;
    assert_eq!(vault.decrypt("c", &other), Err(SecretError::InvalidEnvelope));
    assert_eq!(vault.decrypt("c", &sealed[..20]), Err(SecretError::InvalidEnvelope));
    let mut torn = sealed;
    torn[30] ^= 1;
    assert_eq!(vault.decrypt("c", &torn), Err(SecretError::Authentication));
}

#[test]
fn master_keys_are_read() {
    let text = secrets::generate_master_key();
    assert!(SecretBox::from_bytes(format!(" {text}\n").as_bytes()).is_ok());
    assert_ne!(text, secrets::generate_master_key());
    assert!(matches!(SecretBox::from_bytes(b"short"), Err(SecretError::InvalidMasterKey)));
    let from_text = SecretBox::from_bytes(b"CQkJCQkJCQkJCQkJCQkJCQkJCQkJCQkJCQkJCQkJCQk=").unwrap();
    let envelope = from_text.encrypt("c", b"x").unwrap();
    let from_bytes = SecretBox::from_bytes(&[9_u8; 32]).unwrap();
    assert_eq!(from_bytes.decrypt("c", &envelope).unwrap(), b"x");
}

#[test]
fn generated_pair_round_trips() {
    let pair = keys::generate_keypair();
    assert_eq!(keys::derive_public_key(&pair.private_key()).unwrap(), pair.public_key());
    let padded = format!(" {}\n", pair.private_key());
    assert_eq!(keys::derive_public_key(&padded).unwrap(), pair.public_key());
    assert!(validate_wireguard_public_key(&pair.public_key()).is_ok());
}

#[test]
fn public_keys_are_derived() {
    let pair = keys::pair_of(vec![
        0x77, 0x07, 0x6d, 0x0a, 0x73, 0x18, 0xa5, 0x7d, 0x3c, 0x16, 0xc1, 0x72, 0x51, 0xb2, 0x66,
        0x45, 0xdf, 0x4c, 0x2f, 0x87, 0xeb, 0xc0, 0x99, 0x2a, 0xb1, 0x77, 0xfb, 0xa5, 0x1d, 0xb9,
        0x2c, 0x2a,
    ]);
    assert_eq!(pair.public_key(), "hSDwCYkwp1R0i33ctD73Wg2/Og0mOBr066SpjqqbTmo=");
    assert_eq!(keys::derive_public_key("!"), Err(keys::KeyError::NotBase64));
    assert_eq!(keys::derive_public_key("AAAA"), Err(keys::KeyError::WrongLength));
    assert_eq!(keys::KeyError::NotBase64.message(), "private key is not valid base64");
    assert_eq!(keys::KeyError::WrongLength.message(), "private key must contain 32 bytes");
}

#[test]
fn faults_are_not_disclosed() {
    let answer = ApiError::Internal("the password is hunter2".into()).answer();
    assert_eq!((answer.status, answer.code), (500, "internal_error"));
    assert_eq!(answer.message, "internal server error");
    let database = ApiError::Database("table users".into()).answer();
    assert_eq!((database.status, database.code), (500, "database_error"));
    assert_eq!(database.message, "database operation failed");
    let told: Vec<ErrorAnswer> = vec![
        ApiError::Unauthorized("a".into()).answer(),
        ApiError::NotFound("b".into()).answer(),
        ApiError::Conflict("c".into()).answer(),
        ApiError::Validation("d".into()).answer(),
        ApiError::Forbidden("e".into()).answer(),
    ];
    let statuses: Vec<u16> = told.iter().map(|a| a.status).collect();
    assert_eq!(statuses, vec![401, 404, 409, 422, 403]);
    let codes: Vec<&str> = told.iter().map(|a| a.code).collect();
    assert_eq!(codes, vec!["unauthorized", "not_found", "conflict", "invalid_request", "forbidden"]);
    assert_eq!(told[3].message, "d");
    assert_eq!(ApiError::Validation("d".into()).message(), "invalid request: d");
}

#[test]
fn times_are_read_and_written() {
    assert_eq!(now_text(), "2023-11-14T22:13:20+00:00");
    assert_eq!(parse_time("2023-11-14T23:13:20+01:00"), Some(now()));
    assert_eq!(parse_time("yesterday"), None);
    assert_eq!(read_time("2023-11-14T22:13:20Z"), Ok(now()));
    assert_eq!(read_time(""), Err("premature end of input".to_string()));
    assert!(render_time(Timestamp { secs: i64::MAX, nanos: 0 }).is_err());
    let half = Timestamp { secs: 1_700_000_000, nanos: 500_000_000 };
    assert_eq!(render_time(half).unwrap(), "2023-11-14T22:13:20.500+00:00");
}

#[test]
fn users_are_created_with_a_normal_email() {
    let request = CreateUserRequest {
        email: " Person@Example.com ".into(),
        name: " Person ".into(),
        title: "Dr".into(),
    };
    let user = users::create_user(&request, 1, 2).unwrap();
    assert_eq!(user.email, "person@example.com");
    assert_eq!(user.name, "Person");
    assert_eq!(user.audit.action, "user.create");
    let nameless = CreateUserRequest { name: " ".into(), ..request.clone() };
    assert_eq!(
        refused(users::create_user(&nameless, 1, 2)),
        ApiError::Validation("name is required".into())
    );
    let mailless = CreateUserRequest { email: "x".into(), ..request };
    assert!(users::create_user(&mailless, 1, 2).is_err());
}

#[test]
fn users_have_their_own_limit_or_the_common_one() {
    let mut row = UserRow {
        id: uuid_to_text(4),
        email: "a@b".into(),
        name: "A".into(),
        title: "".into(),
        manual_disabled: false,
        ldap_disabled: true,
        device_limit_override: None,
        soft_deleted_at: None,
        purged_at: None,
        created_at: "t".into(),
    };
    let user = users::user_from_row(&row, 5).unwrap();
    assert!(user.disabled && !user.soft_deleted);
    assert_eq!(user.device_limit, 5);
    row.device_limit_override = Some(2);
    assert_eq!(users::user_from_row(&row, 5).unwrap().device_limit, 2);
    assert_eq!(
        refused(users::get_user(&None, 5)),
        ApiError::NotFound("user does not exist".into())
    );
    row.id = "x".into();
    assert!(matches!(users::user_from_row(&row, 5), Err(ApiError::Internal(_))));
}

#[test]
fn the_last_administrator_stays() {
    let one = [admin(1)];
    assert!(users::last_admin(&one, 1));
    assert!(!users::last_admin(&one, 2));
    let two = [admin(1), admin(2)];
    assert!(!users::last_admin(&two, 1));
    let lame = [admin(1), AdminRow { ldap_disabled: true, ..admin(2) }];
    assert_eq!(
        refused(users::ensure_not_last_admin(&lame, 1)),
        ApiError::Conflict("cannot remove the last enabled administrator".into())
    );
    assert!(users::ensure_enabled_admin_exists(false, &[]).is_ok());
    assert_eq!(
        refused(users::ensure_enabled_admin_exists(true, &[])),
        ApiError::Conflict("change would leave WireMesh without an enabled administrator".into())
    );
    assert!(users::set_user_disabled(true, 1, true, true, &one).is_err());
    let plan = users::set_user_disabled(true, 1, true, true, &two).unwrap();
    assert!(plan.cut_off);
    assert_eq!(plan.details_json, "{\"disabled\":true}");
    assert!(matches!(
        users::set_user_disabled(false, 1, true, true, &two),
        Err(ApiError::NotFound(_))
    ));
}

#[test]
fn purge_waits_for_removal_and_releases_the_email() {
    let row = |soft_deleted: bool| {
        Some(LifecycleRow {
            email: "departed@example.com".into(),
            soft_deleted,
            purged: false,
        })
    };
    assert_eq!(
        users::soft_delete_user(0, &row(false), &[], 1).unwrap(),
        LifecycleStep::Proceed
    );
    let waiting = [AckRow { gateway_id: 7, required_revision: 3, acknowledged: false }];
    assert!(matches!(
        users::purge_user(0, &row(true), &waiting, 1),
        Err(ApiError::Conflict(_))
    ));
    let done = wiremesh::desired::acknowledge(&waiting, 7, 3);
    let plan = users::purge_user(0, &row(true), &done, 1).unwrap().unwrap();
    assert_ne!(plan.email, "departed@example.com");
    assert_eq!(plan.released_email, "departed@example.com");
    assert_eq!(plan.email, format!("purged+{}@invalid", "00000000-0000-0000-0000-000000000001"));
    assert_eq!((plan.name, plan.title), ("Purged user", ""));
    assert!(plan.manual_disabled && !plan.ldap_disabled);
    assert_eq!(plan.device_limit_override, None);
    assert_eq!(
        plan.device_records,
        vec![
            DeviceRecord::LeaseAcknowledgements,
            DeviceRecord::Leases,
            DeviceRecord::KeyAcknowledgements,
            DeviceRecord::Keys,
            DeviceRecord::Configurations,
        ]
    );
    assert_eq!(
        plan.tables,
        vec![
            "devices",
            "acl_rule_users",
            "group_memberships",
            "local_passwords",
            "passkeys",
            "one_time_tokens",
            "sessions",
            "user_identities",
            "user_deletion_gateway_acks",
        ]
    );
    assert_eq!(plan.dropped_messages, vec!["pending", "sending", "failed"]);
    let again = CreateUserRequest {
        email: "departed@example.com".into(),
        name: "Replacement".into(),
        title: "".into(),
    };
    assert!(users::create_user(&again, 2, 3).is_ok());
    assert!(users::purge_user(0, &row(false), &done, 1).is_err());
}

#[test]
fn users_come_back_while_nothing_moves() {
    let gone = Some(LifecycleRow { email: "a@b".into(), soft_deleted: true, purged: false });
    assert!(users::restore_user(0, &gone).is_ok());
    assert_eq!(
        refused(users::restore_user(1, &gone)),
        ApiError::Conflict(
            "user lifecycle changes are paused during an active subnet migration".into()
        )
    );
    assert_eq!(
        users::soft_delete_user(0, &gone, &[], 1).unwrap(),
        LifecycleStep::Unchanged
    );
    let purged = Some(LifecycleRow { email: "a@b".into(), soft_deleted: true, purged: true });
    assert!(users::restore_user(0, &purged).is_err());
    assert!(users::soft_delete_user(0, &None, &[], 1).is_err());
}

#[test]
fn limits_are_from_one_to_a_hundred() {
    assert!(users::check_device_limit(None).is_ok());
    assert!(users::check_device_limit(Some(100)).is_ok());
    for limit in [0, 101] {
        assert_eq!(
            refused(users::check_device_limit(Some(limit))),
            ApiError::Validation("device limit must be between 1 and 100".into())
        );
    }
    let (entry, details) = users::set_user_device_limit(1, Some(3), 1).unwrap();
    assert_eq!((entry.action, details.as_str()), ("user.device_limit", "{\"limit\":3}"));
    assert_eq!(users::set_user_device_limit(1, None, 1).unwrap().1, "{\"limit\":null}");
    assert!(users::set_user_device_limit(1, None, 0).is_err());
}

#[test]
fn groups_have_normal_names() {
    let request = CreateGroupRequest { name: " Engineering ".into() };
    let (group, entry, _) = users::create_group(&request, 3).unwrap();
    assert_eq!(group.normalized_name, "engineering");
    assert_eq!(group.display_name, "Engineering");
    assert_eq!(entry.action, "group.create");
    assert!(users::create_group(&CreateGroupRequest { name: " ".into() }, 3).is_err());
    assert!(users::ensure_group_and_user(true, true).is_ok());
    assert!(users::ensure_group_and_user(false, true).is_err());
    assert!(users::ensure_group_and_user(true, false).is_err());
    assert_eq!(users::membership_source("local", "manual", None), "local");
    assert_eq!(users::membership_source("ldap", "id", Some("directory")), "ldap:directory");
    assert_eq!(users::membership_source("oidc", "id", None), "oidc:id");
    assert!(users::check_remove_member("wiremesh-admins", true, &[]).is_err());
    assert!(users::check_remove_member("staff", true, &[]).is_ok());
}

#[test]
fn taken_names_are_conflicts() {
    let text = |what: Unique| match users::already_taken(what) {
        ApiError::Conflict(message) => message,
        _ => panic!("that is a conflict"),
    };
    assert_eq!(text(Unique::AgentName), "agent name already exists");
    assert_eq!(text(Unique::PublicKey), "public key is already active");
    assert!(text(Unique::Email).contains("email"));
    assert!(text(Unique::GroupName).contains("group"));
    assert!(text(Unique::ProviderName).contains("provider"));
}

#[test]
fn csv_parser_normalizes_and_rejects_duplicate_rows() {
    let rows = user_import::parse(&import(
        "name,email,title,groups\nAlice, ALICE@Example.COM ,Ops,Staff; VPN Users\nOther,alice@example.com,,\n",
    ))
    .unwrap();
    assert_eq!(rows[0].email, "alice@example.com");
    assert_eq!(rows[0].groups, vec!["staff", "vpn users"]);
    assert!(rows[1].errors.iter().any(|error| error.contains("duplicated")));
}

#[test]
fn imports_are_previewed() {
    let rows = user_import::parse(&import(
        "email,name\na@x.org,A\nb@x.org,B\nc@x.org,C\nnobody,\n",
    ))
    .unwrap();
    assert_eq!(rows[3].errors, vec!["email is invalid", "name is required"]);
    let existing =
        [Existing::Nobody, Existing::Present, Existing::SoftDeleted, Existing::Nobody];
    let preview = user_import::preview_rows(&rows, &existing);
    assert_eq!((preview.creates, preview.links, preview.errors), (1, 1, 2));
    let actions: Vec<&str> = preview.rows.iter().map(|row| row.action.as_str()).collect();
    assert_eq!(actions, vec!["create", "link", "error", "error"]);
    assert!(!preview.valid);
    assert!(user_import::check_preview(&preview).is_err());
    let good = user_import::preview_rows(&rows[..1], &existing[..1]);
    assert!(user_import::check_preview(&good).is_ok());
    let empty = user_import::preview_rows(&[], &[]);
    assert!(!empty.valid);
    let (entry, details) = user_import::import_audit(5, &good, 1);
    assert_eq!(entry.action, "users.import");
    assert_eq!(details, "{\"affected_users\":1,\"creates\":1,\"links\":0,\"rows\":1}");
}

#[test]
fn imports_are_refused() {
    let message = |content: &str| match user_import::parse(&import(content)) {
        Err(ApiError::Validation(message)) => message,
        _ => panic!("{content}"),
    };
    assert_eq!(message("name,email,phone\n"), "unsupported import column phone");
    assert_eq!(message("name,email,Name\n"), "duplicate import column Name");
    assert_eq!(message("email\n"), "missing required name column");
    assert_eq!(message("name\n"), "missing required email column");
    assert!(message("name,email\nonly one\n").starts_with("invalid import row 2: "));
    let large = "x".repeat(2 * 1024 * 1024 + 1);
    assert_eq!(message(&large), "import file exceeds 2 MiB");
    let tabs = ImportUsersRequest {
        format: ImportFormat::Tsv,
        content: "name\temail\nA, B\ta@x.org\n".into(),
    };
    assert_eq!(user_import::parse(&tabs).unwrap()[0].name, "A, B");
}

#[test]
fn imported_users_are_linked_or_created() {
    let known = Some(EmailRow { id: uuid_to_text(6), soft_deleted_at: None });
    assert!(matches!(
        user_import::import_row("a@x", &known, false, 9).unwrap(),
        ImportStep::Existing { user_id: 6, add_identity: true }
    ));
    assert!(matches!(
        user_import::import_row("a@x", &None, false, 9).unwrap(),
        ImportStep::Create { user_id: 9 }
    ));
    let gone = Some(EmailRow { id: uuid_to_text(6), soft_deleted_at: Some("t".into()) });
    assert_eq!(
        refused(user_import::import_row("a@x", &gone, false, 9)),
        ApiError::Conflict("a@x became soft-deleted after preview".into())
    );
}

#[test]
fn multiple_ldap_sources_disable_only_when_all_are_inactive() {
    let vault = SecretBox::from_bytes(&[3_u8; 32]).unwrap();
    let first = providers::create_provider(&vault, 1, &directory("first")).unwrap().id;
    let second = providers::create_provider(&vault, 2, &directory("second")).unwrap().id;
    let sync = |rows: &mut Vec<LinkRow>, provider: u128, entries: Vec<LdapSnapshotEntry>| {
        let snapshot = LdapSyncSnapshot { complete: true, entries };
        let entries = providers::apply_ldap_snapshot(ProviderKind::Ldap, &snapshot).unwrap();
        let active = providers::sync_activity(rows, provider, &entries);
        for (row, active) in rows.iter_mut().zip(active) {
            row.active = active;
        }
    };
    let disabled = |rows: &[LinkRow]| {
        let identities = rows
            .iter()
            .map(|row| UserIdentity {
                id: row.provider_id,
                provider_id: Some(row.provider_id),
                kind: IdentityKind::Ldap,
                external_id: row.external_id.clone(),
                current_email: "person@example.com".into(),
                active: row.active,
                provider_enabled: true,
            })
            .collect();
        UserStatus { manual_disabled: false, soft_deleted: false, identities }.ldap_disabled()
    };
    let mut rows = vec![
        LinkRow {
            user_id: 7,
            provider_id: first,
            external_id: "immutable-1".into(),
            active: true,
        },
        LinkRow {
            user_id: 7,
            provider_id: second,
            external_id: "other-source-id".into(),
            active: true,
        },
    ];
    sync(&mut rows, first, vec![]);
    assert!(!disabled(&rows));
    sync(&mut rows, second, vec![]);
    assert!(disabled(&rows));
    sync(&mut rows, first, vec![entry()]);
    assert!(!disabled(&rows));
}

#[test]
fn partial_sync_preserves_previous_identity_state() {
    let partial = LdapSyncSnapshot { complete: false, entries: vec![] };
    assert!(providers::apply_ldap_snapshot(ProviderKind::Ldap, &partial).is_err());
    let begun = |complete: bool| providers::begin_sync(ProviderKind::Ldap, complete).ok().unwrap();
    assert_eq!(begun(true).status, "running");
    assert_eq!(begun(false).status, "partial");
    assert_eq!(begun(false).error_message, Some("partial LDAP results were discarded"));
    assert_eq!(
        refused(providers::begin_sync(ProviderKind::Oidc, true)),
        ApiError::Validation("provider is not LDAP".into())
    );
    let whole = LdapSyncSnapshot { complete: true, entries: vec![entry()] };
    assert_eq!(
        providers::apply_ldap_snapshot(ProviderKind::Ldap, &whole).unwrap()[0].groups,
        vec!["engineering"]
    );
}

#[test]
fn ldap_precedence_and_provider_enablement_control_effective_groups() {
    let claims = OidcClaims {
        subject: "oidc-person".into(),
        email: "person@example.com".into(),
        email_verified: true,
        name: "Person".into(),
        title: String::new(),
        groups: vec![auth::ADMIN_GROUP.into()],
    };
    let plan = providers::apply_verified_oidc_claims(&claims, ProviderKind::Oidc, true).unwrap();
    assert_eq!(plan.groups, vec!["wiremesh-admins"]);
    let person = |ldap_enabled: bool| {
        vec![
            UserIdentity {
                id: 1,
                provider_id: Some(1),
                kind: IdentityKind::Oidc,
                external_id: "oidc-person".into(),
                current_email: "person@example.com".into(),
                active: true,
                provider_enabled: true,
            },
            UserIdentity {
                id: 2,
                provider_id: Some(2),
                kind: IdentityKind::Ldap,
                external_id: "immutable-1".into(),
                current_email: "person@example.com".into(),
                active: ldap_enabled,
                provider_enabled: ldap_enabled,
            },
        ]
    };
    let memberships = |ldap_active: bool| {
        vec![
            SourcedMembership {
                group_id: 10,
                group_name: "wiremesh-admins".into(),
                source_kind: MembershipSourceKind::Oidc,
                source_id: Some(1),
                active: true,
            },
            SourcedMembership {
                group_id: 11,
                group_name: "engineering".into(),
                source_kind: MembershipSourceKind::Ldap,
                source_id: Some(2),
                active: ldap_active,
            },
        ]
    };
    let groups = effective_groups(&person(true), &memberships(true));
    assert!(!groups.contains_key(&10), "LDAP linkage must suppress OIDC groups");
    assert!(groups.contains_key(&11));
    assert_eq!(users::membership_source("ldap", "2", Some("directory")), "ldap:directory");
    let groups = effective_groups(&person(false), &memberships(false));
    assert!(groups.is_empty());
    let status =
        UserStatus { manual_disabled: false, soft_deleted: false, identities: person(false) };
    assert!(status.ldap_disabled());
}

#[test]
fn providers_are_checked_and_sealed() {
    let vault = SecretBox::from_bytes(&[5_u8; 32]).unwrap();
    let provider = providers::create_provider(&vault, 4, &directory(" work ")).unwrap();
    assert_eq!(provider.name, "work");
    assert!(provider.enabled);
    assert_eq!(provider.priority, 100);
    assert_eq!(provider.audit.action, "identity.provider.create");
    let opened =
        vault.decrypt(&providers::provider_context(4), &provider.config_envelope).unwrap();
    assert_eq!(opened, directory("x").config.as_bytes());
    assert!(providers::create_provider(&vault, 4, &directory(" ")).is_err());
    let mut bare = directory("work");
    bare.config = "{}".into();
    assert!(providers::create_provider(&vault, 4, &bare).is_err());
    let mut hasty = directory("work");
    hasty.sync_interval_seconds = Some(1);
    assert!(providers::create_provider(&vault, 4, &hasty).is_err());
    assert_eq!(providers::parse_kind("oidc").unwrap(), ProviderKind::Oidc);
    assert!(providers::parse_kind("saml").is_err());
    assert!(providers::provider_changed(1).is_ok());
    assert!(providers::provider_changed(0).is_err());
}

#[test]
fn directories_list_each_person_once() {
    let twice = [entry(), entry()];
    assert!(providers::validate_ldap_entries(&twice).is_err());
    let mut nameless = entry();
    nameless.external_id = " ".into();
    assert!(providers::validate_ldap_entries(&[nameless]).is_err());
    assert_eq!(
        providers::normalize_groups(&["B ".into(), "a".into(), "b".into()]).unwrap(),
        vec!["a", "b"]
    );
    assert_eq!(
        providers::attributes_json("N", "T"),
        "{\"name\":\"N\",\"title\":\"T\"}"
    );
}

#[test]
fn people_are_linked_by_email() {
    let link = |known: Option<&str>, user: &Option<EmailRow>, may_create: bool| {
        providers::link_or_create_user(known, "a@x.org", user, "A", "T", may_create, 9)
    };
    assert!(matches!(
        link(Some(&uuid_to_text(3)), &None, false).unwrap(),
        LinkStep::Known { user_id: 3 }
    ));
    let user = Some(EmailRow { id: uuid_to_text(4), soft_deleted_at: None });
    assert!(matches!(link(None, &user, false).unwrap(), LinkStep::Link { user_id: 4, .. }));
    assert!(matches!(link(None, &None, true).unwrap(), LinkStep::Create { user_id: 9, .. }));
    assert!(link(None, &None, false).is_err());
    let gone = Some(EmailRow { id: uuid_to_text(4), soft_deleted_at: Some("t".into()) });
    assert!(link(None, &gone, true).is_err());
    assert!(matches!(
        providers::upsert_group("Staff", None, 8).unwrap(),
        GroupStep::Create { id: 8, .. }
    ));
    assert!(matches!(
        providers::upsert_group("Staff", Some(&uuid_to_text(2)), 8).unwrap(),
        GroupStep::Known { id: 2 }
    ));
}

#[test]
fn only_verified_emails_sign_in() {
    let claims = OidcClaims {
        subject: "s".into(),
        email: "Person@Example.com".into(),
        email_verified: false,
        name: "P".into(),
        title: String::new(),
        groups: vec![],
    };
    assert!(providers::apply_verified_oidc_claims(&claims, ProviderKind::Oidc, true).is_err());
    let verified = OidcClaims { email_verified: true, ..claims };
    let plan =
        providers::apply_verified_oidc_claims(&verified, ProviderKind::Oidc, true).unwrap();
    assert_eq!(plan.email, "person@example.com");
    assert!(providers::apply_verified_oidc_claims(&verified, ProviderKind::Oidc, false).is_err());
    assert!(providers::apply_verified_oidc_claims(&verified, ProviderKind::Ldap, true).is_err());
}

#[test]
fn mail_settings_are_checked() {
    let update = mail::update_settings(5, &smtp(), &None).unwrap();
    assert_eq!(update.config.host, "mail.example");
    assert_eq!(update.config.public_base_url, "https://vpn.example");
    assert!(update.response.has_password);
    assert_eq!(update.details_json, "{\"enabled\":true,\"host\":\"mail.example\"}");
    let text = |request: UpdateSmtpSettingsRequest| {
        match refused(mail::update_settings(5, &request, &None)) {
            ApiError::Validation(message) => message,
            _ => panic!("the request is wrong"),
        }
    };
    assert_eq!(
        text(UpdateSmtpSettingsRequest { host: " ".into(), ..smtp() }),
        "SMTP host and port are required"
    );
    assert_eq!(
        text(UpdateSmtpSettingsRequest { from_address: "nobody".into(), ..smtp() }),
        "SMTP sender address is invalid"
    );
    assert_eq!(
        text(UpdateSmtpSettingsRequest { public_base_url: "x".into(), ..smtp() }),
        "public base URL is invalid"
    );
    assert_eq!(
        text(UpdateSmtpSettingsRequest { public_base_url: "ftp://x".into(), ..smtp() }),
        "public base URL must use HTTP or HTTPS"
    );
    assert_eq!(
        text(UpdateSmtpSettingsRequest { username: Some("".into()), ..smtp() }),
        "SMTP username cannot be empty"
    );
    assert_eq!(
        text(UpdateSmtpSettingsRequest { password: Some("".into()), ..smtp() }),
        "SMTP username and password must be configured together"
    );
    let kept = UpdateSmtpSettingsRequest { password: None, ..smtp() };
    let kept = mail::update_settings(5, &kept, &Some("old".into())).unwrap();
    assert_eq!(kept.config.password.as_deref(), Some("old"));
    let unset = mail::get_settings(&None);
    assert!(!unset.configured && unset.port == 587);
}

#[test]
fn messages_are_written() {
    let base = "https://vpn.example";
    let (subject, body) = mail::render("enrollment", "{}", Some("{\"token\":\"abc\"}"), base);
    assert_eq!(subject, "Complete your WireMesh enrollment");
    assert_eq!(
        body,
        "Open https://vpn.example/?enrollment=abc to complete enrollment. This link expires in seven days and works once.\n"
    );
    let (_, body) = mail::render("pool_migration", "{\"effective_at\":\"soon\"}", None, base);
    assert!(body.starts_with("Your WireMesh VPN address will change at soon."));
    let (_, body) = mail::render("pool_migration", "{}", None, base);
    assert!(body.contains("at the scheduled time."));
    let (subject, _) = mail::render("reset", "{}", None, base);
    assert_eq!(subject, "Reset your WireMesh account");
    assert_eq!(mail::render("access_change", "{}", None, base).0, "Your WireMesh access changed");
    assert_eq!(mail::render("profile_change", "{}", None, base).0, "Your WireMesh profile changed");
    assert_eq!(mail::render("other", "{}", None, base).0, "WireMesh notification");
    assert!(mail::check_parameters("{").is_err());
    assert!(mail::check_parameters("{}").is_ok());
}

#[test]
fn mail_is_tried_again_later() {
    let delays: Vec<i64> = (0..11).map(mail::delay_minutes).collect();
    assert_eq!(delays, vec![1, 1, 2, 4, 8, 16, 32, 64, 128, 128, 128]);
    let again = mail::after_failure(3, "no route", now()).unwrap();
    assert_eq!(again.status, "pending");
    assert_eq!(again.next_attempt_at, Some(render_later(now(), 240).unwrap()));
    assert!(!again.erase_secret);
    let last = mail::after_failure(10, &"x".repeat(600), now()).unwrap();
    assert_eq!(last.status, "failed");
    assert!(last.erase_secret);
    assert_eq!(last.last_error.unwrap().len(), 500);
    assert!(mail::after_sent().erase_secret);
    let spent = mail::after_spent();
    assert_eq!((spent.status, spent.erase_secret), ("failed", true));
    assert_eq!(spent.last_error.as_deref(), Some("token expired or consumed"));
    assert!(mail::is_token_spent(true, "9", "1"));
    assert!(mail::is_token_spent(false, "1", "1"));
    assert!(!mail::is_token_spent(false, "2", "1"));
}

#[test]
fn the_oldest_message_goes_first() {
    let job = |id: &str, status: &str, next: &str, created: &str| mail::MailJobRow {
        id: id.into(),
        status: status.into(),
        next_attempt_at: next.into(),
        created_at: created.into(),
        claimed_at: None,
    };
    let jobs = [
        job("a", "pending", "5", "3"),
        job("b", "pending", "5", "2"),
        job("c", "sent", "5", "1"),
        job("d", "pending", "9", "0"),
    ];
    assert_eq!(mail::next_job(&jobs, "6"), Some(1));
    assert_eq!(mail::next_job(&jobs, "4"), None);
    let stuck = mail::MailJobRow { claimed_at: Some("3".into()), ..job("e", "sending", "1", "1") };
    assert!(stuck.is_abandoned("3"));
    assert!(!stuck.is_abandoned("2"));
}

#[test]
fn hashes_that_name_too_many_lanes_are_refused() {
    let hash = auth::hash_password(PASSWORD).unwrap();
    assert_eq!(auth::verify_password(&hash, PASSWORD), Ok(true));
    assert_eq!(auth::verify_password(&hash, "another long password"), Ok(false));
    let with_lanes = |lanes: &str| hash.replace(",p=1$", &format!(",p={lanes}$"));
    assert_eq!(auth::verify_password(&with_lanes("536870911"), PASSWORD), Ok(false));
    assert_eq!(auth::verify_password(&with_lanes("99999999999"), PASSWORD), Ok(false));
    assert_eq!(auth::verify_password(&with_lanes("536870912"), PASSWORD), Ok(false));
    assert_eq!(auth::verify_password(&with_lanes("4294967295"), PASSWORD), Ok(false));
    assert_eq!(
        auth::verify_password("plain", PASSWORD),
        Err("password hash string missing field".to_string())
    );
    let login = |password_hash: String| {
        refused(auth::login_local(&Some(LoginRow { account: account(), password_hash }), PASSWORD))
    };
    assert_eq!(
        login(with_lanes("536870912")),
        ApiError::Unauthorized("email or password is incorrect".into())
    );
    assert_eq!(
        login("plain".into()),
        ApiError::Internal("password hash string missing field".into())
    );
}

#[test]
fn texts_are_sealed_for_their_owner() {
    let vault = SecretBox::from_bytes(&[9_u8; 32]).unwrap();
    let envelope = secrets::seal_text(&vault, "provider:a", "text").unwrap();
    assert_eq!(vault.decrypt("provider:a", &envelope).unwrap(), b"text");
    assert!(secrets::seal_text(&vault, "", "").is_ok());
}

#[test]
fn directories_are_asked_after_the_credentials_are_checked() {
    let check = |email: &str, password: &str| federated::check_ldap_credentials(email, password);
    assert_eq!(check(" Ada@Example.com ", "pw").unwrap(), "ada@example.com");
    assert_eq!(
        refused(check("no address", "")),
        ApiError::Unauthorized("email or password is incorrect".into())
    );
    assert!(matches!(refused(check("no address", "pw")), ApiError::Validation(_)));
    assert_eq!(
        refused(federated::begin_ldap_login("ada@example.com", "pw", ProviderKind::Ldap, false)),
        ApiError::Forbidden("LDAP realm is not enabled".into())
    );
}
