-- The tables of the controller. Identifiers and times are texts; revisions are integers.

CREATE TABLE system_settings (
    key TEXT PRIMARY KEY,
    value_json TEXT NOT NULL,
    updated_at TEXT NOT NULL
);

INSERT INTO system_settings(key, value_json, updated_at) VALUES
    ('client_pool', '"10.64.0.0/16"', '1970-01-01T00:00:00+00:00'),
    ('default_device_limit', '5', '1970-01-01T00:00:00+00:00'),
    ('client_options',
     '{"dns_servers":[],"search_domains":[],"mtu":null,"persistent_keepalive":null}',
     '1970-01-01T00:00:00+00:00');

CREATE TABLE users (
    id TEXT PRIMARY KEY,
    email TEXT NOT NULL UNIQUE,
    name TEXT NOT NULL,
    title TEXT NOT NULL DEFAULT '',
    creator_kind TEXT NOT NULL,
    manual_disabled INTEGER NOT NULL DEFAULT 0,
    ldap_disabled INTEGER NOT NULL DEFAULT 0,
    device_limit_override INTEGER,
    soft_deleted_at TEXT,
    purged_at TEXT,
    created_at TEXT NOT NULL,
    updated_at TEXT NOT NULL
);

CREATE TABLE identity_providers (
    id TEXT PRIMARY KEY,
    kind TEXT NOT NULL,
    name TEXT NOT NULL UNIQUE,
    enabled INTEGER NOT NULL DEFAULT 1,
    priority INTEGER NOT NULL DEFAULT 100,
    trusted_create INTEGER NOT NULL DEFAULT 0,
    sync_interval_seconds INTEGER,
    config_envelope BLOB NOT NULL,
    last_successful_sync_at TEXT,
    created_at TEXT NOT NULL,
    updated_at TEXT NOT NULL
);

CREATE TABLE identity_sync_runs (
    id TEXT PRIMARY KEY,
    provider_id TEXT NOT NULL REFERENCES identity_providers(id),
    status TEXT NOT NULL,
    seen_entries INTEGER NOT NULL,
    error_message TEXT,
    started_at TEXT NOT NULL,
    completed_at TEXT
);

CREATE TABLE user_identities (
    id TEXT PRIMARY KEY,
    user_id TEXT NOT NULL REFERENCES users(id),
    provider_id TEXT REFERENCES identity_providers(id),
    kind TEXT NOT NULL,
    external_id TEXT NOT NULL,
    current_email TEXT NOT NULL,
    attributes_json TEXT NOT NULL DEFAULT '{}',
    active INTEGER NOT NULL DEFAULT 1,
    provider_enabled INTEGER NOT NULL DEFAULT 1,
    last_seen_at TEXT,
    created_at TEXT NOT NULL,
    updated_at TEXT NOT NULL,
    UNIQUE (provider_id, external_id)
);

CREATE TABLE local_passwords (
    user_id TEXT PRIMARY KEY REFERENCES users(id),
    password_hash TEXT NOT NULL,
    updated_at TEXT NOT NULL
);

CREATE TABLE passkeys (
    id TEXT PRIMARY KEY,
    user_id TEXT NOT NULL REFERENCES users(id),
    credential BLOB NOT NULL,
    created_at TEXT NOT NULL
);

CREATE TABLE one_time_tokens (
    id TEXT PRIMARY KEY,
    user_id TEXT NOT NULL REFERENCES users(id),
    purpose TEXT NOT NULL,
    token_hash BLOB NOT NULL UNIQUE,
    expires_at TEXT NOT NULL,
    consumed_at TEXT,
    created_at TEXT NOT NULL
);

CREATE TABLE sessions (
    id TEXT PRIMARY KEY,
    user_id TEXT NOT NULL REFERENCES users(id),
    token_hash BLOB NOT NULL UNIQUE,
    expires_at TEXT NOT NULL,
    last_seen_at TEXT NOT NULL,
    created_at TEXT NOT NULL
);

CREATE TABLE oidc_login_states (
    id TEXT PRIMARY KEY,
    provider_id TEXT NOT NULL REFERENCES identity_providers(id),
    state_hash BLOB NOT NULL UNIQUE,
    nonce_hash BLOB NOT NULL,
    pkce_verifier_envelope BLOB NOT NULL,
    redirect_uri TEXT NOT NULL,
    expires_at TEXT NOT NULL,
    consumed_at TEXT,
    created_at TEXT NOT NULL
);

CREATE TABLE groups (
    id TEXT PRIMARY KEY,
    normalized_name TEXT NOT NULL UNIQUE,
    display_name TEXT NOT NULL,
    created_at TEXT NOT NULL
);

CREATE TABLE group_memberships (
    id TEXT PRIMARY KEY,
    group_id TEXT NOT NULL REFERENCES groups(id),
    user_id TEXT NOT NULL REFERENCES users(id),
    source_kind TEXT NOT NULL,
    source_id TEXT NOT NULL,
    active INTEGER NOT NULL DEFAULT 1,
    updated_at TEXT NOT NULL,
    UNIQUE (group_id, user_id, source_kind, source_id)
);

-- A membership that an identity provider tells of counts while the provider is enabled and the
-- identity behind it is active.
CREATE VIEW effective_group_memberships AS
SELECT gm.group_id, gm.user_id, gm.source_kind, gm.source_id
FROM group_memberships gm
WHERE gm.active = 1 AND (
    gm.source_kind = 'local'
    OR EXISTS (
        SELECT 1 FROM user_identities i JOIN identity_providers p ON p.id = i.provider_id
        WHERE i.user_id = gm.user_id AND i.provider_id = gm.source_id AND i.active = 1 AND p.enabled = 1
    )
);

CREATE TABLE agents (
    id TEXT PRIMARY KEY,
    name TEXT NOT NULL UNIQUE,
    kind TEXT NOT NULL,
    current_secret_hash BLOB NOT NULL,
    next_secret_hash BLOB,
    protocol_major INTEGER,
    protocol_minor INTEGER,
    version TEXT,
    capabilities_json TEXT,
    boot_id TEXT,
    last_seen_at TEXT,
    created_at TEXT NOT NULL,
    updated_at TEXT NOT NULL
);

CREATE TABLE sites (
    id TEXT PRIMARY KEY,
    name TEXT NOT NULL,
    acl_default TEXT NOT NULL DEFAULT 'allow',
    created_at TEXT NOT NULL,
    updated_at TEXT NOT NULL
);

CREATE TABLE site_routes (
    id TEXT PRIMARY KEY,
    site_id TEXT NOT NULL REFERENCES sites(id),
    cidr TEXT NOT NULL,
    created_at TEXT NOT NULL,
    UNIQUE (site_id, cidr)
);

CREATE TABLE site_grants (
    site_id TEXT NOT NULL REFERENCES sites(id),
    group_id TEXT NOT NULL REFERENCES groups(id),
    created_at TEXT NOT NULL,
    PRIMARY KEY (site_id, group_id)
);

CREATE TABLE gateways (
    id TEXT PRIMARY KEY,
    site_id TEXT NOT NULL UNIQUE REFERENCES sites(id),
    agent_id TEXT REFERENCES agents(id),
    kind TEXT NOT NULL,
    status TEXT NOT NULL DEFAULT 'pending',
    interface_name TEXT NOT NULL,
    endpoint_host TEXT NOT NULL,
    public_port INTEGER,
    listen_port INTEGER,
    public_key TEXT,
    compatibility_address INTEGER NOT NULL DEFAULT 0,
    router_url TEXT,
    router_credential_envelope BLOB,
    desired_revision INTEGER NOT NULL DEFAULT 0,
    applied_revision INTEGER NOT NULL DEFAULT 0,
    actual_state_hash TEXT,
    last_error TEXT,
    last_seen_at TEXT,
    created_at TEXT NOT NULL,
    updated_at TEXT NOT NULL
);

CREATE TABLE gateway_desired_states (
    gateway_id TEXT NOT NULL REFERENCES gateways(id),
    revision INTEGER NOT NULL,
    state_json TEXT NOT NULL,
    state_hash TEXT NOT NULL,
    created_at TEXT NOT NULL,
    PRIMARY KEY (gateway_id, revision)
);

CREATE TABLE gateway_apply_events (
    id TEXT PRIMARY KEY,
    gateway_id TEXT NOT NULL REFERENCES gateways(id),
    revision INTEGER NOT NULL,
    outcome TEXT NOT NULL,
    state_hash TEXT,
    error_code TEXT,
    error_message TEXT,
    created_at TEXT NOT NULL
);

CREATE TABLE acl_rules (
    id TEXT PRIMARY KEY,
    site_id TEXT NOT NULL REFERENCES sites(id),
    position INTEGER NOT NULL,
    action TEXT NOT NULL,
    destination TEXT NOT NULL,
    protocol TEXT NOT NULL,
    port_start INTEGER,
    port_end INTEGER,
    enabled INTEGER NOT NULL DEFAULT 1,
    created_at TEXT NOT NULL,
    updated_at TEXT NOT NULL
);

CREATE TABLE acl_rule_users (
    rule_id TEXT NOT NULL REFERENCES acl_rules(id) ON DELETE CASCADE,
    user_id TEXT NOT NULL REFERENCES users(id),
    PRIMARY KEY (rule_id, user_id)
);

CREATE TABLE acl_rule_groups (
    rule_id TEXT NOT NULL REFERENCES acl_rules(id) ON DELETE CASCADE,
    group_id TEXT NOT NULL REFERENCES groups(id),
    PRIMARY KEY (rule_id, group_id)
);

CREATE TABLE devices (
    id TEXT PRIMARY KEY,
    user_id TEXT NOT NULL REFERENCES users(id),
    name TEXT NOT NULL,
    public_key TEXT NOT NULL,
    vpn_address TEXT NOT NULL,
    status TEXT NOT NULL DEFAULT 'active',
    config_revision INTEGER NOT NULL DEFAULT 1,
    acknowledged_revision INTEGER NOT NULL DEFAULT 0,
    acknowledgement_method TEXT,
    acknowledged_at TEXT,
    deleted_at TEXT,
    created_at TEXT NOT NULL,
    updated_at TEXT NOT NULL
);

CREATE TABLE config_snapshots (
    device_id TEXT NOT NULL REFERENCES devices(id),
    revision INTEGER NOT NULL,
    fingerprint TEXT NOT NULL,
    model_json TEXT NOT NULL,
    created_at TEXT NOT NULL,
    PRIMARY KEY (device_id, revision)
);

CREATE TABLE ip_leases (
    id TEXT PRIMARY KEY,
    address TEXT NOT NULL,
    device_id TEXT NOT NULL REFERENCES devices(id),
    allocated_at TEXT NOT NULL,
    quarantined_at TEXT,
    released_at TEXT
);

-- An address belongs to one device until it is given up.
CREATE UNIQUE INDEX ip_leases_held ON ip_leases(address) WHERE released_at IS NULL;

CREATE TABLE lease_gateway_acks (
    lease_id TEXT NOT NULL REFERENCES ip_leases(id),
    gateway_id TEXT NOT NULL REFERENCES gateways(id),
    required_revision INTEGER NOT NULL,
    acknowledged_at TEXT,
    PRIMARY KEY (lease_id, gateway_id)
);

CREATE TABLE key_registry (
    id TEXT PRIMARY KEY,
    public_key TEXT NOT NULL UNIQUE,
    owner_kind TEXT NOT NULL,
    owner_id TEXT NOT NULL,
    activated_at TEXT NOT NULL,
    retired_at TEXT
);

CREATE TABLE key_gateway_acks (
    key_id TEXT NOT NULL REFERENCES key_registry(id),
    gateway_id TEXT NOT NULL REFERENCES gateways(id),
    required_revision INTEGER NOT NULL,
    acknowledged_at TEXT,
    PRIMARY KEY (key_id, gateway_id)
);

CREATE TABLE user_deletion_gateway_acks (
    user_id TEXT NOT NULL REFERENCES users(id),
    gateway_id TEXT NOT NULL REFERENCES gateways(id),
    required_revision INTEGER NOT NULL,
    acknowledged_at TEXT,
    PRIMARY KEY (user_id, gateway_id)
);

CREATE TABLE subnet_migrations (
    id TEXT PRIMARY KEY,
    old_pool TEXT NOT NULL,
    new_pool TEXT NOT NULL,
    effective_at TEXT NOT NULL,
    status TEXT NOT NULL,
    plan_json TEXT NOT NULL,
    created_by TEXT NOT NULL REFERENCES users(id),
    created_at TEXT NOT NULL,
    updated_at TEXT NOT NULL
);

CREATE TABLE subnet_migration_gateways (
    migration_id TEXT NOT NULL REFERENCES subnet_migrations(id),
    gateway_id TEXT NOT NULL REFERENCES gateways(id),
    base_revision INTEGER NOT NULL,
    future_revision INTEGER NOT NULL,
    expected_state_hash TEXT NOT NULL,
    prepared_state_hash TEXT,
    prepared_at TEXT,
    PRIMARY KEY (migration_id, gateway_id)
);

CREATE TABLE smtp_settings (
    singleton INTEGER PRIMARY KEY CHECK (singleton = 1),
    enabled INTEGER NOT NULL,
    config_envelope BLOB NOT NULL,
    updated_at TEXT NOT NULL
);

CREATE TABLE mail_jobs (
    id TEXT PRIMARY KEY,
    recipient TEXT NOT NULL,
    template TEXT NOT NULL,
    parameters_json TEXT NOT NULL,
    secret_envelope BLOB,
    status TEXT NOT NULL DEFAULT 'pending',
    attempts INTEGER NOT NULL DEFAULT 0,
    next_attempt_at TEXT NOT NULL,
    claimed_at TEXT,
    sent_at TEXT,
    last_error TEXT,
    created_at TEXT NOT NULL
);

CREATE TABLE audit_events (
    id TEXT PRIMARY KEY,
    occurred_at TEXT NOT NULL,
    actor_user_id TEXT,
    actor_kind TEXT NOT NULL,
    action TEXT NOT NULL,
    object_kind TEXT NOT NULL,
    object_id TEXT,
    outcome TEXT NOT NULL,
    details_json TEXT NOT NULL DEFAULT '{}'
);

-- The audit log only grows.
CREATE TRIGGER audit_events_keep_rows BEFORE UPDATE ON audit_events
BEGIN
    SELECT RAISE(ABORT, 'audit events are append-only');
END;

CREATE TRIGGER audit_events_keep_all BEFORE DELETE ON audit_events
BEGIN
    SELECT RAISE(ABORT, 'audit events are append-only');
END;
