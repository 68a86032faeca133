//! Identity providers: how they are set up, and what they say of people.

use vstd::prelude::*;
use vstd::string::*;
use vstd::utf8::encode_utf8;

use crate::audit::{success, AuditEntry};
use crate::error::{
    checks, conflict, conflict_error, forbidden, forbidden_error, identity_error, internal,
    internal_error, not_found, not_found_error, validation, validation_error, ApiError, ErrorView,
};
use crate::fingerprint::bool_json;
use crate::identity::{is_email, normalize_email, normalize_group_name, normalized, IdentityError};
use crate::ids::{uuid_parsed, uuid_text, uuid_to_text, Uuid};
use crate::json::{
    json_members, json_quoted, json_string, json_unquoted, member_of, object_members, pair_texts,
    find_string,
};
use crate::lines::{holds_text, sort_unique_texts, sorted_unique};
use crate::mail::member_text;
use crate::models::{
    CreateProviderRequest, LdapSnapshotEntry, LdapSyncSnapshot, LoginProviderResponse, OidcClaims,
    ProviderKind, ProviderResponse,
};
use crate::rows::{named_id, named_id_fault, opt_str, or_fault, plain_id, plain_id_fault, unless};
use crate::secrets::{is_envelope, seal_fault, seal_text, SecretBox};
use crate::text::{
    byte_count, byte_len, chars_of, copy_option, copy_text, opt_text, push_text, same_text,
    starts_with, texts, trim, trimmed,
};

verus! {

/// What the configuration of a provider belongs to as a secret.
pub open spec fn provider_context_of(id: Uuid) -> Seq<char> {
    "identity-provider:"@ + uuid_text(id)
}

/// What the configuration of a provider belongs to as a secret.
pub fn provider_context(id: Uuid) -> (r: String)
    ensures
        r@ == provider_context_of(id),
{
    String::from_str("identity-provider:").concat(uuid_to_text(id).as_str())
}

/// The text of a string member of a configuration.
pub open spec fn config_text(
    members: Seq<(Seq<char>, Seq<char>)>,
    key: Seq<char>,
) -> Option<Seq<char>> {
    match member_of(members, key) {
        Some(value) => json_unquoted(value),
        None => None,
    }
}

/// Whether a string member of a configuration begins in a certain way.
pub open spec fn begins(
    members: Seq<(Seq<char>, Seq<char>)>,
    key: Seq<char>,
    prefix: Seq<char>,
) -> bool {
    config_text(members, key) is Some && prefix.is_prefix_of(config_text(members, key)->0)
}

/// Whether a string member of a configuration is there and not empty.
pub open spec fn given(members: Seq<(Seq<char>, Seq<char>)>, key: Seq<char>) -> bool {
    config_text(members, key) is Some && config_text(members, key)->0.len() > 0
}

/// The first of three members that is missing.
pub open spec fn missing_of(
    members: Seq<(Seq<char>, Seq<char>)>,
    prefix: Seq<char>,
    a: Seq<char>,
    b: Seq<char>,
    c: Seq<char>,
) -> Option<ErrorView> {
    if !given(members, a) {
        Some(validation(prefix + a + " is required"@))
    } else if !given(members, b) {
        Some(validation(prefix + b + " is required"@))
    } else if !given(members, c) {
        Some(validation(prefix + c + " is required"@))
    } else {
        None
    }
}

/// What is wrong with the configuration of an OpenID Connect provider.
pub open spec fn oidc_config_fault(m: Seq<(Seq<char>, Seq<char>)>) -> Option<ErrorView> {
    if !begins(m, "issuer_url"@, "https://"@) {
        Some(validation("OIDC issuer_url must use HTTPS"@))
    } else if missing_of(m, "OIDC "@, "client_id"@, "client_secret"@, "redirect_url"@) is Some {
        missing_of(m, "OIDC "@, "client_id"@, "client_secret"@, "redirect_url"@)
    } else if !begins(m, "redirect_url"@, "https://"@) {
        Some(validation("OIDC redirect_url must use HTTPS"@))
    } else if !begins(m, "userinfo_url"@, "https://"@) {
        Some(
            validation(
                "OIDC userinfo_url must use HTTPS and is required for profile and group claims"@,
            ),
        )
    } else {
        None
    }
}

/// What is wrong with the configuration of a directory.
pub open spec fn ldap_config_fault(
    m: Seq<(Seq<char>, Seq<char>)>,
    sync_interval: Option<u32>,
) -> Option<ErrorView> {
    if !begins(m, "url"@, "ldaps://"@) && !(begins(m, "url"@, "ldap://"@) && member_of(
        m,
        "start_tls"@,
    ) == Some("true"@)) {
        Some(validation("LDAP must use LDAPS or LDAP with start_tls=true"@))
    } else if sync_interval is None || sync_interval->0 < 60 {
        Some(validation("LDAP sync interval must be at least 60 seconds"@))
    } else {
        missing_of(m, "LDAP "@, "bind_dn"@, "bind_password"@, "base_dn"@)
    }
}

/// What is wrong with the configuration of a provider.
pub open spec fn config_fault(
    kind: ProviderKind,
    sync_interval: Option<u32>,
    config: Seq<char>,
) -> Option<ErrorView> {
    match json_members(config) {
        None => Some(validation("provider config must be an object"@)),
        Some(members) => match kind {
            ProviderKind::Oidc => oidc_config_fault(members),
            ProviderKind::Ldap => ldap_config_fault(members, sync_interval),
        },
    }
}

fn config_begins(members: &[(String, String)], key: &str, prefix: &str) -> (r: bool)
    ensures
        r == begins(pair_texts(members@), key@, prefix@),
{
    match find_string(members, key) {
        Some(value) => starts_with(value.as_str(), prefix),
        None => false,
    }
}

fn config_given(members: &[(String, String)], key: &str) -> (r: bool)
    ensures
        r == given(pair_texts(members@), key@),
{
    match find_string(members, key) {
        Some(value) => chars_of(value.as_str()).len() > 0,
        None => false,
    }
}

fn require_three(members: &[(String, String)], prefix: &str, a: &str, b: &str, c: &str) -> (r:
    Result<(), ApiError>)
    ensures
        checks(r, missing_of(pair_texts(members@), prefix@, a@, b@, c@)),
{
    let missing = if !config_given(members, a) {
        a
    } else if !config_given(members, b) {
        b
    } else if !config_given(members, c) {
        c
    } else {
        return Ok(());
    };
    Err(
        validation_error(
            String::from_str(prefix).concat(missing).concat(" is required").as_str(),
        ),
    )
}

/// Lets configurations pass with which a provider can be used safely.
pub fn validate_provider_config(kind: ProviderKind, sync_interval: Option<u32>, config: &str) -> (r:
    Result<(), ApiError>)
    ensures
        checks(r, config_fault(kind, sync_interval, config@)),
{
    let members = match object_members(config) {
        Some(m) => m,
        None => return Err(validation_error("provider config must be an object")),
    };
    let m = members.as_slice();
    match kind {
        ProviderKind::Oidc => {
            if !config_begins(m, "issuer_url", "https://") {
                return Err(validation_error("OIDC issuer_url must use HTTPS"));
            }
            require_three(m, "OIDC ", "client_id", "client_secret", "redirect_url")?;
            if !config_begins(m, "redirect_url", "https://") {
                return Err(validation_error("OIDC redirect_url must use HTTPS"));
            }
            if !config_begins(m, "userinfo_url", "https://") {
                return Err(
                    validation_error(
                        "OIDC userinfo_url must use HTTPS and is required for profile and group claims",
                    ),
                );
            }
            Ok(())
        },
        ProviderKind::Ldap => {
            let start_tls = match member_text(m, "start_tls") {
                Some(value) => same_text(value.as_str(), "true"),
                None => false,
            };
            if !config_begins(m, "url", "ldaps://") && !(config_begins(m, "url", "ldap://")
                && start_tls) {
                return Err(validation_error("LDAP must use LDAPS or LDAP with start_tls=true"));
            }
            let often_enough = match sync_interval {
                Some(seconds) => seconds >= 60,
                None => false,
            };
            if !often_enough {
                return Err(validation_error("LDAP sync interval must be at least 60 seconds"));
            }
            require_three(m, "LDAP ", "bind_dn", "bind_password", "base_dn")
        },
    }
}

/// A provider to be written to the database.
pub struct NewProvider {
    pub id: Uuid,
    pub kind: ProviderKind,
    pub name: String,
    pub enabled: bool,
    pub priority: i64,
    pub trusted_create: bool,
    pub sync_interval_seconds: Option<i64>,
    pub config_envelope: Vec<u8>,
    pub audit: AuditEntry,
    pub details_json: String,
}

/// What is wrong with a provider to be created.
pub open spec fn create_provider_fault(request: CreateProviderRequest) -> Option<ErrorView> {
    or_fault(
        config_fault(request.kind, request.sync_interval_seconds, request.config@),
        unless(
            0 < trimmed(request.name@).len() && byte_count(trimmed(request.name@)) <= 128,
            validation("provider name must contain 1-128 characters"@),
        ),
    )
}

/// Whether a provider to be written is the one that was asked for. It is enabled, with a priority
/// in the middle.
pub open spec fn is_new_provider(
    p: NewProvider,
    key: Seq<u8>,
    id: Uuid,
    request: CreateProviderRequest,
) -> bool {
    &&& p.id == id
    &&& p.kind == request.kind
    &&& p.name@ == trimmed(request.name@)
    &&& p.enabled
    &&& p.priority == 100
    &&& p.trusted_create == request.trusted_create
    &&& (match (p.sync_interval_seconds, request.sync_interval_seconds) {
        (Some(a), Some(b)) => a == b,
        (None, None) => true,
        _ => false,
    })
    &&& is_envelope(
        key,
        provider_context_of(id),
        encode_utf8(request.config@),
        p.config_envelope@,
    )
    &&& p.audit.says(
        None,
        "system"@,
        "identity.provider.create"@,
        "identity_provider"@,
        Some(id),
        "success"@,
    )
    &&& p.details_json@ == "{\"kind\":"@ + json_quoted(request.kind.name()) + ",\"name\":"@
        + json_quoted(trimmed(request.name@)) + "}"@
}

/// The provider that a request asks for. Its configuration is sealed.
pub fn create_provider(secrets: &SecretBox, id: Uuid, request: &CreateProviderRequest) -> (r: Result<
    NewProvider,
    ApiError,
>)
    ensures
        match or_fault(create_provider_fault(*request), seal_fault(request.config@)) {
            Some(e) => r matches Err(f) && f@ == e,
            None => r matches Ok(p) && is_new_provider(p, secrets.master_key(), id, *request),
        },
{
    validate_provider_config(request.kind, request.sync_interval_seconds, request.config.as_str())?;
    let name = trim(request.name.as_str());
    if chars_of(name.as_str()).len() == 0 || byte_len(name.as_str()) > 128 {
        return Err(validation_error("provider name must contain 1-128 characters"));
    }
    let owner = provider_context(id);
    let config_envelope = seal_text(secrets, owner.as_str(), request.config.as_str())?;
    let details_json = String::from_str("{\"kind\":").concat(
        json_string(request.kind.as_str()).as_str(),
    ).concat(",\"name\":").concat(json_string(name.as_str()).as_str()).concat("}");
    Ok(
        NewProvider {
            id,
            kind: request.kind,
            name,
            enabled: true,
            priority: 100,
            trusted_create: request.trusted_create,
            sync_interval_seconds: match request.sync_interval_seconds {
                Some(seconds) => Some(seconds as i64),
                None => None,
            },
            config_envelope,
            audit: success(None, "system", "identity.provider.create", "identity_provider", Some(id)),
            details_json,
        },
    )
}

/// The sort of a provider by its name.
pub open spec fn kind_named(s: Seq<char>) -> Option<ProviderKind> {
    if s == "oidc"@ {
        Some(ProviderKind::Oidc)
    } else if s == "ldap"@ {
        Some(ProviderKind::Ldap)
    } else {
        None
    }
}

/// The sort of a provider by its name.
pub fn parse_kind(value: &str) -> (r: Result<ProviderKind, ApiError>)
    ensures
        match kind_named(value@) {
            Some(kind) => r == Ok::<ProviderKind, ApiError>(kind),
            None => r matches Err(e) && e@ == internal("invalid provider kind"@),
        },
{
    proof {
        reveal_strlit("oidc");
        reveal_strlit("ldap");
    }
    if same_text(value, "oidc") {
        Ok(ProviderKind::Oidc)
    } else if same_text(value, "ldap") {
        Ok(ProviderKind::Ldap)
    } else {
        Err(internal_error("invalid provider kind"))
    }
}

/// A provider in the database.
pub struct ProviderRow {
    pub id: String,
    pub kind: String,
    pub name: String,
    pub enabled: bool,
    pub trusted_create: bool,
    pub sync_interval_seconds: Option<i64>,
    pub last_successful_sync_at: Option<String>,
}

/// What is wrong with a provider in the database.
pub open spec fn provider_row_fault(row: ProviderRow) -> Option<ErrorView> {
    or_fault(
        named_id_fault(row.id@, "identity provider"@),
        unless(kind_named(row.kind@) is Some, internal("invalid provider kind"@)),
    )
}

/// The interval of a row, cut down to 32 bits.
pub open spec fn interval_of(seconds: Option<i64>) -> Option<u32> {
    match seconds {
        Some(s) => Some(s as u32),
        None => None,
    }
}

/// Whether a response tells of a provider in the database.
pub open spec fn tells_provider(p: ProviderResponse, row: ProviderRow) -> bool {
    &&& uuid_parsed(row.id@) == Ok::<Uuid, Seq<char>>(p.id)
    &&& kind_named(row.kind@) == Some(p.kind)
    &&& p.name@ == row.name@
    &&& p.enabled == row.enabled
    &&& p.trusted_create == row.trusted_create
    &&& p.sync_interval_seconds == interval_of(row.sync_interval_seconds)
    &&& opt_text(p.last_successful_sync_at) == opt_text(row.last_successful_sync_at)
}

/// What is told of a provider.
pub fn provider_from_row(row: &ProviderRow) -> (r: Result<ProviderResponse, ApiError>)
    ensures
        match r {
            Ok(p) => provider_row_fault(*row) is None && tells_provider(p, *row),
            Err(e) => provider_row_fault(*row) == Some(e@),
        },
{
    let id = named_id(row.id.as_str(), "identity provider")?;
    let kind = parse_kind(row.kind.as_str())?;
    Ok(
        ProviderResponse {
            id,
            kind,
            name: copy_text(&row.name),
            enabled: row.enabled,
            trusted_create: row.trusted_create,
            sync_interval_seconds: match row.sync_interval_seconds {
                Some(seconds) => Some(#[verifier::truncate] (seconds as u32)),
                None => None,
            },
            last_successful_sync_at: copy_option(&row.last_successful_sync_at),
        },
    )
}

/// What is told of the provider with an id.
pub fn get_provider(row: &Option<ProviderRow>) -> (r: Result<ProviderResponse, ApiError>)
    ensures
        match *row {
            None => r matches Err(e) && e@ == not_found("identity provider does not exist"@),
            Some(found) => match r {
                Ok(p) => provider_row_fault(found) is None && tells_provider(p, found),
                Err(e) => provider_row_fault(found) == Some(e@),
            },
        },
{
    match row {
        None => Err(not_found_error("identity provider does not exist")),
        Some(found) => provider_from_row(found),
    }
}

/// What the login page is told of a provider.
pub fn login_provider(id: &str, kind: &str, name: &str) -> (r: Result<
    LoginProviderResponse,
    ApiError,
>)
    ensures
        match or_fault(
            plain_id_fault(id@),
            unless(kind_named(kind@) is Some, internal("invalid provider kind"@)),
        ) {
            None => {
                &&& r matches Ok(p)
                &&& uuid_parsed(id@) == Ok::<Uuid, Seq<char>>(p.id)
                &&& kind_named(kind@) == Some(p.kind)
                &&& p.name@ == name@
            },
            Some(e) => r matches Err(f) && f@ == e,
        },
{
    let parsed = plain_id(id)?;
    let kind = parse_kind(kind)?;
    Ok(LoginProviderResponse { id: parsed, kind, name: name.to_owned() })
}

/// Lets a change pass that found the provider to be changed.
pub fn provider_changed(rows_affected: u64) -> (r: Result<(), ApiError>)
    ensures
        checks(r, unless(rows_affected != 0, not_found("identity provider does not exist"@))),
{
    if rows_affected == 0 {
        Err(not_found_error("identity provider does not exist"))
    } else {
        Ok(())
    }
}

/// What is written down when a provider is enabled or disabled.
pub fn enabled_audit(id: Uuid, enabled: bool) -> (r: (AuditEntry, String))
    ensures
        r.0.says(
            None,
            "system"@,
            "identity.provider.enabled"@,
            "identity_provider"@,
            Some(id),
            "success"@,
        ),
        r.1@ == "{\"enabled\":"@ + bool_json(enabled) + "}"@,
{
    let value = if enabled {
        "true"
    } else {
        "false"
    };
    (
        success(None, "system", "identity.provider.enabled", "identity_provider", Some(id)),
        String::from_str("{\"enabled\":").concat(value).concat("}"),
    )
}

/// The names of groups in their normal form.
pub open spec fn normal_groups(groups: Seq<Seq<char>>) -> Seq<Seq<char>> {
    groups.map_values(|g: Seq<char>| normalized(g))
}

/// What is wrong with the names of groups: one of them is empty.
pub open spec fn groups_fault(groups: Seq<Seq<char>>) -> Option<ErrorView> {
    unless(
        forall|i: int| 0 <= i < groups.len() ==> normalized(#[trigger] groups[i]).len() > 0,
        validation(IdentityError::EmptyGroup.text()),
    )
}

/// The names of groups in their normal form, in order and each once.
pub fn normalize_groups(groups: &[String]) -> (r: Result<Vec<String>, ApiError>)
    ensures
        match r {
            Ok(v) => groups_fault(texts(groups@)) is None && texts(v@) == sorted_unique(
                normal_groups(texts(groups@)),
            ),
            Err(e) => groups_fault(texts(groups@)) == Some(e@),
        },
{
    let ghost all = texts(groups@);
    let ghost goal = normal_groups(all);
    let mut out: Vec<String> = Vec::new();
    let mut i: usize = 0;
    assert(texts(out@) =~= goal.take(0));
    while i < groups.len()
        invariant
            i <= groups@.len(),
            all == texts(groups@),
            goal == normal_groups(all),
            texts(out@) =~= goal.take(i as int),
            forall|k: int| 0 <= k < i ==> normalized(#[trigger] all[k]).len() > 0,
        decreases groups@.len() - i,
    {
        assert(all[i as int] == groups@[i as int]@);
        match normalize_group_name(groups[i].as_str()) {
            Ok(name) => {
                push_text(&mut out, name);
                assert(goal.take(i + 1) =~= goal.take(i as int).push(goal[i as int]));
            },
            Err(error) => {
                return Err(identity_error(&error));
            },
        }
        i = i + 1;
    }
    assert(goal.take(i as int) =~= goal);
    sort_unique_texts(&mut out);
    Ok(out)
}

/// What is wrong with an entry of a directory, given the entries before it.
pub open spec fn entry_fault(
    entry: LdapSnapshotEntry,
    earlier: Seq<LdapSnapshotEntry>,
) -> Option<ErrorView> {
    if trimmed(entry.external_id@).len() == 0 || (exists|k: int|
        0 <= k < earlier.len() && trimmed((#[trigger] earlier[k]).external_id@) == trimmed(
            entry.external_id@,
        )) {
        Some(validation("LDAP immutable IDs must be non-empty and unique"@))
    } else if !is_email(normalized(entry.email@)) {
        Some(validation(IdentityError::InvalidEmail.text()))
    } else if trimmed(entry.name@).len() == 0 {
        Some(validation("LDAP user name is required"@))
    } else {
        groups_fault(texts(entry.groups@))
    }
}

/// What is wrong with the first entry that something is wrong with.
pub open spec fn first_entry_fault(entries: Seq<LdapSnapshotEntry>) -> Option<ErrorView>
    decreases entries.len(),
{
    if entries.len() == 0 {
        None
    } else {
        or_fault(
            first_entry_fault(entries.drop_last()),
            entry_fault(entries.last(), entries.drop_last()),
        )
    }
}

/// What is wrong with the entries of a directory.
pub open spec fn entries_fault(entries: Seq<LdapSnapshotEntry>) -> Option<ErrorView> {
    if entries.len() > 10000 {
        Some(validation("LDAP snapshot is too large"@))
    } else {
        first_entry_fault(entries)
    }
}

/// Whether an entry is another one in its normal form.
pub open spec fn is_normal_entry(n: LdapSnapshotEntry, e: LdapSnapshotEntry) -> bool {
    &&& n.external_id@ == trimmed(e.external_id@)
    &&& n.email@ == normalized(e.email@)
    &&& n.name@ == e.name@
    &&& n.title@ == e.title@
    &&& texts(n.groups@) == sorted_unique(normal_groups(texts(e.groups@)))
    &&& n.active == e.active
}

fn normal_entry(entries: &[LdapSnapshotEntry], at: usize, earlier: &[LdapSnapshotEntry]) -> (r:
    Result<LdapSnapshotEntry, ApiError>)
    requires
        at < entries@.len(),
        earlier@.len() == at,
        forall|k: int|
            0 <= k < at ==> (#[trigger] earlier@[k]).external_id@ == trimmed(
                entries@[k].external_id@,
            ),
    ensures
        match r {
            Ok(n) => is_normal_entry(n, entries@[at as int]) && entry_fault(
                entries@[at as int],
                entries@.take(at as int),
            ) is None,
            Err(e) => entry_fault(entries@[at as int], entries@.take(at as int)) == Some(e@),
        },
{
    let entry = &entries[at];
    let external_id = trim(entry.external_id.as_str());
    let mut repeated = false;
    let mut i: usize = 0;
    while i < earlier.len()
        invariant
            i <= earlier@.len(),
            repeated == (exists|k: int|
                0 <= k < i && (#[trigger] earlier@[k]).external_id@ == external_id@),
        decreases earlier@.len() - i,
    {
        if same_text(earlier[i].external_id.as_str(), external_id.as_str()) {
            assert(earlier@[i as int].external_id@ == external_id@);
            repeated = true;
        }
        i = i + 1;
    }
    proof {
        let before = entries@.take(at as int);
        if repeated {
            let k = choose|k: int|
                0 <= k < i && (#[trigger] earlier@[k]).external_id@ == external_id@;
            assert(trimmed(before[k].external_id@) == trimmed(entry.external_id@));
        } else {
            assert forall|k: int| 0 <= k < before.len() implies trimmed(
                (#[trigger] before[k]).external_id@,
            ) != trimmed(entry.external_id@) by {
                assert(earlier@[k].external_id@ == trimmed(entries@[k].external_id@));
            }
        }
    }
    if chars_of(external_id.as_str()).len() == 0 || repeated {
        return Err(validation_error("LDAP immutable IDs must be non-empty and unique"));
    }
    let email = match normalize_email(entry.email.as_str()) {
        Ok(email) => email,
        Err(error) => return Err(identity_error(&error)),
    };
    let name = trim(entry.name.as_str());
    if chars_of(name.as_str()).len() == 0 {
        return Err(validation_error("LDAP user name is required"));
    }
    let groups = normalize_groups(entry.groups.as_slice())?;
    Ok(
        LdapSnapshotEntry {
            external_id,
            email,
            name: copy_text(&entry.name),
            title: copy_text(&entry.title),
            groups,
            active: entry.active,
        },
    )
}

proof fn lemma_later_faults(entries: Seq<LdapSnapshotEntry>, i: int)
    requires
        0 <= i <= entries.len(),
        first_entry_fault(entries.take(i)) is Some,
    ensures
        first_entry_fault(entries) == first_entry_fault(entries.take(i)),
    decreases entries.len(),
{
    if i == entries.len() {
        assert(entries.take(i) =~= entries);
    } else {
        assert(entries.drop_last().take(i) =~= entries.take(i));
        lemma_later_faults(entries.drop_last(), i);
    }
}

/// The entries of a directory in their normal form.
pub fn validate_ldap_entries(entries: &[LdapSnapshotEntry]) -> (r: Result<
    Vec<LdapSnapshotEntry>,
    ApiError,
>)
    ensures
        match r {
            Ok(v) => {
                &&& entries_fault(entries@) is None
                &&& v@.len() == entries@.len()
                &&& forall|i: int|
                    0 <= i < v@.len() ==> is_normal_entry(#[trigger] v@[i], entries@[i])
            },
            Err(e) => entries_fault(entries@) == Some(e@),
        },
{
    if entries.len() > 10000 {
        return Err(validation_error("LDAP snapshot is too large"));
    }
    let mut out: Vec<LdapSnapshotEntry> = Vec::new();
    let mut i: usize = 0;
    while i < entries.len()
        invariant
            i <= entries@.len() <= 10000,
            out@.len() == i,
            forall|k: int| 0 <= k < i ==> is_normal_entry(#[trigger] out@[k], entries@[k]),
            first_entry_fault(entries@.take(i as int)) is None,
        decreases entries@.len() - i,
    {
        let ghost before = entries@.take(i as int);
        let ghost next = entries@.take(i + 1);
        proof {
            assert(next.drop_last() =~= before);
            assert(next.last() == entries@[i as int]);
            assert forall|k: int| 0 <= k < i implies (#[trigger] out@[k]).external_id@ == trimmed(
                entries@[k].external_id@,
            ) by {
                assert(is_normal_entry(out@[k], entries@[k]));
            }
        }
        match normal_entry(entries, i, out.as_slice()) {
            Ok(entry) => {
                out.push(entry);
            },
            Err(e) => {
                proof {
                    lemma_later_faults(entries@, i + 1);
                }
                return Err(e);
            },
        }
        i = i + 1;
    }
    assert(entries@.take(i as int) =~= entries@);
    Ok(out)
}

/// How a synchronisation is written down when it begins.
pub struct SyncRun {
    pub status: &'static str,
    pub error_message: Option<&'static str>,
}

/// How a synchronisation is written down when it begins: one with partial results ends at once,
/// and one with another provider than a directory does not begin.
pub fn begin_sync(kind: ProviderKind, complete: bool) -> (r: Result<SyncRun, ApiError>)
    ensures
        match r {
            Ok(run) => {
                &&& kind == ProviderKind::Ldap
                &&& run.status@ == (if complete {
                    "running"@
                } else {
                    "partial"@
                })
                &&& match run.error_message {
                    Some(m) => !complete && m@ == "partial LDAP results were discarded"@,
                    None => complete,
                }
            },
            Err(e) => kind != ProviderKind::Ldap && e@ == validation("provider is not LDAP"@),
        },
{
    match kind {
        ProviderKind::Oidc => Err(validation_error("provider is not LDAP")),
        ProviderKind::Ldap => Ok(
            if complete {
                SyncRun { status: "running", error_message: None }
            } else {
                SyncRun {
                    status: "partial",
                    error_message: Some("partial LDAP results were discarded"),
                }
            },
        ),
    }
}

/// Why a directory is not taken over.
pub open spec fn snapshot_fault(kind: ProviderKind, snapshot: LdapSyncSnapshot) -> Option<ErrorView> {
    if kind != ProviderKind::Ldap {
        Some(validation("provider is not LDAP"@))
    } else if !snapshot.complete {
        Some(validation("LDAP sync was partial; existing identity state was preserved"@))
    } else {
        entries_fault(snapshot.entries@)
    }
}

/// The entries of a directory that are taken over: all of a complete snapshot, or none.
pub fn apply_ldap_snapshot(kind: ProviderKind, snapshot: &LdapSyncSnapshot) -> (r: Result<
    Vec<LdapSnapshotEntry>,
    ApiError,
>)
    ensures
        match r {
            Ok(v) => {
                &&& snapshot_fault(kind, *snapshot) is None
                &&& v@.len() == snapshot.entries@.len()
                &&& forall|i: int|
                    0 <= i < v@.len() ==> is_normal_entry(#[trigger] v@[i], snapshot.entries@[i])
            },
            Err(e) => snapshot_fault(kind, *snapshot) == Some(e@),
        },
{
    match kind {
        ProviderKind::Oidc => Err(validation_error("provider is not LDAP")),
        ProviderKind::Ldap => {
            if !snapshot.complete {
                return Err(
                    validation_error(
                        "LDAP sync was partial; existing identity state was preserved",
                    ),
                );
            }
            validate_ldap_entries(snapshot.entries.as_slice())
        },
    }
}

/// How a synchronisation is written down when it has ended.
pub struct SyncEnd {
    pub status: &'static str,
    pub audit: AuditEntry,
    pub details_json: String,
}

/// How a synchronisation that succeeded is written down.
pub fn finish_sync(provider_id: Uuid, run_id: Uuid) -> (r: SyncEnd)
    ensures
        r.status@ == "success"@,
        r.audit.says(
            None,
            "system"@,
            "identity.ldap.sync"@,
            "identity_provider"@,
            Some(provider_id),
            "success"@,
        ),
        r.details_json@ == "{\"run_id\":"@ + json_quoted(uuid_text(run_id)) + "}"@,
{
    SyncEnd {
        status: "success",
        audit: success(None, "system", "identity.ldap.sync", "identity_provider", Some(provider_id)),
        details_json: String::from_str("{\"run_id\":").concat(
            json_string(uuid_to_text(run_id).as_str()).as_str(),
        ).concat("}"),
    }
}

/// What is written down when a person was let in by the claims of a provider.
pub fn oidc_audit(user_id: Uuid, provider_id: Uuid) -> (r: (AuditEntry, String))
    ensures
        r.0.says(None, "system"@, "auth.login.oidc"@, "user"@, Some(user_id), "success"@),
        r.1@ == "{\"provider_id\":"@ + json_quoted(uuid_text(provider_id)) + "}"@,
{
    (
        success(None, "system", "auth.login.oidc", "user", Some(user_id)),
        String::from_str("{\"provider_id\":").concat(
            json_string(uuid_to_text(provider_id).as_str()).as_str(),
        ).concat("}"),
    )
}

/// A person of a provider in the database.
pub struct LinkRow {
    pub user_id: Uuid,
    pub provider_id: Uuid,
    pub external_id: String,
    pub active: bool,
}

/// Whether a directory lists a person as active.
pub open spec fn listed_active(entries: Seq<LdapSnapshotEntry>, external_id: Seq<char>) -> bool {
    exists|i: int|
        0 <= i < entries.len() && (#[trigger] entries[i]).external_id@ == external_id
            && entries[i].active
}

/// Whether a person of a provider is active after the directory of a provider was taken over:
/// those of other providers stay as they are, those whom the directory does not list as active
/// become inactive.
pub open spec fn active_after(
    row: LinkRow,
    provider_id: Uuid,
    entries: Seq<LdapSnapshotEntry>,
) -> bool {
    if row.provider_id == provider_id {
        listed_active(entries, row.external_id@)
    } else {
        row.active
    }
}

/// Which persons are active after the directory of a provider was taken over.
pub fn sync_activity(rows: &[LinkRow], provider_id: Uuid, entries: &[LdapSnapshotEntry]) -> (r: Vec<
    bool,
>)
    ensures
        r@.len() == rows@.len(),
        forall|i: int|
            0 <= i < rows@.len() ==> #[trigger] r@[i] == active_after(
                rows@[i],
                provider_id,
                entries@,
            ),
{
    let mut out: Vec<bool> = Vec::new();
    let mut i: usize = 0;
    while i < rows.len()
        invariant
            i <= rows@.len(),
            out@.len() == i,
            forall|k: int|
                0 <= k < i ==> #[trigger] out@[k] == active_after(rows@[k], provider_id, entries@),
        decreases rows@.len() - i,
    {
        let active = if rows[i].provider_id == provider_id {
            is_listed_active(entries, rows[i].external_id.as_str())
        } else {
            rows[i].active
        };
        out.push(active);
        i = i + 1;
    }
    out
}

fn is_listed_active(entries: &[LdapSnapshotEntry], external_id: &str) -> (r: bool)
    ensures
        r == listed_active(entries@, external_id@),
{
    let mut j: usize = 0;
    while j < entries.len()
        invariant
            j <= entries@.len(),
            forall|k: int|
                0 <= k < j ==> !((#[trigger] entries@[k]).external_id@ == external_id@
                    && entries@[k].active),
        decreases entries@.len() - j,
    {
        if same_text(entries[j].external_id.as_str(), external_id) && entries[j].active {
            assert(entries@[j as int].external_id@ == external_id@);
            return true;
        }
        j = j + 1;
    }
    false
}

/// Taking over the directory of one provider changes nobody of another provider.
pub proof fn law_sync_leaves_other_providers(
    row: LinkRow,
    provider_id: Uuid,
    entries: Seq<LdapSnapshotEntry>,
)
    requires
        row.provider_id != provider_id,
    ensures
        active_after(row, provider_id, entries) == row.active,
{
}

/// Taking over an empty directory makes everybody of its provider inactive.
pub proof fn law_empty_directory_deactivates(row: LinkRow, provider_id: Uuid)
    requires
        row.provider_id == provider_id,
    ensures
        !active_after(row, provider_id, Seq::empty()),
{
}

/// Taking over the same directory again changes nothing.
pub proof fn law_sync_is_idempotent(
    row: LinkRow,
    provider_id: Uuid,
    entries: Seq<LdapSnapshotEntry>,
)
    ensures
        active_after(
            (LinkRow { active: active_after(row, provider_id, entries), ..row }),
            provider_id,
            entries,
        ) == active_after(row, provider_id, entries),
{
}

/// What a provider says of a person as a JSON object.
pub open spec fn attributes_of(name: Seq<char>, title: Seq<char>) -> Seq<char> {
    "{\"name\":"@ + json_quoted(name) + ",\"title\":"@ + json_quoted(title) + "}"@
}

/// What a provider says of a person as a JSON object.
pub fn attributes_json(name: &str, title: &str) -> (r: String)
    ensures
        r@ == attributes_of(name@, title@),
{
    String::from_str("{\"name\":").concat(json_string(name).as_str()).concat(",\"title\":").concat(
        json_string(title).as_str(),
    ).concat("}")
}

/// A user with an address in the database.
pub struct EmailRow {
    pub id: String,
    pub soft_deleted_at: Option<String>,
}

/// How a person of a provider becomes a user.
pub enum LinkStep {
    /// The person is known.
    Known { user_id: Uuid },
    /// The person is linked to a user with the same address.
    Link { user_id: Uuid, email: String },
    /// A user is created.
    Create { user_id: Uuid, email: String, name: String, title: String },
}

/// Why a person of a provider does not become a user.
pub open spec fn link_fault(
    known: Option<Seq<char>>,
    email: Seq<char>,
    user: Option<EmailRow>,
    name: Seq<char>,
    may_create: bool,
) -> Option<ErrorView> {
    match known {
        Some(id) => named_id_fault(id, "user"@),
        None => if !is_email(normalized(email)) {
            Some(validation(IdentityError::InvalidEmail.text()))
        } else {
            match user {
                Some(u) => if u.soft_deleted_at is Some {
                    Some(conflict("email belongs to a soft-deleted user"@))
                } else {
                    named_id_fault(u.id@, "user"@)
                },
                None => if !may_create {
                    Some(forbidden("provider is link-only and no user has this email"@))
                } else {
                    unless(
                        trimmed(name).len() > 0,
                        validation("identity name is required"@),
                    )
                },
            }
        },
    }
}

/// Whether a step makes a user of a person as it should.
pub open spec fn is_link_step(
    step: LinkStep,
    known: Option<Seq<char>>,
    email: Seq<char>,
    user: Option<EmailRow>,
    name: Seq<char>,
    title: Seq<char>,
    new_id: Uuid,
) -> bool {
    match known {
        Some(id) => step matches LinkStep::Known { user_id } && uuid_parsed(id) == Ok::<
            Uuid,
            Seq<char>,
        >(user_id),
        None => match user {
            Some(u) => step matches LinkStep::Link { user_id, email: e } && uuid_parsed(u.id@)
                == Ok::<Uuid, Seq<char>>(user_id) && e@ == normalized(email),
            None => step matches LinkStep::Create { user_id, email: e, name: n, title: t }
                && user_id == new_id && e@ == normalized(email) && n@ == trimmed(name) && t@
                == trimmed(title),
        },
    }
}

/// How a person of a provider becomes a user: a known person stays who it was, another one is
/// linked to the user with its address, and only a provider that may do so creates users.
pub fn link_or_create_user(
    known: Option<&str>,
    email: &str,
    user: &Option<EmailRow>,
    name: &str,
    title: &str,
    may_create: bool,
    new_id: Uuid,
) -> (r: Result<LinkStep, ApiError>)
    ensures
        match r {
            Ok(step) => {
                &&& link_fault(opt_str(known), email@, *user, name@, may_create) is None
                &&& is_link_step(step, opt_str(known), email@, *user, name@, title@, new_id)
            },
            Err(e) => link_fault(opt_str(known), email@, *user, name@, may_create) == Some(e@),
        },
{
    if let Some(id) = known {
        let user_id = named_id(id, "user")?;
        return Ok(LinkStep::Known { user_id });
    }
    let normal = match normalize_email(email) {
        Ok(e) => e,
        Err(error) => return Err(identity_error(&error)),
    };
    match user {
        Some(u) => {
            if u.soft_deleted_at.is_some() {
                return Err(conflict_error("email belongs to a soft-deleted user"));
            }
            let user_id = named_id(u.id.as_str(), "user")?;
            Ok(LinkStep::Link { user_id, email: normal })
        },
        None => {
            if !may_create {
                return Err(forbidden_error("provider is link-only and no user has this email"));
            }
            let short = trim(name);
            if chars_of(short.as_str()).len() == 0 {
                return Err(validation_error("identity name is required"));
            }
            Ok(
                LinkStep::Create {
                    user_id: new_id,
                    email: normal,
                    name: short,
                    title: trim(title),
                },
            )
        },
    }
}

/// What a group with a name is: one that exists, or one to be created.
pub enum GroupStep {
    Known { id: Uuid },
    Create { id: Uuid, normalized_name: String, display_name: String },
}

/// Why a group with a name cannot be used.
pub open spec fn group_fault(name: Seq<char>, known: Option<Seq<char>>) -> Option<ErrorView> {
    if normalized(name).len() == 0 {
        Some(validation(IdentityError::EmptyGroup.text()))
    } else {
        match known {
            Some(id) => named_id_fault(id, "group"@),
            None => None,
        }
    }
}

/// Whether a step finds or makes a group as it should.
pub open spec fn is_group_step(
    step: GroupStep,
    name: Seq<char>,
    known: Option<Seq<char>>,
    new_id: Uuid,
) -> bool {
    match known {
        Some(s) => step matches GroupStep::Known { id } && uuid_parsed(s) == Ok::<Uuid, Seq<char>>(
            id,
        ),
        None => step matches GroupStep::Create { id, normalized_name, display_name } && id
            == new_id && normalized_name@ == normalized(name) && display_name@ == trimmed(name),
    }
}

/// The group with a name, which is created where it does not exist.
pub fn upsert_group(name: &str, known: Option<&str>, new_id: Uuid) -> (r: Result<GroupStep, ApiError>)
    ensures
        match r {
            Ok(step) => group_fault(name@, opt_str(known)) is None && is_group_step(
                step,
                name@,
                opt_str(known),
                new_id,
            ),
            Err(e) => group_fault(name@, opt_str(known)) == Some(e@),
        },
{
    let normalized_name = match normalize_group_name(name) {
        Ok(n) => n,
        Err(error) => return Err(identity_error(&error)),
    };
    match known {
        Some(s) => {
            let id = named_id(s, "group")?;
            Ok(GroupStep::Known { id })
        },
        None => Ok(
            GroupStep::Create { id: new_id, normalized_name, display_name: trim(name) },
        ),
    }
}

/// What verified claims say of a person.
pub struct OidcPlan {
    pub subject: String,
    pub email: String,
    pub groups: Vec<String>,
}

/// Why claims are refused that do not depend on the provider.
pub open spec fn claims_fault(claims: OidcClaims) -> Option<ErrorView> {
    if !claims.email_verified {
        Some(forbidden("OIDC provider did not verify the email claim"@))
    } else if trimmed(claims.subject@).len() == 0 {
        Some(validation("OIDC subject is required"@))
    } else {
        None
    }
}

/// Why claims are refused.
pub open spec fn oidc_fault(claims: OidcClaims, kind: ProviderKind, enabled: bool) -> Option<
    ErrorView,
> {
    if claims_fault(claims) is Some {
        claims_fault(claims)
    } else if kind != ProviderKind::Oidc || !enabled {
        Some(forbidden("OIDC provider is not enabled"@))
    } else if !is_email(normalized(claims.email@)) {
        Some(validation(IdentityError::InvalidEmail.text()))
    } else {
        groups_fault(texts(claims.groups@))
    }
}

/// What claims say of a person, after the provider was found to have made them. Only a provider
/// that verified the address is believed.
pub fn apply_verified_oidc_claims(claims: &OidcClaims, kind: ProviderKind, enabled: bool) -> (r:
    Result<OidcPlan, ApiError>)
    ensures
        match r {
            Ok(p) => {
                &&& oidc_fault(*claims, kind, enabled) is None
                &&& p.subject@ == trimmed(claims.subject@)
                &&& p.email@ == normalized(claims.email@)
                &&& texts(p.groups@) == sorted_unique(normal_groups(texts(claims.groups@)))
            },
            Err(e) => oidc_fault(*claims, kind, enabled) == Some(e@),
        },
{
    if !claims.email_verified {
        return Err(forbidden_error("OIDC provider did not verify the email claim"));
    }
    let subject = trim(claims.subject.as_str());
    if chars_of(subject.as_str()).len() == 0 {
        return Err(validation_error("OIDC subject is required"));
    }
    let usable = match kind {
        ProviderKind::Oidc => enabled,
        ProviderKind::Ldap => false,
    };
    if !usable {
        return Err(forbidden_error("OIDC provider is not enabled"));
    }
    let email = match normalize_email(claims.email.as_str()) {
        Ok(e) => e,
        Err(error) => return Err(identity_error(&error)),
    };
    let groups = normalize_groups(claims.groups.as_slice())?;
    Ok(OidcPlan { subject, email, groups })
}

/// An identity of a user in a directory, as the database has it.
pub struct LdapLinkRow {
    pub user_id: String,
    pub active: bool,
    pub provider_enabled: bool,
}

/// Whether a row is about a user.
pub open spec fn links(row: LdapLinkRow, user: Seq<char>) -> bool {
    row.user_id@ == user
}

/// Whether directories keep a user out: some know of it, and none that is enabled has it as
/// active.
pub open spec fn kept_out(rows: Seq<LdapLinkRow>, user: Seq<char>) -> bool {
    &&& exists|i: int| 0 <= i < rows.len() && links(#[trigger] rows[i], user)
    &&& forall|i: int|
        0 <= i < rows.len() && links(#[trigger] rows[i], user) ==> !(rows[i].active
            && rows[i].provider_enabled)
}

/// The users whom directories keep out, as far as some of the rows tell of them, in the order of
/// the rows.
pub open spec fn kept_out_among(rows: Seq<LdapLinkRow>, n: nat) -> Seq<Seq<char>>
    decreases n,
{
    if n == 0 {
        Seq::empty()
    } else {
        let before = kept_out_among(rows, (n - 1) as nat);
        let user = rows[n - 1].user_id@;
        if kept_out(rows, user) && !before.contains(user) {
            before.push(user)
        } else {
            before
        }
    }
}

/// Whether directories keep a user out of whom a row tells.
fn is_kept_out(rows: &[LdapLinkRow], user: &str) -> (r: bool)
    requires
        exists|i: int| 0 <= i < rows@.len() && links(#[trigger] rows@[i], user@),
    ensures
        r == kept_out(rows@, user@),
{
    let mut i: usize = 0;
    while i < rows.len()
        invariant
            i <= rows@.len(),
            forall|k: int|
                0 <= k < i && links(#[trigger] rows@[k], user@) ==> !(rows@[k].active
                    && rows@[k].provider_enabled),
        decreases rows@.len() - i,
    {
        let row = &rows[i];
        if row.active && row.provider_enabled && same_text(row.user_id.as_str(), user) {
            assert(links(rows@[i as int], user@));
            return false;
        }
        i = i + 1;
    }
    true
}

/// The users whom directories keep out, each once, in the order of the rows.
pub fn recompute_ldap_disablement(rows: &[LdapLinkRow]) -> (r: Vec<String>)
    ensures
        texts(r@) == kept_out_among(rows@, rows@.len()),
{
    let mut users: Vec<String> = Vec::new();
    let mut i: usize = 0;
    assert(texts(users@) =~= Seq::empty());
    while i < rows.len()
        invariant
            i <= rows@.len(),
            texts(users@) == kept_out_among(rows@, i as nat),
        decreases rows@.len() - i,
    {
        let user = &rows[i].user_id;
        assert(links(rows@[i as int], user@));
        if !holds_text(users.as_slice(), user.as_str()) && is_kept_out(rows, user.as_str()) {
            push_text(&mut users, copy_text(user));
        }
        i = i + 1;
    }
    users
}

/// Directories keep out those users, and only those, whom they know and whom none that is enabled
/// has as active; nobody is named twice.
pub proof fn law_directories_keep_out_without_live_identity(rows: Seq<LdapLinkRow>, user: Seq<char>)
    ensures
        kept_out_among(rows, rows.len()).contains(user) == kept_out(rows, user),
        kept_out_among(rows, rows.len()).no_duplicates(),
{
    lemma_kept_out_among(rows, rows.len(), user);
    if kept_out(rows, user) {
        let i = choose|i: int| 0 <= i < rows.len() && links(#[trigger] rows[i], user);
        assert(rows[i].user_id@ == user);
    }
}

proof fn lemma_kept_out_among(rows: Seq<LdapLinkRow>, n: nat, user: Seq<char>)
    requires
        n <= rows.len(),
    ensures
        kept_out_among(rows, n).contains(user) ==> kept_out(rows, user),
        forall|i: int|
            0 <= i < n && (#[trigger] rows[i]).user_id@ == user && kept_out(rows, user)
                ==> kept_out_among(rows, n).contains(user),
        kept_out_among(rows, n).no_duplicates(),
    decreases n,
{
    if n > 0 {
        let before = kept_out_among(rows, (n - 1) as nat);
        let all = kept_out_among(rows, n);
        lemma_kept_out_among(rows, (n - 1) as nat, user);
        if all.contains(user) && !before.contains(user) {
            assert(all.last() == user);
        }
        if before.contains(user) {
            let k = before.index_of(user);
            assert(all[k] == user);
        }
        if rows[n - 1].user_id@ == user && kept_out(rows, user) && !before.contains(user) {
            assert(all.last() == user);
        }
    }
}

} // verus!
