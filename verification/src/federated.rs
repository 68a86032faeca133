//! Signing in with directories and OpenID Connect, and what a directory says of people.

use vstd::prelude::*;
use vstd::string::*;
use vstd::utf8::encode_utf8;

use crate::auth::clock_fault;
use crate::crypto::{base64_encode, base64_text, sha256, sha256_digest, wipe_text};
use crate::error::{
    checks, forbidden, forbidden_error, identity_error, unauthorized,
    unauthorized_error, validation, validation_error, ApiError, ErrorView,
};
use crate::groups::{
    attribute_values, copy_texts, first_attribute, first_of, group_name_from_dn, listed, name_in_dn,
    normal_dn, normalize_dn, values_of, DirectoryEntry, GroupGraph,
};
use crate::identity::{is_email, normalize_email, normalized, IdentityError};
use crate::ids::{uuid_parsed, uuid_text, uuid_to_text, Uuid};
use crate::json::{
    array_items, json_items, json_members, json_quoted, json_string, json_unquoted, member_of,
    object_members, string_member, string_member_of, string_value,
};
use crate::lines::{holds_text, sort_unique_texts, sorted_unique};
use crate::mail::member_text;
use crate::models::{LdapSnapshotEntry, OidcClaims, ProviderKind};
use crate::rows::{or_fault, plain_id, plain_id_fault, unless};
use crate::secrets::{is_envelope, seal_fault, seal_text, SecretBox};
use crate::sort::in_order;
use crate::text::{
    ascii_lowered, chars_of, copy_text, is_text_no_later, opt_text, push_text, same_text,
    starts_with, text_no_later, texts, to_ascii_lowercase,
};
use crate::time::{later_text, parse_time, render_later, render_time, time_text, timestamp_in, Timestamp};

verus! {

/// How a directory is read.
pub struct LdapConfig {
    pub url: String,
    pub start_tls: bool,
    pub bind_dn: String,
    pub bind_password: String,
    pub base_dn: String,
    pub user_filter: String,
    pub id_attribute: String,
    pub email_attribute: String,
    pub name_attribute: String,
    pub title_attribute: String,
    pub group_attribute: String,
    pub group_base_dn: Option<String>,
    pub group_filter: String,
    pub group_name_attribute: String,
    pub group_member_attribute: String,
    pub nested_group_depth: u8,
    pub disabled_attribute: Option<String>,
    pub disabled_values: Vec<String>,
    pub page_size: u32,
}

/// How an OpenID Connect provider is used.
pub struct OidcConfig {
    pub issuer_url: String,
    pub client_id: String,
    pub client_secret: String,
    pub redirect_url: String,
    pub scopes: Vec<String>,
    pub userinfo_url: Option<String>,
    pub groups_claim: String,
    pub title_claim: String,
}

/// The people of a directory, unless its configuration says otherwise.
pub fn default_user_filter() -> (r: &'static str)
    ensures
        r@ == "(objectClass=person)"@,
{
    "(objectClass=person)"
}

/// The attribute that names a person for good, unless the configuration says otherwise.
pub fn default_id_attribute() -> (r: &'static str)
    ensures
        r@ == "entryUUID"@,
{
    "entryUUID"
}

/// The attribute with the address, unless the configuration says otherwise.
pub fn default_email_attribute() -> (r: &'static str)
    ensures
        r@ == "mail"@,
{
    "mail"
}

/// The attribute with the name, unless the configuration says otherwise.
pub fn default_name_attribute() -> (r: &'static str)
    ensures
        r@ == "displayName"@,
{
    "displayName"
}

/// The attribute with the title, unless the configuration says otherwise.
pub fn default_title_attribute() -> (r: &'static str)
    ensures
        r@ == "title"@,
{
    "title"
}

/// The attribute with the groups of a person, unless the configuration says otherwise.
pub fn default_group_attribute() -> (r: &'static str)
    ensures
        r@ == "memberOf"@,
{
    "memberOf"
}

/// The groups of a directory, unless its configuration says otherwise.
pub fn default_group_filter() -> (r: &'static str)
    ensures
        r@ == "(objectClass=groupOfNames)"@,
{
    "(objectClass=groupOfNames)"
}

/// The attribute with the name of a group, unless the configuration says otherwise.
pub fn default_group_name_attribute() -> (r: &'static str)
    ensures
        r@ == "cn"@,
{
    "cn"
}

/// The attribute with the members of a group, unless the configuration says otherwise.
pub fn default_group_member_attribute() -> (r: &'static str)
    ensures
        r@ == "member"@,
{
    "member"
}

/// How many entries are read at a time, unless the configuration says otherwise.
pub fn default_page_size() -> (r: u32)
    ensures
        r == 500,
{
    500
}

/// The claim with the groups, unless the configuration says otherwise.
pub fn default_groups_claim() -> (r: &'static str)
    ensures
        r@ == "groups"@,
{
    "groups"
}

/// The claim with the title, unless the configuration says otherwise.
pub fn default_title_claim() -> (r: &'static str)
    ensures
        r@ == "title"@,
{
    "title"
}

/// How a character of a literal is written in a filter.
pub open spec fn filter_char(c: char) -> Seq<char> {
    if c == '\\' {
        "\\5c"@
    } else if c == '*' {
        "\\2a"@
    } else if c == '(' {
        "\\28"@
    } else if c == ')' {
        "\\29"@
    } else if c == '\0' {
        "\\00"@
    } else {
        seq![c]
    }
}

/// How a literal is written in a filter.
pub open spec fn filter_literal(s: Seq<char>) -> Seq<char>
    decreases s.len(),
{
    if s.len() == 0 {
        s
    } else {
        filter_literal(s.drop_last()) + filter_char(s.last())
    }
}

/// Calls `ldap3::ldap_escape`: the backslash, the asterisk, the brackets and NUL are written as a
/// backslash and two hexadecimal digits, everything else as it is.
#[verifier::external_body]
fn escape_filter(s: &str) -> (r: String)
    ensures
        r@ == filter_literal(s@),
{
    ldap3::ldap_escape(s).into_owned()
}

/// The filter that finds the people with an address.
pub open spec fn person_filter_of(config: LdapConfig, email: Seq<char>) -> Seq<char> {
    "(&"@ + config.user_filter@ + "("@ + config.email_attribute@ + "="@ + filter_literal(email)
        + "))"@
}

/// The filter that finds the people with an address.
pub fn person_filter(config: &LdapConfig, email: &str) -> (r: String)
    ensures
        r@ == person_filter_of(*config, email@),
{
    String::from_str("(&").concat(config.user_filter.as_str()).concat("(").concat(
        config.email_attribute.as_str(),
    ).concat("=").concat(escape_filter(email).as_str()).concat("))")
}

/// Why a login with a directory is refused before the directory is looked up.
pub open spec fn ldap_credentials_fault(email: Seq<char>, password: Seq<char>) -> Option<ErrorView> {
    if password.len() == 0 {
        Some(unauthorized("email or password is incorrect"@))
    } else if !is_email(normalized(email)) {
        Some(validation(IdentityError::InvalidEmail.text()))
    } else {
        None
    }
}

/// Why a login with a directory is refused before the directory is asked.
pub open spec fn ldap_login_fault(
    email: Seq<char>,
    password: Seq<char>,
    kind: ProviderKind,
    enabled: bool,
) -> Option<ErrorView> {
    or_fault(
        ldap_credentials_fault(email, password),
        unless(enabled && kind == ProviderKind::Ldap, forbidden("LDAP realm is not enabled"@)),
    )
}

/// The address of the person who signs in, where it is one and there is a password.
pub fn check_ldap_credentials(email: &str, password: &str) -> (r: Result<String, ApiError>)
    ensures
        match r {
            Ok(normal) => ldap_credentials_fault(email@, password@) is None && normal@ == normalized(
                email@,
            ),
            Err(e) => ldap_credentials_fault(email@, password@) == Some(e@),
        },
{
    if chars_of(password).len() == 0 {
        return Err(unauthorized_error("email or password is incorrect"));
    }
    match normalize_email(email) {
        Ok(normal) => Ok(normal),
        Err(error) => Err(identity_error(&error)),
    }
}

/// The address with which a directory is asked for the person who signs in. A directory is never
/// asked with an empty password, which it would take for no password at all.
pub fn begin_ldap_login(email: &str, password: &str, kind: ProviderKind, enabled: bool) -> (r: Result<
    String,
    ApiError,
>)
    ensures
        match r {
            Ok(normal) => ldap_login_fault(email@, password@, kind, enabled) is None && normal@
                == normalized(email@),
            Err(e) => ldap_login_fault(email@, password@, kind, enabled) == Some(e@),
        },
{
    let normal = check_ldap_credentials(email, password)?;
    let usable = match kind {
        ProviderKind::Ldap => enabled,
        ProviderKind::Oidc => false,
    };
    if !usable {
        return Err(forbidden_error("LDAP realm is not enabled"));
    }
    Ok(normal)
}

/// Why the answer of a directory names nobody.
pub open spec fn ldap_answer_fault(config: LdapConfig, entries: Seq<DirectoryEntry>) -> Option<
    ErrorView,
> {
    if entries.len() != 1 {
        Some(unauthorized("email or password is incorrect"@))
    } else {
        unless(
            first_of(entries[0].attrs@, config.id_attribute@) is Some,
            forbidden("LDAP entry has no immutable identifier"@),
        )
    }
}

/// Who signs in, by the answer of the directory: it names one person, and that for good.
pub fn ldap_person(config: &LdapConfig, entries: &[DirectoryEntry]) -> (r: Result<String, ApiError>)
    ensures
        match r {
            Ok(id) => ldap_answer_fault(*config, entries@) is None && first_of(
                entries@[0].attrs@,
                config.id_attribute@,
            ) == Some(id@),
            Err(e) => ldap_answer_fault(*config, entries@) == Some(e@),
        },
{
    if entries.len() != 1 {
        return Err(unauthorized_error("email or password is incorrect"));
    }
    match first_attribute(&entries[0], config.id_attribute.as_str()) {
        Some(id) => Ok(id),
        None => Err(forbidden_error("LDAP entry has no immutable identifier")),
    }
}

/// A person of a directory in the database, and its user.
pub struct LdapIdentityRow {
    pub user_id: String,
    pub active: bool,
    pub provider_enabled: bool,
    pub manual_disabled: bool,
    pub ldap_disabled: bool,
    pub soft_deleted_at: Option<String>,
}

impl LdapIdentityRow {
    /// Whether the person may sign in.
    pub open spec fn live(self) -> bool {
        self.active && self.provider_enabled && !self.manual_disabled && !self.ldap_disabled
            && self.soft_deleted_at is None
    }
}

/// Why a person of a directory may not sign in.
pub open spec fn ldap_identity_fault(row: Option<LdapIdentityRow>) -> Option<ErrorView> {
    if row is None || !row->0.live() {
        Some(forbidden("LDAP identity is not active in the latest full sync"@))
    } else {
        plain_id_fault(row->0.user_id@)
    }
}

/// The user of a person of a directory who proved to know the password.
pub fn finish_ldap_login(row: &Option<LdapIdentityRow>) -> (r: Result<Uuid, ApiError>)
    ensures
        match r {
            Ok(id) => ldap_identity_fault(*row) is None && row is Some && uuid_parsed(
                row->0.user_id@,
            ) == Ok::<Uuid, Seq<char>>(id),
            Err(e) => ldap_identity_fault(*row) == Some(e@),
        },
{
    match row {
        Some(found) => {
            if found.active && found.provider_enabled && !found.manual_disabled
                && !found.ldap_disabled && found.soft_deleted_at.is_none() {
                plain_id(found.user_id.as_str())
            } else {
                Err(forbidden_error("LDAP identity is not active in the latest full sync"))
            }
        },
        None => Err(forbidden_error("LDAP identity is not active in the latest full sync")),
    }
}

/// Why a directory is not read.
pub open spec fn sync_fault(kind: ProviderKind, enabled: bool) -> Option<ErrorView> {
    unless(
        enabled && kind == ProviderKind::Ldap,
        validation("provider is not an enabled LDAP realm"@),
    )
}

/// Lets providers pass whose directory is to be read.
pub fn check_sync(kind: ProviderKind, enabled: bool) -> (r: Result<(), ApiError>)
    ensures
        checks(r, sync_fault(kind, enabled)),
{
    match kind {
        ProviderKind::Ldap if enabled => Ok(()),
        _ => Err(validation_error("provider is not an enabled LDAP realm")),
    }
}

/// What is wrong with the way in which a directory is read.
pub open spec fn sync_config_fault(config: LdapConfig) -> Option<ErrorView> {
    if config.page_size == 0 || config.page_size > 5000 {
        Some(validation("LDAP page_size must be between 1 and 5000"@))
    } else if config.nested_group_depth > 32 {
        Some(validation("LDAP nested_group_depth cannot exceed 32"@))
    } else {
        None
    }
}

/// Lets configurations pass with which a directory can be read.
pub fn check_sync_config(config: &LdapConfig) -> (r: Result<(), ApiError>)
    ensures
        checks(r, sync_config_fault(*config)),
{
    if config.page_size == 0 || config.page_size > 5000 {
        return Err(validation_error("LDAP page_size must be between 1 and 5000"));
    }
    if config.nested_group_depth > 32 {
        return Err(validation_error("LDAP nested_group_depth cannot exceed 32"));
    }
    Ok(())
}

/// Lets results of a search pass that are not too many.
pub fn check_result_size(entries: usize) -> (r: Result<(), ApiError>)
    ensures
        checks(r, unless(entries <= 100000, validation("LDAP result exceeds 100,000 entries"@))),
{
    if entries > 100000 {
        Err(validation_error("LDAP result exceeds 100,000 entries"))
    } else {
        Ok(())
    }
}

/// Whether a directory is to be read again: it was never read, or its interval has passed.
pub open spec fn sync_is_due(last: Option<Seq<char>>, interval: Option<i64>, now: Timestamp) -> bool {
    match interval {
        None => false,
        Some(seconds) => match last {
            None => true,
            Some(text) => match timestamp_in(text) {
                None => false,
                Some(at) => at.secs + seconds < now.secs || (at.secs + seconds == now.secs
                    && at.nanos <= now.nanos),
            },
        },
    }
}

/// Whether a directory is to be read again.
pub fn is_sync_due(last: &Option<String>, interval: Option<i64>, now: Timestamp) -> (r: bool)
    ensures
        r == sync_is_due(opt_text(*last), interval, now),
{
    match interval {
        None => false,
        Some(seconds) => match last {
            None => true,
            Some(text) => match parse_time(text.as_str()) {
                None => false,
                Some(at) => {
                    let due = at.secs as i128 + seconds as i128;
                    due < now.secs as i128 || (due == now.secs as i128 && at.nanos <= now.nanos)
                },
            },
        },
    }
}

/// What a group of a directory is called.
pub open spec fn group_name_of(config: LdapConfig, entry: DirectoryEntry) -> Option<Seq<char>> {
    match first_of(entry.attrs@, config.group_name_attribute@) {
        Some(name) => Some(name),
        None => name_in_dn(entry.dn@),
    }
}

/// Whether the groups of a directory say that an entry is a member of a group.
pub open spec fn listed_member(
    config: LdapConfig,
    entries: Seq<DirectoryEntry>,
    member: Seq<char>,
    group: Seq<char>,
) -> bool {
    exists|i: int, j: int|
        {
            &&& 0 <= i < entries.len()
            &&& 0 <= j < values_of(entries[i].attrs@, config.group_member_attribute@).len()
            &&& normal_dn(entries[i].dn@) == group
            &&& normal_dn(
                #[trigger] values_of(entries[i].attrs@, config.group_member_attribute@)[j],
            ) == member
        }
}

/// What the groups of a directory say that a group is called: the last one counts.
pub open spec fn listed_name(
    config: LdapConfig,
    entries: Seq<DirectoryEntry>,
    group: Seq<char>,
) -> Option<Seq<char>>
    decreases entries.len(),
{
    if entries.len() == 0 {
        None
    } else if normal_dn(entries.last().dn@) == group && group_name_of(config, entries.last()) is Some {
        group_name_of(config, entries.last())
    } else {
        listed_name(config, entries.drop_last(), group)
    }
}

/// Whether a graph holds what the groups of a directory say.
pub open spec fn is_graph_of(
    graph: GroupGraph,
    config: LdapConfig,
    entries: Seq<DirectoryEntry>,
) -> bool {
    &&& forall|m: Seq<char>, g: Seq<char>| #[trigger]
        graph.edge(m, g) == listed_member(config, entries, m, g)
    &&& forall|g: Seq<char>| #[trigger] graph.name_of(g) == listed_name(config, entries, g)
}

/// Which groups of a directory are in which, and what they are called.
pub fn build_group_graph(config: &LdapConfig, entries: &[DirectoryEntry]) -> (r: GroupGraph)
    ensures
        is_graph_of(r, *config, entries@),
{
    let mut graph = GroupGraph::empty();
    let mut i: usize = 0;
    while i < entries.len()
        invariant
            i <= entries@.len(),
            forall|m: Seq<char>, g: Seq<char>| #[trigger]
                graph.edge(m, g) == listed_member(*config, entries@.take(i as int), m, g),
            forall|g: Seq<char>| #[trigger]
                graph.name_of(g) == listed_name(*config, entries@.take(i as int), g),
        decreases entries@.len() - i,
    {
        let ghost before = entries@.take(i as int);
        let ghost next = entries@.take(i + 1);
        let ghost known = graph;
        proof {
            assert(next.drop_last() =~= before);
            assert(next.last() == entries@[i as int]);
        }
        let entry = &entries[i];
        let dn = normalize_dn(entry.dn.as_str());
        let name = match first_attribute(entry, config.group_name_attribute.as_str()) {
            Some(n) => Some(n),
            None => group_name_from_dn(entry.dn.as_str()),
        };
        if let Some(n) = name {
            graph.set_name(copy_text(&dn), n);
        }
        let members = attribute_values(entry, config.group_member_attribute.as_str());
        let ghost values = values_of(entry.attrs@, config.group_member_attribute@);
        let ghost named = graph;
        let mut j: usize = 0;
        while j < members.len()
            invariant
                j <= members@.len(),
                texts(members@) == values,
                forall|m: Seq<char>, g: Seq<char>| #[trigger]
                    graph.edge(m, g) == (named.edge(m, g) || (g == dn@ && exists|k: int|
                        0 <= k < j && normal_dn(#[trigger] values[k]) == m)),
                forall|g: Seq<char>| #[trigger] graph.name_of(g) == named.name_of(g),
            decreases members@.len() - j,
        {
            let ghost earlier = graph;
            assert(values[j as int] == members@[j as int]@);
            graph.add_member(normalize_dn(members[j].as_str()), &dn);
            proof {
                assert forall|m: Seq<char>, g: Seq<char>| #[trigger] graph.edge(m, g) == (named.edge(
                    m,
                    g,
                ) || (g == dn@ && exists|k: int|
                    0 <= k < j + 1 && normal_dn(#[trigger] values[k]) == m)) by {
                    if m == normal_dn(members@[j as int]@) {
                        assert(normal_dn(values[j as int]) == m);
                    }
                    if earlier.edge(m, g) && !named.edge(m, g) {
                        let k = choose|k: int| 0 <= k < j && normal_dn(#[trigger] values[k]) == m;
                        assert(0 <= k < j + 1 && normal_dn(values[k]) == m);
                    }
                }
            }
            j = j + 1;
        }
        proof {
            assert forall|m: Seq<char>, g: Seq<char>| #[trigger] graph.edge(m, g) == listed_member(
                *config,
                next,
                m,
                g,
            ) by {
                let attr = config.group_member_attribute@;
                if graph.edge(m, g) {
                    if known.edge(m, g) {
                        let (a, b) = choose|a: int, b: int|
                            {
                                &&& 0 <= a < before.len()
                                &&& 0 <= b < values_of(before[a].attrs@, attr).len()
                                &&& normal_dn(before[a].dn@) == g
                                &&& normal_dn(#[trigger] values_of(before[a].attrs@, attr)[b]) == m
                            };
                        assert(next[a] == before[a]);
                        assert(normal_dn(values_of(next[a].attrs@, attr)[b]) == m);
                    } else {
                        let k = choose|k: int|
                            0 <= k < values.len() && normal_dn(#[trigger] values[k]) == m;
                        assert(normal_dn(values_of(next[i as int].attrs@, attr)[k]) == m);
                    }
                }
                if listed_member(*config, next, m, g) {
                    let (a, b) = choose|a: int, b: int|
                        {
                            &&& 0 <= a < next.len()
                            &&& 0 <= b < values_of(next[a].attrs@, attr).len()
                            &&& normal_dn(next[a].dn@) == g
                            &&& normal_dn(#[trigger] values_of(next[a].attrs@, attr)[b]) == m
                        };
                    if a < i {
                        assert(next[a] == before[a]);
                        assert(normal_dn(values_of(before[a].attrs@, attr)[b]) == m);
                        assert(known.edge(m, g));
                        assert(named.edge(m, g));
                    } else {
                        assert(normal_dn(values[b]) == m);
                    }
                }
            }
        }
        i = i + 1;
    }
    assert(entries@.take(i as int) =~= entries@);
    graph
}

/// The text of the attribute that names a person for good, where it may be binary.
pub open spec fn person_id_of(entry: DirectoryEntry, name: Seq<char>) -> Option<Seq<char>> {
    match first_of(entry.attrs@, name) {
        Some(v) => Some(v),
        None => match first_bytes(entry.bin_attrs@, name) {
            Some(bytes) => Some(base64_text(bytes)),
            None => None,
        },
    }
}

/// The first value of a binary attribute.
pub open spec fn first_bytes(attrs: Seq<(String, Vec<Vec<u8>>)>, name: Seq<char>) -> Option<Seq<u8>>
    decreases attrs.len(),
{
    if attrs.len() == 0 {
        None
    } else if attrs[0].0@ == name {
        if attrs[0].1@.len() > 0 {
            Some(attrs[0].1@[0]@)
        } else {
            None
        }
    } else {
        first_bytes(attrs.drop_first(), name)
    }
}

/// Whether the base64 texts of the binary values of an entry fit into memory.
pub open spec fn values_fit(entry: DirectoryEntry) -> bool {
    forall|i: int, j: int|
        0 <= i < entry.bin_attrs@.len() && 0 <= j < entry.bin_attrs@[i].1@.len() ==> ((
        #[trigger] entry.bin_attrs@[i].1@[j])@.len() + 2) / 3 * 4 <= usize::MAX / 2
}

/// The text of the attribute that names a person for good, where it may be binary.
pub fn attribute_or_binary(entry: &DirectoryEntry, name: &str) -> (r: Option<String>)
    requires
        values_fit(*entry),
    ensures
        opt_text(r) == person_id_of(*entry, name@),
{
    if let Some(value) = first_attribute(entry, name) {
        return Some(value);
    }
    let ghost all = entry.bin_attrs@;
    let mut i: usize = 0;
    assert(all.skip(0) =~= all);
    while i < entry.bin_attrs.len()
        invariant
            i <= entry.bin_attrs@.len(),
            all == entry.bin_attrs@,
            values_fit(*entry),
            first_of(entry.attrs@, name@) is None,
            first_bytes(all, name@) == first_bytes(all.skip(i as int), name@),
        decreases entry.bin_attrs@.len() - i,
    {
        let ghost rest = all.skip(i as int);
        assert(rest[0] == all[i as int]);
        if same_text(entry.bin_attrs[i].0.as_str(), name) {
            if entry.bin_attrs[i].1.len() > 0 {
                assert(all[i as int].1@[0]@.len() >= 0);
                return Some(base64_encode(entry.bin_attrs[i].1[0].as_slice()));
            }
            return None;
        }
        assert(rest.drop_first() =~= all.skip(i + 1));
        i = i + 1;
    }
    None
}

/// The name of the group that a value of an attribute refers to.
pub open spec fn referred_group(graph: GroupGraph, value: Seq<char>) -> Option<Seq<char>> {
    match graph.name_of(normal_dn(value)) {
        Some(name) => Some(name),
        None => name_in_dn(value),
    }
}

/// Whether a person is in a group: its own attribute or the groups of the directory say so.
pub open spec fn person_in_group(
    config: LdapConfig,
    graph: GroupGraph,
    entry: DirectoryEntry,
    group: Seq<char>,
) -> bool {
    ||| exists|k: int|
        0 <= k < values_of(entry.attrs@, config.group_attribute@).len() && referred_group(
            graph,
            #[trigger] values_of(entry.attrs@, config.group_attribute@)[k],
        ) == Some(group)
    ||| graph.names_parent(
        graph.reached(normal_dn(entry.dn@), config.nested_group_depth as nat),
        group,
    )
}

/// The groups of a person, in order and each once.
pub fn person_groups(config: &LdapConfig, graph: &GroupGraph, entry: &DirectoryEntry) -> (r: Vec<
    String,
>)
    ensures
        in_order(texts(r@)),
        texts(r@).no_duplicates(),
        forall|g: Seq<char>| #[trigger]
            texts(r@).contains(g) == person_in_group(*config, *graph, *entry, g),
{
    let nested = graph.groups_for_member(entry.dn.as_str(), config.nested_group_depth);
    let values = attribute_values(entry, config.group_attribute.as_str());
    let ghost all = values_of(entry.attrs@, config.group_attribute@);
    let mut names = copy_texts(&nested);
    let mut i: usize = 0;
    while i < values.len()
        invariant
            i <= values@.len(),
            texts(values@) == all,
            forall|g: Seq<char>| #[trigger]
                texts(names@).contains(g) == (texts(nested@).contains(g) || exists|k: int|
                    0 <= k < i && referred_group(*graph, #[trigger] all[k]) == Some(g)),
        decreases values@.len() - i,
    {
        assert(all[i as int] == values@[i as int]@);
        let key = normalize_dn(values[i].as_str());
        let name = match graph.name(key.as_str()) {
            Some(n) => Some(n),
            None => group_name_from_dn(values[i].as_str()),
        };
        let ghost before = texts(names@);
        if let Some(n) = name {
            push_text(&mut names, n);
            proof {
                crate::groups::lemma_pushed(before, n@);
            }
        }
        proof {
            assert forall|g: Seq<char>| #[trigger] texts(names@).contains(g) == (texts(
                nested@,
            ).contains(g) || exists|k: int|
                0 <= k < i + 1 && referred_group(*graph, #[trigger] all[k]) == Some(g)) by {
                if referred_group(*graph, all[i as int]) == Some(g) {
                    assert(texts(names@).contains(g));
                }
                if before.contains(g) && !texts(nested@).contains(g) {
                    let k = choose|k: int|
                        0 <= k < i && referred_group(*graph, #[trigger] all[k]) == Some(g);
                    assert(0 <= k < i + 1 && referred_group(*graph, all[k]) == Some(g));
                }
            }
        }
        i = i + 1;
    }
    listed(names)
}

/// Texts in lower case.
pub open spec fn lowered(values: Seq<Seq<char>>) -> Seq<Seq<char>> {
    values.map_values(|v: Seq<char>| ascii_lowered(v))
}

/// Whether a person is active: no value of the attribute that disables is one that disables.
pub open spec fn person_active(config: LdapConfig, entry: DirectoryEntry) -> bool {
    match config.disabled_attribute {
        None => true,
        Some(attribute) => !exists|k: int|
            0 <= k < values_of(entry.attrs@, attribute@).len() && lowered(
                texts(config.disabled_values@),
            ).contains(ascii_lowered(#[trigger] values_of(entry.attrs@, attribute@)[k])),
    }
}

fn lower_all(values: &Vec<String>) -> (r: Vec<String>)
    ensures
        texts(r@) == lowered(texts(values@)),
{
    let ghost goal = lowered(texts(values@));
    let mut out: Vec<String> = Vec::new();
    let mut i: usize = 0;
    assert(texts(out@) =~= goal.take(0));
    while i < values.len()
        invariant
            i <= values@.len(),
            goal == lowered(texts(values@)),
            texts(out@) =~= goal.take(i as int),
        decreases values@.len() - i,
    {
        push_text(&mut out, to_ascii_lowercase(values[i].as_str()));
        assert(goal.take(i + 1) =~= goal.take(i as int).push(goal[i as int]));
        i = i + 1;
    }
    assert(goal.take(i as int) =~= goal);
    out
}

/// Whether a person is active.
pub fn is_person_active(config: &LdapConfig, entry: &DirectoryEntry) -> (r: bool)
    ensures
        r == person_active(*config, *entry),
{
    match &config.disabled_attribute {
        None => true,
        Some(attribute) => {
            let disabling = lower_all(&config.disabled_values);
            let values = attribute_values(entry, attribute.as_str());
            let ghost all = values_of(entry.attrs@, attribute@);
            let mut i: usize = 0;
            while i < values.len()
                invariant
                    i <= values@.len(),
                    texts(values@) == all,
                    texts(disabling@) == lowered(texts(config.disabled_values@)),
                    all == values_of(entry.attrs@, attribute@),
                    config.disabled_attribute == Some(*attribute),
                    forall|k: int|
                        0 <= k < i ==> !lowered(texts(config.disabled_values@)).contains(
                            ascii_lowered(#[trigger] all[k]),
                        ),
                decreases values@.len() - i,
            {
                assert(all[i as int] == values@[i as int]@);
                let low = to_ascii_lowercase(values[i].as_str());
                if holds_text(disabling.as_slice(), low.as_str()) {
                    proof {
                        let values_now = values_of(
                            entry.attrs@,
                            (config.disabled_attribute->0)@,
                        );
                        assert(lowered(texts(config.disabled_values@)).contains(
                            ascii_lowered(values_now[i as int]),
                        ));
                        assert(i < values_now.len());
                        assert(!person_active(*config, *entry));
                    }
                    return false;
                }
                i = i + 1;
            }
            true
        },
    }
}

/// What is wrong with a person of a directory.
pub open spec fn person_fault(config: LdapConfig, entry: DirectoryEntry) -> Option<ErrorView> {
    if person_id_of(entry, config.id_attribute@) is None {
        Some(validation("LDAP entry "@ + entry.dn@ + " has no immutable ID"@))
    } else if first_of(entry.attrs@, config.email_attribute@) is None {
        Some(validation("LDAP entry "@ + entry.dn@ + " has no email"@))
    } else {
        None
    }
}

/// Whether an entry of a snapshot says of a person what the directory says.
pub open spec fn is_person(
    p: LdapSnapshotEntry,
    config: LdapConfig,
    graph: GroupGraph,
    entry: DirectoryEntry,
) -> bool {
    let email = first_of(entry.attrs@, config.email_attribute@);
    &&& person_id_of(entry, config.id_attribute@) == Some(p.external_id@)
    &&& email == Some(p.email@)
    &&& p.name@ == (match first_of(entry.attrs@, config.name_attribute@) {
        Some(name) => name,
        None => p.email@,
    })
    &&& p.title@ == (match first_of(entry.attrs@, config.title_attribute@) {
        Some(title) => title,
        None => Seq::empty(),
    })
    &&& in_order(texts(p.groups@)) && texts(p.groups@).no_duplicates()
    &&& forall|g: Seq<char>| #[trigger]
        texts(p.groups@).contains(g) == person_in_group(config, graph, entry, g)
    &&& p.active == person_active(config, entry)
}

/// What a directory says of a person.
pub fn directory_person(config: &LdapConfig, graph: &GroupGraph, entry: &DirectoryEntry) -> (r:
    Result<LdapSnapshotEntry, ApiError>)
    requires
        values_fit(*entry),
    ensures
        match r {
            Ok(p) => person_fault(*config, *entry) is None && is_person(p, *config, *graph, *entry),
            Err(e) => person_fault(*config, *entry) == Some(e@),
        },
{
    let external_id = match attribute_or_binary(entry, config.id_attribute.as_str()) {
        Some(id) => id,
        None => return Err(
            validation_error(
                String::from_str("LDAP entry ").concat(entry.dn.as_str()).concat(
                    " has no immutable ID",
                ).as_str(),
            ),
        ),
    };
    let email = match first_attribute(entry, config.email_attribute.as_str()) {
        Some(email) => email,
        None => return Err(
            validation_error(
                String::from_str("LDAP entry ").concat(entry.dn.as_str()).concat(
                    " has no email",
                ).as_str(),
            ),
        ),
    };
    let name = match first_attribute(entry, config.name_attribute.as_str()) {
        Some(name) => name,
        None => copy_text(&email),
    };
    let title = match first_attribute(entry, config.title_attribute.as_str()) {
        Some(title) => title,
        None => String::new(),
    };
    Ok(
        LdapSnapshotEntry {
            external_id,
            email,
            name,
            title,
            groups: person_groups(config, graph, entry),
            active: is_person_active(config, entry),
        },
    )
}

/// What is wrong with the first person that something is wrong with.
pub open spec fn people_fault(config: LdapConfig, users: Seq<DirectoryEntry>) -> Option<ErrorView>
    decreases users.len(),
{
    if users.len() == 0 {
        None
    } else {
        or_fault(people_fault(config, users.drop_last()), person_fault(config, users.last()))
    }
}

proof fn lemma_later_people(config: LdapConfig, users: Seq<DirectoryEntry>, i: int)
    requires
        0 <= i <= users.len(),
        people_fault(config, users.take(i)) is Some,
    ensures
        people_fault(config, users) == people_fault(config, users.take(i)),
    decreases users.len(),
{
    if i == users.len() {
        assert(users.take(i) =~= users);
    } else {
        assert(users.drop_last().take(i) =~= users.take(i));
        lemma_later_people(config, users.drop_last(), i);
    }
}

/// What a directory says of its people: of all of them, or nothing.
pub fn directory_people(config: &LdapConfig, groups: &[DirectoryEntry], users: &[DirectoryEntry]) -> (r:
    Result<Vec<LdapSnapshotEntry>, ApiError>)
    requires
        forall|i: int| 0 <= i < users@.len() ==> values_fit(#[trigger] users@[i]),
    ensures
        match r {
            Ok(v) => {
                &&& people_fault(*config, users@) is None
                &&& v@.len() == users@.len()
                &&& exists|graph: GroupGraph|
                    {
                        &&& #[trigger] is_graph_of(graph, *config, groups@)
                        &&& forall|i: int|
                            0 <= i < v@.len() ==> #[trigger] is_person(
                                v@[i],
                                *config,
                                graph,
                                users@[i],
                            )
                    }
            },
            Err(e) => people_fault(*config, users@) == Some(e@),
        },
{
    let graph = build_group_graph(config, groups);
    let mut out: Vec<LdapSnapshotEntry> = Vec::new();
    let mut i: usize = 0;
    while i < users.len()
        invariant
            i <= users@.len(),
            out@.len() == i,
            forall|k: int| 0 <= k < users@.len() ==> values_fit(#[trigger] users@[k]),
            forall|k: int| 0 <= k < i ==> #[trigger] is_person(out@[k], *config, graph, users@[k]),
            people_fault(*config, users@.take(i as int)) is None,
        decreases users@.len() - i,
    {
        let ghost next = users@.take(i + 1);
        proof {
            assert(next.drop_last() =~= users@.take(i as int));
            assert(next.last() == users@[i as int]);
        }
        match directory_person(config, &graph, &users[i]) {
            Ok(person) => {
                out.push(person);
            },
            Err(e) => {
                proof {
                    lemma_later_people(*config, users@, i + 1);
                }
                return Err(e);
            },
        }
        i = i + 1;
    }
    assert(users@.take(i as int) =~= users@);
    Ok(out)
}

/// Lets OpenID Connect providers pass that are enabled.
pub fn check_oidc(kind: ProviderKind, enabled: bool) -> (r: Result<(), ApiError>)
    ensures
        checks(
            r,
            unless(
                enabled && kind == ProviderKind::Oidc,
                forbidden("OIDC realm is not enabled"@),
            ),
        ),
{
    match kind {
        ProviderKind::Oidc if enabled => Ok(()),
        _ => Err(forbidden_error("OIDC realm is not enabled")),
    }
}

/// Whether a scope is asked for in any case.
pub open spec fn usual_scope(s: Seq<char>) -> bool {
    s == "openid"@ || s == "email"@ || s == "profile"@
}

/// The scopes that are asked for: the usual three, then what the configuration adds to them.
pub open spec fn scopes_of(extra: Seq<Seq<char>>) -> Seq<Seq<char>>
    decreases extra.len(),
{
    if extra.len() == 0 {
        seq!["openid"@, "email"@, "profile"@]
    } else if usual_scope(extra.last()) {
        scopes_of(extra.drop_last())
    } else {
        scopes_of(extra.drop_last()).push(extra.last())
    }
}

/// The scopes that are asked for.
pub fn requested_scopes(extra: &[String]) -> (r: Vec<String>)
    ensures
        texts(r@) == scopes_of(texts(extra@)),
{
    let ghost all = texts(extra@);
    let mut out: Vec<String> = Vec::new();
    push_text(&mut out, String::from_str("openid"));
    push_text(&mut out, String::from_str("email"));
    push_text(&mut out, String::from_str("profile"));
    assert(texts(out@) =~= scopes_of(all.take(0)));
    let mut i: usize = 0;
    while i < extra.len()
        invariant
            i <= extra@.len(),
            all == texts(extra@),
            texts(out@) == scopes_of(all.take(i as int)),
        decreases extra@.len() - i,
    {
        let ghost next = all.take(i + 1);
        proof {
            assert(next.drop_last() =~= all.take(i as int));
            assert(next.last() == extra@[i as int]@);
        }
        let scope = &extra[i];
        if !same_text(scope.as_str(), "openid") && !same_text(scope.as_str(), "email") && !same_text(
            scope.as_str(),
            "profile",
        ) {
            push_text(&mut out, copy_text(scope));
        }
        i = i + 1;
    }
    assert(all.take(i as int) =~= all);
    out
}

/// What the secrets of a login belong to.
pub open spec fn state_context_of(id: Uuid) -> Seq<char> {
    "oidc-state:"@ + uuid_text(id)
}

/// What the secrets of a login belong to.
pub fn state_context(id: Uuid) -> (r: String)
    ensures
        r@ == state_context_of(id),
{
    String::from_str("oidc-state:").concat(uuid_to_text(id).as_str())
}

/// A login that was begun, to be written to the database.
pub struct NewOidcState {
    pub id: Uuid,
    pub provider_id: Uuid,
    pub state_hash: Vec<u8>,
    pub nonce_hash: Vec<u8>,
    pub pkce_verifier_envelope: Vec<u8>,
    pub redirect_uri: String,
    pub expires_at: String,
    pub created_at: String,
}

/// The secrets of a login as a JSON object.
pub open spec fn state_secret(verifier: Seq<char>, nonce: Seq<char>) -> Seq<char> {
    "{\"verifier\":"@ + json_quoted(verifier) + ",\"nonce\":"@ + json_quoted(nonce) + "}"@
}

/// Whether a login is kept as it was begun: of the state and the nonce only the digests, the
/// secrets sealed, for ten minutes.
pub open spec fn keeps_state(
    s: NewOidcState,
    key: Seq<u8>,
    id: Uuid,
    provider_id: Uuid,
    state: Seq<char>,
    nonce: Seq<char>,
    verifier: Seq<char>,
    redirect: Seq<char>,
    now: Timestamp,
) -> bool {
    &&& s.id == id
    &&& s.provider_id == provider_id
    &&& s.state_hash@ == sha256(encode_utf8(state))
    &&& s.nonce_hash@ == sha256(encode_utf8(nonce))
    &&& is_envelope(
        key,
        state_context_of(id),
        encode_utf8(state_secret(verifier, nonce)),
        s.pkce_verifier_envelope@,
    )
    &&& s.redirect_uri@ == redirect
    &&& later_text(now, 600) == Some(s.expires_at@)
    &&& time_text(now.secs, now.nanos) == Some(s.created_at@)
}

/// The login that begins now.
pub fn start_oidc(
    secrets: &SecretBox,
    id: Uuid,
    provider_id: Uuid,
    state: &str,
    nonce: &str,
    verifier: &str,
    redirect: &str,
    now: Timestamp,
) -> (r: Result<NewOidcState, ApiError>)
    ensures
        match or_fault(
            seal_fault(state_secret(verifier@, nonce@)),
            unless(
                later_text(now, 600) is Some && time_text(now.secs, now.nanos) is Some,
                clock_fault(),
            ),
        ) {
            Some(e) => r matches Err(f) && f@ == e,
            None => r matches Ok(s) && keeps_state(
                s,
                secrets.master_key(),
                id,
                provider_id,
                state@,
                nonce@,
                verifier@,
                redirect@,
                now,
            ),
        },
{
    let mut secret = String::from_str("{\"verifier\":").concat(json_string(verifier).as_str()).concat(
        ",\"nonce\":",
    ).concat(json_string(nonce).as_str()).concat("}");
    let owner = state_context(id);
    assert(secret@ =~= state_secret(verifier@, nonce@));
    let sealed = seal_text(secrets, owner.as_str(), secret.as_str());
    wipe_text(&mut secret);
    let envelope = sealed?;
    let expires_at = render_later(now, 600)?;
    let created_at = render_time(now)?;
    Ok(
        NewOidcState {
            id,
            provider_id,
            state_hash: sha256_digest(state.as_bytes()),
            nonce_hash: sha256_digest(nonce.as_bytes()),
            pkce_verifier_envelope: envelope,
            redirect_uri: redirect.to_owned(),
            expires_at,
            created_at,
        },
    )
}

/// A login that was begun in the database.
pub struct OidcStateRow {
    pub id: String,
    pub provider_id: String,
    pub consumed_at: Option<String>,
    pub expires_at: String,
}

/// Why a login cannot be ended.
pub open spec fn state_fault(row: Option<OidcStateRow>, now: Seq<char>) -> Option<ErrorView> {
    match row {
        None => Some(unauthorized("OIDC state is invalid or expired"@)),
        Some(s) => if s.consumed_at is Some || text_no_later(s.expires_at@, now) {
            Some(unauthorized("OIDC state is invalid or expired"@))
        } else {
            or_fault(plain_id_fault(s.id@), plain_id_fault(s.provider_id@))
        },
    }
}

/// The login that ends: its id and its provider. It ends once.
pub fn finish_oidc(row: &Option<OidcStateRow>, now: &str) -> (r: Result<(Uuid, Uuid), ApiError>)
    ensures
        match r {
            Ok(p) => {
                &&& state_fault(*row, now@) is None && row is Some
                &&& uuid_parsed(row->0.id@) == Ok::<Uuid, Seq<char>>(p.0)
                &&& uuid_parsed(row->0.provider_id@) == Ok::<Uuid, Seq<char>>(p.1)
            },
            Err(e) => state_fault(*row, now@) == Some(e@),
        },
{
    match row {
        None => Err(unauthorized_error("OIDC state is invalid or expired")),
        Some(state) => {
            if state.consumed_at.is_some() || is_text_no_later(state.expires_at.as_str(), now) {
                return Err(unauthorized_error("OIDC state is invalid or expired"));
            }
            let id = plain_id(state.id.as_str())?;
            let provider_id = plain_id(state.provider_id.as_str())?;
            Ok((id, provider_id))
        },
    }
}

/// A login ends once: after that its state is refused, whenever.
pub proof fn law_logins_end_once(row: OidcStateRow, now: Seq<char>)
    requires
        row.consumed_at is Some,
    ensures
        state_fault(Some(row), now) == Some(unauthorized("OIDC state is invalid or expired"@)),
{
}

/// Lets addresses pass at which a provider is asked for more of a person.
pub fn check_userinfo_url(url: &str) -> (r: Result<(), ApiError>)
    ensures
        checks(
            r,
            unless(
                "https://"@.is_prefix_of(url@),
                validation("OIDC userinfo_url must use HTTPS"@),
            ),
        ),
{
    if starts_with(url, "https://") {
        Ok(())
    } else {
        Err(validation_error("OIDC userinfo_url must use HTTPS"))
    }
}

/// The texts among some JSON values.
pub open spec fn string_items(items: Seq<Seq<char>>) -> Seq<Seq<char>>
    decreases items.len(),
{
    if items.len() == 0 {
        Seq::empty()
    } else {
        match json_unquoted(items.last()) {
            Some(text) => string_items(items.drop_last()).push(text),
            None => string_items(items.drop_last()),
        }
    }
}

/// The texts of a claim: those of an array in order and each once, or a single one.
pub open spec fn claim_texts(value: Seq<char>, claim: Seq<char>) -> Seq<Seq<char>> {
    match json_members(value) {
        None => Seq::empty(),
        Some(members) => match member_of(members, claim) {
            None => Seq::empty(),
            Some(member) => match json_items(member) {
                Some(items) => sorted_unique(string_items(items)),
                None => match json_unquoted(member) {
                    Some(text) => seq![text],
                    None => Seq::empty(),
                },
            },
        },
    }
}

/// The texts of a claim.
pub fn claim_strings(value: &str, claim: &str) -> (r: Vec<String>)
    ensures
        texts(r@) == claim_texts(value@, claim@),
{
    let mut out: Vec<String> = Vec::new();
    assert(texts(out@) =~= Seq::<Seq<char>>::empty());
    let members = match object_members(value) {
        Some(m) => m,
        None => return out,
    };
    let member = match member_text(members.as_slice(), claim) {
        Some(m) => m,
        None => return out,
    };
    match array_items(member.as_str()) {
        Some(items) => {
            let ghost all = texts(items@);
            let mut i: usize = 0;
            assert(texts(out@) =~= string_items(all.take(0)));
            while i < items.len()
                invariant
                    i <= items@.len(),
                    all == texts(items@),
                    texts(out@) == string_items(all.take(i as int)),
                decreases items@.len() - i,
            {
                let ghost next = all.take(i + 1);
                proof {
                    assert(next.drop_last() =~= all.take(i as int));
                    assert(next.last() == items@[i as int]@);
                }
                if let Some(text) = string_value(items[i].as_str()) {
                    push_text(&mut out, text);
                }
                i = i + 1;
            }
            assert(all.take(i as int) =~= all);
            sort_unique_texts(&mut out);
            out
        },
        None => {
            if let Some(text) = string_value(member.as_str()) {
                push_text(&mut out, text);
                assert(texts(out@) =~= claim_texts(value@, claim@));
            }
            out
        },
    }
}

/// Whether claims say what a verified token and the provider say of a person.
pub open spec fn are_claims(
    c: OidcClaims,
    config: OidcConfig,
    subject: Seq<char>,
    email: Seq<char>,
    email_verified: bool,
    userinfo: Seq<char>,
) -> bool {
    &&& c.subject@ == subject
    &&& c.email@ == email
    &&& c.email_verified == email_verified
    &&& c.name@ == (match string_member_of(userinfo, "name"@) {
        Some(name) => name,
        None => email,
    })
    &&& c.title@ == (match string_member_of(userinfo, config.title_claim@) {
        Some(title) => title,
        None => Seq::empty(),
    })
    &&& texts(c.groups@) == claim_texts(userinfo, config.groups_claim@)
}

/// What a verified token and the provider say of a person. The address comes from the token
/// alone, and counts as verified only where the token says so.
pub fn person_claims(
    config: &OidcConfig,
    subject: &str,
    email: Option<&str>,
    email_verified: Option<bool>,
    userinfo: &str,
) -> (r: Result<OidcClaims, ApiError>)
    ensures
        match email {
            Some(address) => r matches Ok(c) && are_claims(
                c,
                *config,
                subject@,
                address@,
                email_verified == Some(true),
                userinfo@,
            ),
            None => r matches Err(e) && e@ == forbidden("OIDC email claim is required"@),
        },
{
    let address = match email {
        Some(a) => a,
        None => return Err(forbidden_error("OIDC email claim is required")),
    };
    let verified = match email_verified {
        Some(v) => v,
        None => false,
    };
    let name = match string_member(userinfo, "name") {
        Some(name) => name,
        None => address.to_owned(),
    };
    let title = match string_member(userinfo, config.title_claim.as_str()) {
        Some(title) => title,
        None => String::new(),
    };
    Ok(
        OidcClaims {
            subject: subject.to_owned(),
            email: address.to_owned(),
            email_verified: verified,
            name,
            title,
            groups: claim_strings(userinfo, config.groups_claim.as_str()),
        },
    )
}

} // verus!
