//! The settings of the controller, and what it tells of itself.

use vstd::prelude::*;
use vstd::string::*;
use vstd::utf8::encode_utf8;

use crate::audit::{success, AuditEntry};
use crate::config::{
    address_texts, addresses_to_texts, options_json, options_to_json, ClientOptions, OptionsView};
use crate::devices::copy_options;
use crate::error::{
    checks, internal, internal_error, network_error, validation, validation_error, ApiError,
    ErrorView,
};
use crate::ids::{uuid_parsed, Uuid};
use crate::ipv4::Ipv4Net;
use crate::json::{
    all_quoted, append_array, canonical_json, json_array, json_canonical, json_number,
    json_opt_number, json_optional, json_quoted, json_string, json_text, quote_all,
    read_json_number, read_json_text,
};
use crate::migration::{routes_of, RouteRow};
use crate::models::{
    AuditEventResponse, GroupResponse, SystemSettingsResponse, UpdateSystemSettingsRequest,
};
use crate::network::{address_count_of, ClientPool, NetworkError};
use crate::rows::{
    db_id, db_id_fault, db_net, db_net_fault, net_of, or_fault, signed_decimal, signed_text, unless,
};
use crate::sites::{check_plan, db_routes_fault, outcome, plan_outcome, read_db_routes, EndpointRow};
use crate::text::{
    any_whitespace, chars_of, copy_option, copy_text, decimal, decimal_text, has_whitespace,
    opt_text, same_text, texts,
};

verus! {

/// A setting in the database.
pub struct SettingRow {
    pub key: String,
    pub value_json: String,
    /// The value as client options, or why it is none.
    pub options: Result<ClientOptions, String>,
}

/// What is wrong with a client pool that is written as a JSON string.
pub open spec fn pool_fault(value_json: Seq<char>) -> Option<ErrorView> {
    match json_text(value_json) {
        Ok(raw) => db_net_fault(raw, "client pool"@),
        Err(message) => Some(internal(message)),
    }
}

/// The client pool that a JSON string writes.
pub fn stored_pool(value_json: &str) -> (r: Result<Ipv4Net, ApiError>)
    ensures
        match r {
            Ok(net) => pool_fault(value_json@) is None && net == net_of(
                json_text(value_json@)->Ok_0,
            ),
            Err(e) => pool_fault(value_json@) == Some(e@),
        },
{
    match read_json_text(value_json) {
        Ok(raw) => db_net(raw.as_str(), "client pool"),
        Err(message) => Err(internal_error(message.as_str())),
    }
}

impl SettingRow {
    /// What is wrong with the setting.
    pub open spec fn fault(self) -> Option<ErrorView> {
        if self.key@ == "client_pool"@ {
            pool_fault(self.value_json@)
        } else if self.key@ == "default_device_limit"@ {
            match json_number(self.value_json@) {
                Ok(_) => None,
                Err(message) => Some(internal(message)),
            }
        } else if self.key@ == "client_options"@ {
            match self.options {
                Ok(_) => None,
                Err(message) => Some(internal(message@)),
            }
        } else {
            None
        }
    }
}

/// What is wrong with the first setting that something is wrong with.
pub open spec fn rows_fault(rows: Seq<SettingRow>) -> Option<ErrorView>
    decreases rows.len(),
{
    if rows.len() == 0 {
        None
    } else {
        or_fault(rows_fault(rows.drop_last()), rows.last().fault())
    }
}

proof fn lemma_later_rows(rows: Seq<SettingRow>, i: int)
    requires
        0 <= i <= rows.len(),
        rows_fault(rows.take(i)) is Some,
    ensures
        rows_fault(rows) == rows_fault(rows.take(i)),
    decreases rows.len(),
{
    if i == rows.len() {
        assert(rows.take(i) =~= rows);
    } else {
        assert(rows.drop_last().take(i) =~= rows.take(i));
        lemma_later_rows(rows.drop_last(), i);
    }
}

/// The row of a setting, where there is one: the last one counts.
pub open spec fn setting(rows: Seq<SettingRow>, key: Seq<char>) -> Option<SettingRow>
    decreases rows.len(),
{
    if rows.len() == 0 {
        None
    } else if rows.last().key@ == key {
        Some(rows.last())
    } else {
        setting(rows.drop_last(), key)
    }
}

/// What is wrong with the settings.
pub open spec fn settings_fault(rows: Seq<SettingRow>) -> Option<ErrorView> {
    or_fault(
        rows_fault(rows),
        or_fault(
            unless(
                setting(rows, "client_pool"@) is Some,
                internal("client_pool setting missing"@),
            ),
            or_fault(
                unless(
                    setting(rows, "default_device_limit"@) is Some,
                    internal("default_device_limit setting missing"@),
                ),
                unless(
                    setting(rows, "client_options"@) is Some,
                    internal("client_options setting missing"@),
                ),
            ),
        ),
    )
}

/// Whether a response tells the settings.
pub open spec fn tells_settings(r: SystemSettingsResponse, rows: Seq<SettingRow>) -> bool {
    &&& setting(rows, "client_pool"@) matches Some(row) && json_text(row.value_json@) matches Ok(
        raw,
    ) && r.client_pool == net_of(raw)
    &&& setting(rows, "default_device_limit"@) matches Some(row) && json_number(row.value_json@)
        == Ok::<u32, Seq<char>>(r.default_device_limit)
    &&& setting(rows, "client_options"@) matches Some(row) && row.options matches Ok(options)
        && r.client_options@ == options@
}

/// The settings. Those with unknown keys are passed over.
pub fn system_settings(rows: &[SettingRow]) -> (r: Result<SystemSettingsResponse, ApiError>)
    ensures
        match r {
            Ok(s) => settings_fault(rows@) is None && tells_settings(s, rows@),
            Err(e) => settings_fault(rows@) == Some(e@),
        },
{
    let mut client_pool: Option<Ipv4Net> = None;
    let mut default_device_limit: Option<u32> = None;
    let mut client_options: Option<ClientOptions> = None;
    let mut i: usize = 0;
    proof {
        reveal_strlit("client_pool");
        reveal_strlit("default_device_limit");
        reveal_strlit("client_options");
    }
    while i < rows.len()
        invariant
            i <= rows@.len(),
            "client_pool"@.len() == 11,
            "default_device_limit"@.len() == 20,
            "client_options"@.len() == 14,
            rows_fault(rows@.take(i as int)) is None,
            match setting(rows@.take(i as int), "client_pool"@) {
                Some(row) => json_text(row.value_json@) matches Ok(raw) && client_pool == Some(
                    net_of(raw),
                ),
                None => client_pool is None,
            },
            match setting(rows@.take(i as int), "default_device_limit"@) {
                Some(row) => json_number(row.value_json@) matches Ok(n) && default_device_limit
                    == Some(n),
                None => default_device_limit is None,
            },
            match setting(rows@.take(i as int), "client_options"@) {
                Some(row) => row.options matches Ok(options) && client_options matches Some(known)
                    && known@ == options@,
                None => client_options is None,
            },
        decreases rows@.len() - i,
    {
        let ghost next = rows@.take(i + 1);
        proof {
            assert(next.drop_last() =~= rows@.take(i as int));
            assert(next.last() == rows@[i as int]);
            if rows@[i as int].fault() is Some {
                lemma_later_rows(rows@, i + 1);
            }
        }
        let key = rows[i].key.as_str();
        if same_text(key, "client_pool") {
            client_pool = Some(stored_pool(rows[i].value_json.as_str())?);
        } else if same_text(key, "default_device_limit") {
            match read_json_number(rows[i].value_json.as_str()) {
                Ok(n) => {
                    default_device_limit = Some(n);
                },
                Err(message) => {
                    return Err(internal_error(message.as_str()));
                },
            }
        } else if same_text(key, "client_options") {
            match &rows[i].options {
                Ok(options) => {
                    client_options = Some(copy_options(options));
                },
                Err(message) => {
                    return Err(internal_error(message.as_str()));
                },
            }
        }
        i = i + 1;
    }
    assert(rows@.take(i as int) =~= rows@);
    match (client_pool, default_device_limit, client_options) {
        (None, _, _) => Err(internal_error("client_pool setting missing")),
        (Some(_), None, _) => Err(internal_error("default_device_limit setting missing")),
        (Some(_), Some(_), None) => Err(internal_error("client_options setting missing")),
        (Some(pool), Some(limit), Some(options)) => Ok(
            SystemSettingsResponse {
                client_pool: pool,
                default_device_limit: limit,
                client_options: options,
            },
        ),
    }
}

/// Whether some search domain is empty or holds white space.
pub open spec fn has_bad_domain(domains: Seq<Seq<char>>) -> bool {
    exists|i: int|
        0 <= i < domains.len() && ((#[trigger] domains[i]).len() == 0 || has_whitespace(domains[i]))
}

fn any_bad_domain(domains: &[String]) -> (r: bool)
    ensures
        r == has_bad_domain(texts(domains@)),
{
    let ghost all = texts(domains@);
    let mut i: usize = 0;
    while i < domains.len()
        invariant
            i <= domains@.len(),
            all == texts(domains@),
            forall|k: int|
                0 <= k < i ==> (#[trigger] all[k]).len() > 0 && !has_whitespace(all[k]),
        decreases domains@.len() - i,
    {
        assert(all[i as int] == domains@[i as int]@);
        let domain = domains[i].as_str();
        if chars_of(domain).len() == 0 || any_whitespace(domain) {
            return true;
        }
        i = i + 1;
    }
    false
}

/// What is wrong with client options.
pub open spec fn options_fault(options: OptionsView) -> Option<ErrorView> {
    or_fault(
        unless(
            !has_bad_domain(options.search_domains),
            validation("DNS search domains are invalid"@),
        ),
        or_fault(
            unless(
                match options.mtu {
                    Some(mtu) => 576 <= mtu <= 9000,
                    None => true,
                },
                validation("MTU must be between 576 and 9000"@),
            ),
            unless(
                options.persistent_keepalive != Some(0u16),
                validation("PersistentKeepalive must be omitted or non-zero"@),
            ),
        ),
    )
}

/// Lets client options pass that clients can use.
pub fn validate_client_options(options: &ClientOptions) -> (r: Result<(), ApiError>)
    ensures
        checks(r, options_fault(options@)),
{
    if any_bad_domain(options.search_domains.as_slice()) {
        return Err(validation_error("DNS search domains are invalid"));
    }
    if let Some(mtu) = options.mtu {
        if mtu < 576 || mtu > 9000 {
            return Err(validation_error("MTU must be between 576 and 9000"));
        }
    }
    match options.persistent_keepalive {
        Some(0) => Err(validation_error("PersistentKeepalive must be omitted or non-zero")),
        _ => Ok(()),
    }
}

/// What is wrong with new settings, by themselves and next to the present pool.
pub open spec fn update_fault(
    request: UpdateSystemSettingsRequest,
    current: Ipv4Net,
) -> Option<ErrorView> {
    or_fault(
        unless(
            1 <= request.default_device_limit <= 100,
            validation("default device limit must be between 1 and 100"@),
        ),
        or_fault(
            options_fault(request.client_options@),
            or_fault(
                unless(
                    address_count_of(current) >= 4 && address_count_of(request.client_pool) >= 4,
                    validation(NetworkError::PoolTooSmall.text()),
                ),
                unless(
                    current == request.client_pool || (ClientPool { cidr: current }).expands_to(
                        ClientPool { cidr: request.client_pool },
                    ),
                    validation(NetworkError::NotAnExpansion.text()),
                ),
            ),
        ),
    )
}

/// What new settings change.
pub struct SettingsUpdate {
    /// The keys and values to be written.
    pub values: Vec<(&'static str, String)>,
    pub audit: AuditEntry,
    pub details_json: String,
}

/// Client options in JSON, the members in the order of their names.
pub open spec fn sorted_options_json(options: OptionsView) -> Seq<char> {
    "{\"dns_servers\":"@ + json_array(all_quoted(address_texts(options.dns_servers)))
        + ",\"mtu\":"@ + json_opt_number(options.mtu) + ",\"persistent_keepalive\":"@
        + json_opt_number(options.persistent_keepalive) + ",\"search_domains\":"@ + json_array(
        all_quoted(options.search_domains),
    ) + "}"@
}

fn sorted_options(options: &ClientOptions) -> (r: String)
    ensures
        r@ == sorted_options_json(options@),
{
    let mut out = String::from_str("{\"dns_servers\":");
    let servers = addresses_to_texts(options.dns_servers.as_slice());
    append_array(&mut out, quote_all(servers.as_slice()).as_slice());
    out.append(",\"mtu\":");
    out.append(json_optional(options.mtu).as_str());
    out.append(",\"persistent_keepalive\":");
    out.append(json_optional(options.persistent_keepalive).as_str());
    out.append(",\"search_domains\":");
    append_array(&mut out, quote_all(options.search_domains.as_slice()).as_slice());
    out.append("}");
    assert(out@ =~= sorted_options_json(options@));
    out
}

/// Whether it is what new settings change.
pub open spec fn is_settings_update(u: SettingsUpdate, request: UpdateSystemSettingsRequest) -> bool {
    &&& u.values@.len() == 3
    &&& u.values@[0].0@ == "client_pool"@ && u.values@[0].1@ == json_quoted(
        request.client_pool.text(),
    )
    &&& u.values@[1].0@ == "default_device_limit"@ && u.values@[1].1@ == decimal(
        request.default_device_limit as nat,
    )
    &&& u.values@[2].0@ == "client_options"@ && u.values@[2].1@ == options_json(
        request.client_options@,
    )
    &&& u.audit.says(None, "system"@, "system.settings.update"@, "system"@, None, "success"@)
    &&& u.details_json@ == "{\"client_options\":"@ + sorted_options_json(request.client_options@)
        + ",\"client_pool\":"@ + json_quoted(request.client_pool.text())
        + ",\"default_device_limit\":"@ + decimal(request.default_device_limit as nat) + "}"@
}

/// How new settings end.
pub open spec fn is_settings_outcome(
    r: Result<SettingsUpdate, ErrorView>,
    request: UpdateSystemSettingsRequest,
    current: Ipv4Net,
    routes: Seq<RouteRow>,
    endpoints: Seq<EndpointRow>,
) -> bool {
    let fault = or_fault(update_fault(request, current), db_routes_fault(routes));
    match r {
        Ok(u) => {
            &&& fault is None
            &&& plan_outcome(
                request.client_pool,
                routes_of(routes),
                endpoints,
                None,
                None,
                Ok(()),
            )
            &&& is_settings_update(u, request)
        },
        Err(e) => if fault is Some {
            fault == Some(e)
        } else {
            plan_outcome(
                request.client_pool,
                routes_of(routes),
                endpoints,
                None,
                None,
                Err(e),
            )
        },
    }
}

/// What new settings change: the pool may only grow, and must still leave the routes alone.
pub fn update_system_settings(
    request: &UpdateSystemSettingsRequest,
    current: Ipv4Net,
    routes: &[RouteRow],
    endpoints: &[EndpointRow],
) -> (r: Result<SettingsUpdate, ApiError>)
    ensures
        is_settings_outcome(
            match r {
                Ok(u) => Ok(u),
                Err(e) => Err(e@),
            },
            *request,
            current,
            routes@,
            endpoints@,
        ),
{
    if request.default_device_limit == 0 || request.default_device_limit > 100 {
        return Err(validation_error("default device limit must be between 1 and 100"));
    }
    validate_client_options(&request.client_options)?;
    let old_pool = match ClientPool::new(current) {
        Ok(p) => p,
        Err(error) => return Err(network_error(&error)),
    };
    let new_pool = match ClientPool::new(request.client_pool) {
        Ok(p) => p,
        Err(error) => return Err(network_error(&error)),
    };
    if current != request.client_pool {
        match old_pool.validate_expansion(new_pool) {
            Ok(_) => {},
            Err(error) => {
                return Err(network_error(&error));
            },
        }
    }
    let known = read_db_routes(routes)?;
    check_plan(request.client_pool, known.as_slice(), endpoints, None, None)?;
    let pool_json = json_string(request.client_pool.to_text().as_str());
    let limit_json = decimal_text(request.default_device_limit as u64);
    let details_json = String::from_str("{\"client_options\":").concat(
        sorted_options(&request.client_options).as_str(),
    ).concat(",\"client_pool\":").concat(pool_json.as_str()).concat(
        ",\"default_device_limit\":",
    ).concat(limit_json.as_str()).concat("}");
    let mut values: Vec<(&'static str, String)> = Vec::new();
    values.push(("client_pool", pool_json));
    values.push(("default_device_limit", limit_json));
    values.push(("client_options", options_to_json(&request.client_options)));
    Ok(
        SettingsUpdate {
            values,
            audit: success(None, "system", "system.settings.update", "system", None),
            details_json,
        },
    )
}

/// Every address that a client may have been given stays one that clients may have when the pool
/// is changed.
pub proof fn law_settings_keep_addresses(
    request: UpdateSystemSettingsRequest,
    current: Ipv4Net,
    address: u32,
)
    requires
        update_fault(request, current) is None,
        current.first() <= address <= current.last(),
    ensures
        request.client_pool.first() <= address <= request.client_pool.last(),
{
}

/// What the database counts.
pub struct Counts {
    pub users: i64,
    pub devices: i64,
    pub sites: i64,
    pub gateways_online: i64,
    pub gateways_stale: i64,
    pub pool_allocated: i64,
    pub pool_quarantined: i64,
    pub gateways_drifted: i64,
    pub outdated_profiles: i64,
    pub mail_jobs_pending: i64,
    pub armed_migrations: i64,
}

/// The two lines that say what is measured.
pub open spec fn metric_head(name: Seq<char>, help: Seq<char>) -> Seq<char> {
    "# HELP "@ + name + " "@ + help + "\n# TYPE "@ + name + " gauge\n"@
}

/// The line with a measured value.
pub open spec fn metric_line(name: Seq<char>, value: Seq<char>) -> Seq<char> {
    name + " "@ + value + "\n"@
}

/// The line with a value measured for a label.
pub open spec fn labelled_line(
    name: Seq<char>,
    label: Seq<char>,
    of: Seq<char>,
    value: Seq<char>,
) -> Seq<char> {
    name + "{"@ + label + "=\""@ + of + "\"} "@ + value + "\n"@
}

/// A measure with one value.
pub open spec fn metric(name: Seq<char>, help: Seq<char>, value: int) -> Seq<char> {
    metric_head(name, help) + metric_line(name, signed_decimal(value))
}

/// What the controller tells of itself.
pub open spec fn metrics_text(counts: Counts, capacity: nat, version: Seq<char>) -> Seq<char> {
    let gateways = "wiremesh_gateways"@;
    let addresses = "wiremesh_client_pool_addresses"@;
    let build = "wiremesh_build_info"@;
    metric("wiremesh_users"@, "Users not soft-deleted."@, counts.users as int) + metric(
        "wiremesh_devices"@,
        "Active or revoked device records."@,
        counts.devices as int,
    ) + metric_head(gateways, "Gateway connectivity by state."@) + labelled_line(
        gateways,
        "state"@,
        "online"@,
        signed_decimal(counts.gateways_online as int),
    ) + labelled_line(
        gateways,
        "state"@,
        "stale"@,
        signed_decimal(counts.gateways_stale as int),
    ) + metric(
        "wiremesh_gateway_drift"@,
        "Gateways whose applied revision differs from desired."@,
        counts.gateways_drifted as int,
    ) + metric_head(addresses, "Client address-pool usage."@) + labelled_line(
        addresses,
        "state"@,
        "capacity"@,
        decimal(capacity),
    ) + labelled_line(
        addresses,
        "state"@,
        "allocated"@,
        signed_decimal(counts.pool_allocated as int),
    ) + labelled_line(
        addresses,
        "state"@,
        "quarantined"@,
        signed_decimal(counts.pool_quarantined as int),
    ) + metric(
        "wiremesh_outdated_profiles"@,
        "Device profiles awaiting acknowledgement."@,
        counts.outdated_profiles as int,
    ) + metric(
        "wiremesh_mail_jobs_pending"@,
        "Durable email jobs waiting to be sent."@,
        counts.mail_jobs_pending as int,
    ) + metric(
        "wiremesh_armed_migrations"@,
        "Scheduled subnet migrations currently armed."@,
        counts.armed_migrations as int,
    ) + metric_head(build, "WireMesh controller build information."@) + labelled_line(
        build,
        "version"@,
        version,
        "1"@,
    )
}

fn append_head(out: &mut String, name: &str, help: &str)
    ensures
        final(out)@ == old(out)@ + metric_head(name@, help@),
{
    out.append("# HELP ");
    out.append(name);
    out.append(" ");
    out.append(help);
    out.append("\n# TYPE ");
    out.append(name);
    out.append(" gauge\n");
    assert(out@ =~= old(out)@ + metric_head(name@, help@));
}

fn append_metric(out: &mut String, name: &str, help: &str, value: i64)
    ensures
        final(out)@ == old(out)@ + metric(name@, help@, value as int),
{
    append_head(out, name, help);
    out.append(name);
    out.append(" ");
    out.append(signed_text(value).as_str());
    out.append("\n");
    assert(out@ =~= old(out)@ + metric(name@, help@, value as int));
}

fn append_labelled(out: &mut String, name: &str, label: &str, of: &str, value: &str)
    ensures
        final(out)@ == old(out)@ + labelled_line(name@, label@, of@, value@),
{
    out.append(name);
    out.append("{");
    out.append(label);
    out.append("=\"");
    out.append(of);
    out.append("\"} ");
    out.append(value);
    out.append("\n");
    assert(out@ =~= old(out)@ + labelled_line(name@, label@, of@, value@));
}

/// What the controller tells of itself, in the text format of Prometheus. The pool must be one
/// that clients can have addresses of.
pub fn prometheus_metrics(counts: &Counts, pool: Ipv4Net, version: &str) -> (r: Result<
    String,
    ApiError,
>)
    ensures
        if address_count_of(pool) < 4 {
            r matches Err(e) && e@ == validation(NetworkError::PoolTooSmall.text())
        } else {
            r matches Ok(text) && text@ == metrics_text(
                *counts,
                (address_count_of(pool) - 3) as nat,
                version@,
            )
        },
{
    let clients = match ClientPool::new(pool) {
        Ok(p) => p,
        Err(error) => return Err(network_error(&error)),
    };
    let capacity = decimal_text(clients.usable_capacity());
    let gateways = "wiremesh_gateways";
    let addresses = "wiremesh_client_pool_addresses";
    let build = "wiremesh_build_info";
    let mut out = String::new();
    append_metric(&mut out, "wiremesh_users", "Users not soft-deleted.", counts.users);
    append_metric(
        &mut out,
        "wiremesh_devices",
        "Active or revoked device records.",
        counts.devices,
    );
    append_head(&mut out, gateways, "Gateway connectivity by state.");
    append_labelled(
        &mut out,
        gateways,
        "state",
        "online",
        signed_text(counts.gateways_online).as_str(),
    );
    append_labelled(
        &mut out,
        gateways,
        "state",
        "stale",
        signed_text(counts.gateways_stale).as_str(),
    );
    append_metric(
        &mut out,
        "wiremesh_gateway_drift",
        "Gateways whose applied revision differs from desired.",
        counts.gateways_drifted,
    );
    append_head(&mut out, addresses, "Client address-pool usage.");
    append_labelled(&mut out, addresses, "state", "capacity", capacity.as_str());
    append_labelled(
        &mut out,
        addresses,
        "state",
        "allocated",
        signed_text(counts.pool_allocated).as_str(),
    );
    append_labelled(
        &mut out,
        addresses,
        "state",
        "quarantined",
        signed_text(counts.pool_quarantined).as_str(),
    );
    append_metric(
        &mut out,
        "wiremesh_outdated_profiles",
        "Device profiles awaiting acknowledgement.",
        counts.outdated_profiles,
    );
    append_metric(
        &mut out,
        "wiremesh_mail_jobs_pending",
        "Durable email jobs waiting to be sent.",
        counts.mail_jobs_pending,
    );
    append_metric(
        &mut out,
        "wiremesh_armed_migrations",
        "Scheduled subnet migrations currently armed.",
        counts.armed_migrations,
    );
    append_head(&mut out, build, "WireMesh controller build information.");
    append_labelled(&mut out, build, "version", version, "1");
    assert(out@ =~= metrics_text(*counts, (address_count_of(pool) - 3) as nat, version@));
    Ok(out)
}

/// An entry of the audit log in the database.
pub struct AuditRow {
    pub id: String,
    pub occurred_at: String,
    pub actor_user_id: Option<String>,
    pub actor_kind: String,
    pub action: String,
    pub object_kind: String,
    pub object_id: Option<String>,
    pub outcome: String,
    pub details_json: String,
}

impl AuditRow {
    /// What is wrong with the entry.
    pub open spec fn fault(self) -> Option<ErrorView> {
        or_fault(
            db_id_fault(self.id@, "audit event"@),
            or_fault(
                match self.actor_user_id {
                    Some(actor) => db_id_fault(actor@, "audit actor"@),
                    None => None,
                },
                match json_canonical(encode_utf8(self.details_json@)) {
                    Ok(_) => None,
                    Err(message) => Some(internal(message)),
                },
            ),
        )
    }
}

/// Whether a response tells an entry of the audit log.
pub open spec fn tells_event(r: AuditEventResponse, row: AuditRow) -> bool {
    &&& uuid_parsed(row.id@) == Ok::<Uuid, Seq<char>>(r.id)
    &&& r.occurred_at@ == row.occurred_at@
    &&& match row.actor_user_id {
        Some(actor) => r.actor_user_id matches Some(id) && uuid_parsed(actor@) == Ok::<
            Uuid,
            Seq<char>,
        >(id),
        None => r.actor_user_id is None,
    }
    &&& r.actor_kind@ == row.actor_kind@
    &&& r.action@ == row.action@
    &&& r.object_kind@ == row.object_kind@
    &&& opt_text(r.object_id) == opt_text(row.object_id)
    &&& r.outcome@ == row.outcome@
    &&& json_canonical(encode_utf8(row.details_json@)) == Ok::<Seq<char>, Seq<char>>(r.details@)
}

/// What is told of an entry of the audit log.
pub fn audit_event(row: &AuditRow) -> (r: Result<AuditEventResponse, ApiError>)
    ensures
        match r {
            Ok(e) => row.fault() is None && tells_event(e, *row),
            Err(e) => row.fault() == Some(e@),
        },
{
    let id = db_id(row.id.as_str(), "audit event")?;
    let actor_user_id = match &row.actor_user_id {
        Some(actor) => Some(db_id(actor.as_str(), "audit actor")?),
        None => None,
    };
    let details = match canonical_json(row.details_json.as_str().as_bytes()) {
        Ok(text) => text,
        Err(message) => return Err(internal_error(message.as_str())),
    };
    Ok(
        AuditEventResponse {
            id,
            occurred_at: copy_text(&row.occurred_at),
            actor_user_id,
            actor_kind: copy_text(&row.actor_kind),
            action: copy_text(&row.action),
            object_kind: copy_text(&row.object_kind),
            object_id: copy_option(&row.object_id),
            outcome: copy_text(&row.outcome),
            details,
        },
    )
}

/// A group in the database.
pub struct GroupRow {
    pub id: String,
    pub normalized_name: String,
    pub display_name: String,
    pub members: i64,
}

/// What is told of a group.
pub fn group_from_row(row: &GroupRow) -> (r: Result<GroupResponse, ApiError>)
    ensures
        match r {
            Ok(g) => {
                &&& uuid_parsed(row.id@) == Ok::<Uuid, Seq<char>>(g.id)
                &&& g.normalized_name@ == row.normalized_name@
                &&& g.display_name@ == row.display_name@
                &&& g.members == row.members
            },
            Err(e) => db_id_fault(row.id@, "group"@) == Some(e@),
        },
{
    let id = db_id(row.id.as_str(), "group")?;
    Ok(
        GroupResponse {
            id,
            normalized_name: copy_text(&row.normalized_name),
            display_name: copy_text(&row.display_name),
            members: row.members,
        },
    )
}

} // verus!
