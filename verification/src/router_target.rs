//! How the routers are reached that are managed over their own interface.

use vstd::prelude::*;
use vstd::string::*;
use vstd::utf8::encode_utf8;

use crate::agent::GatewayCredential;
use crate::audit::{user_did, AuditEntry};
use crate::crypto::wipe_text;
use crate::error::{
    not_found, not_found_error, validation, validation_error, ApiError,
    ErrorView,
};
use crate::ids::{uuid_parsed, uuid_text, uuid_to_text, Uuid};
use crate::json::{json_quoted, json_string};
use crate::lines::contains_text;
use crate::models::{RouterTargetResponse, UpdateRouterTargetRequest};
use crate::rows::{named_id, named_id_fault, or_fault, unless};
use crate::secrets::{is_envelope, seal_fault, seal_text, SecretBox};
use crate::text::{
    byte_count, byte_len, chars_of, copy_text, occurs_in, opt_text, same_text, trim, trimmed,
};
use crate::urls::{parse_url, trim_end_slashes, url_parsed, without_end_slashes, UrlView};

verus! {

/// What the credential of a router belongs to.
pub open spec fn context_of(gateway_id: Uuid) -> Seq<char> {
    "router-gateway:"@ + uuid_text(gateway_id)
}

/// What the credential of a router belongs to.
pub fn context(gateway_id: Uuid) -> (r: String)
    ensures
        r@ == context_of(gateway_id),
{
    String::from_str("router-gateway:").concat(uuid_to_text(gateway_id).as_str())
}

/// The gateway of a site in the database.
pub struct RouterRow {
    pub id: String,
    pub kind: String,
    pub router_url: Option<String>,
}

/// Why a site has no router with credentials.
pub open spec fn router_fault(row: Option<RouterRow>) -> Option<ErrorView> {
    match row {
        None => Some(not_found("site does not exist"@)),
        Some(g) => or_fault(
            unless(
                g.kind@ == "mikrotik"@,
                validation("router credentials apply only to MikroTik sites"@),
            ),
            named_id_fault(g.id@, "gateway"@),
        ),
    }
}

/// The id of the gateway of a site that is a router with credentials.
pub fn router_of_site(row: &Option<RouterRow>) -> (r: Result<Uuid, ApiError>)
    ensures
        match r {
            Ok(id) => router_fault(*row) is None && row is Some && uuid_parsed(row->0.id@) == Ok::<
                Uuid,
                Seq<char>,
            >(id),
            Err(e) => router_fault(*row) == Some(e@),
        },
{
    match row {
        None => Err(not_found_error("site does not exist")),
        Some(gateway) => {
            if !same_text(gateway.kind.as_str(), "mikrotik") {
                return Err(validation_error("router credentials apply only to MikroTik sites"));
            }
            named_id(gateway.id.as_str(), "gateway")
        },
    }
}

/// Whether a response tells of a credential without its secrets.
pub open spec fn tells(r: RouterTargetResponse, configured: bool, credential: GatewayCredential) -> bool {
    &&& r.configured == configured
    &&& r.base_url@ == credential.base_url@
    &&& r.username@ == credential.username@
    &&& r.has_password == (credential.password@.len() > 0)
    &&& r.has_ca_certificate == (credential.ca_certificate_pem@.len() > 0)
}

/// What is told of a credential.
pub fn response(configured: bool, credential: &GatewayCredential) -> (r: RouterTargetResponse)
    ensures
        tells(r, configured, *credential),
{
    RouterTargetResponse {
        configured,
        base_url: copy_text(&credential.base_url),
        username: copy_text(&credential.username),
        has_password: chars_of(credential.password.as_str()).len() > 0,
        has_ca_certificate: chars_of(credential.ca_certificate_pem.as_str()).len() > 0,
    }
}

/// What is told of the router of a site, with its credential where one is kept.
pub fn get_for_site(row: &Option<RouterRow>, credential: &Option<GatewayCredential>) -> (r: Result<
    RouterTargetResponse,
    ApiError,
>)
    ensures
        match r {
            Ok(t) => {
                &&& router_fault(*row) is None
                &&& match *credential {
                    Some(c) => tells(t, true, c),
                    None => {
                        &&& !t.configured && !t.has_password && !t.has_ca_certificate
                        &&& t.username@.len() == 0
                        &&& t.base_url@ == (match row->0.router_url {
                            Some(url) => url@,
                            None => Seq::<char>::empty(),
                        })
                    },
                }
            },
            Err(e) => router_fault(*row) == Some(e@),
        },
{
    let _ = router_of_site(row)?;
    match credential {
        Some(c) => Ok(response(true, c)),
        None => {
            let base_url = match row {
                Some(gateway) => match &gateway.router_url {
                    Some(url) => copy_text(url),
                    None => String::new(),
                },
                None => String::new(),
            };
            Ok(
                RouterTargetResponse {
                    configured: false,
                    base_url,
                    username: String::new(),
                    has_password: false,
                    has_ca_certificate: false,
                },
            )
        },
    }
}

/// Whether a URL names an HTTPS origin and nothing more.
pub open spec fn is_https_origin(url: UrlView) -> bool {
    &&& url.scheme == "https"@
    &&& url.has_host
    &&& url.path.len() == 0 || url.path == "/"@
    &&& url.query is None
    &&& url.fragment is None
    &&& url.username.len() == 0
    &&& url.password is None
}

/// What is wrong with the URL of a router.
pub open spec fn url_fault(value: Seq<char>) -> Option<ErrorView> {
    match url_parsed(trimmed(value)) {
        Err(_) => Some(validation("RouterOS base URL is invalid"@)),
        Ok(url) => unless(
            is_https_origin(url),
            validation(
                "RouterOS base URL must be an HTTPS origin without credentials, /rest, query, or fragment"@,
            ),
        ),
    }
}

/// The URL of a router in its normal form.
pub fn validate_url(value: &str) -> (r: Result<String, ApiError>)
    ensures
        match r {
            Ok(text) => url_fault(value@) is None && (url_parsed(trimmed(value@)) matches Ok(url)
                && text@ == url.text),
            Err(e) => url_fault(value@) == Some(e@),
        },
{
    let short = trim(value);
    let url = match parse_url(short.as_str()) {
        Ok(parts) => parts,
        Err(_) => return Err(validation_error("RouterOS base URL is invalid")),
    };
    if !same_text(url.scheme.as_str(), "https") || !url.has_host || !(chars_of(
        url.path.as_str(),
    ).len() == 0 || same_text(url.path.as_str(), "/")) || url.query.is_some()
        || url.fragment.is_some() || chars_of(url.username.as_str()).len() > 0
        || url.password.is_some() {
        return Err(
            validation_error(
                "RouterOS base URL must be an HTTPS origin without credentials, /rest, query, or fragment",
            ),
        );
    }
    Ok(url.text)
}

/// A new value, or the one that was kept.
pub open spec fn kept_or(new: Option<Seq<char>>, old: Option<Seq<char>>) -> Seq<char> {
    match (new, old) {
        (Some(v), _) => v,
        (None, Some(v)) => v,
        (None, None) => Seq::empty(),
    }
}

fn keep_or(new: &Option<String>, old: Option<&String>) -> (r: String)
    ensures
        r@ == kept_or(
            opt_text(*new),
            match old {
                Some(v) => Some(v@),
                None => None,
            },
        ),
{
    match new {
        Some(v) => copy_text(v),
        None => match old {
            Some(v) => copy_text(v),
            None => String::new(),
        },
    }
}

/// The password that a request leaves in place.
pub open spec fn next_password(
    request: UpdateRouterTargetRequest,
    old: Option<GatewayCredential>,
) -> Seq<char> {
    kept_or(
        opt_text(request.password),
        match old {
            Some(c) => Some(c.password@),
            None => None,
        },
    )
}

/// The certificates that a request leaves in place.
pub open spec fn next_certificate(
    request: UpdateRouterTargetRequest,
    old: Option<GatewayCredential>,
) -> Seq<char> {
    kept_or(
        opt_text(request.ca_certificate_pem),
        match old {
            Some(c) => Some(c.ca_certificate_pem@),
            None => None,
        },
    )
}

/// What is wrong with the way in which a router is to be reached.
pub open spec fn target_fault(
    request: UpdateRouterTargetRequest,
    old: Option<GatewayCredential>,
) -> Option<ErrorView> {
    let username = trimmed(request.username@);
    let certificate = next_certificate(request, old);
    or_fault(
        url_fault(request.base_url@),
        if username.len() == 0 || byte_count(username) > 128 {
            Some(validation("RouterOS username must contain 1-128 characters"@))
        } else if next_password(request, old).len() == 0 {
            Some(validation("RouterOS password is required"@))
        } else if trimmed(certificate).len() == 0 {
            Some(validation("RouterOS CA certificate is required"@))
        } else if byte_count(certificate) > 262144 || !occurs_in(
            "-----BEGIN CERTIFICATE-----"@,
            certificate,
        ) {
            Some(
                validation(
                    "RouterOS CA certificate must be a PEM certificate bundle smaller than 256 KiB"@,
                ),
            )
        } else {
            None
        },
    )
}

/// The credential that a request leads to: what it does not say stays as it was.
pub open spec fn is_next_credential(
    c: GatewayCredential,
    request: UpdateRouterTargetRequest,
    old: Option<GatewayCredential>,
) -> bool {
    &&& c.backend@ == "mikrotik"@
    &&& (url_parsed(trimmed(request.base_url@)) matches Ok(url) && c.base_url@
        == without_end_slashes(url.text))
    &&& c.username@ == trimmed(request.username@)
    &&& c.password@ == next_password(request, old)
    &&& c.ca_certificate_pem@ == next_certificate(request, old)
}

/// The credential that a request leads to.
pub fn next_credential(request: &UpdateRouterTargetRequest, old: &Option<GatewayCredential>) -> (r:
    Result<GatewayCredential, ApiError>)
    ensures
        match r {
            Ok(c) => target_fault(*request, *old) is None && is_next_credential(c, *request, *old),
            Err(e) => target_fault(*request, *old) == Some(e@),
        },
{
    let url = validate_url(request.base_url.as_str())?;
    let username = trim(request.username.as_str());
    if chars_of(username.as_str()).len() == 0 || byte_len(username.as_str()) > 128 {
        return Err(validation_error("RouterOS username must contain 1-128 characters"));
    }
    let (old_password, old_certificate) = match old {
        Some(c) => (Some(&c.password), Some(&c.ca_certificate_pem)),
        None => (None, None),
    };
    let password = keep_or(&request.password, old_password);
    if chars_of(password.as_str()).len() == 0 {
        return Err(validation_error("RouterOS password is required"));
    }
    let certificate = keep_or(&request.ca_certificate_pem, old_certificate);
    let inner = trim(certificate.as_str());
    if chars_of(inner.as_str()).len() == 0 {
        return Err(validation_error("RouterOS CA certificate is required"));
    }
    if byte_len(certificate.as_str()) > 262144 || !contains_text(
        certificate.as_str(),
        "-----BEGIN CERTIFICATE-----",
    ) {
        return Err(
            validation_error(
                "RouterOS CA certificate must be a PEM certificate bundle smaller than 256 KiB",
            ),
        );
    }
    Ok(
        GatewayCredential {
            backend: String::from_str("mikrotik"),
            base_url: trim_end_slashes(url.as_str()),
            username,
            password,
            ca_certificate_pem: certificate,
        },
    )
}

/// A credential as a JSON object.
pub open spec fn credential_json(c: GatewayCredential) -> Seq<char> {
    "{\"backend\":"@ + json_quoted(c.backend@) + ",\"base_url\":"@ + json_quoted(c.base_url@)
        + ",\"username\":"@ + json_quoted(c.username@) + ",\"password\":"@ + json_quoted(
        c.password@,
    ) + ",\"ca_certificate_pem\":"@ + json_quoted(c.ca_certificate_pem@) + "}"@
}

/// A credential as a JSON object, as the agent of the router is sent it.
pub fn credential_text(c: &GatewayCredential) -> (r: String)
    ensures
        r@ == credential_json(*c),
{
    String::from_str("{\"backend\":").concat(json_string(c.backend.as_str()).as_str()).concat(
        ",\"base_url\":",
    ).concat(json_string(c.base_url.as_str()).as_str()).concat(",\"username\":").concat(
        json_string(c.username.as_str()).as_str(),
    ).concat(",\"password\":").concat(json_string(c.password.as_str()).as_str()).concat(
        ",\"ca_certificate_pem\":",
    ).concat(json_string(c.ca_certificate_pem.as_str()).as_str()).concat("}")
}

/// What changing the way in which a router is reached changes.
pub struct RouterUpdate {
    pub gateway_id: Uuid,
    pub router_url: String,
    pub envelope: Vec<u8>,
    pub audit: AuditEntry,
    pub details_json: String,
    pub response: RouterTargetResponse,
}

/// Whether an update keeps a credential, sealed for its gateway, and tells of it without secrets.
pub open spec fn keeps_credential(
    u: RouterUpdate,
    key: Seq<u8>,
    actor: Uuid,
    gateway_id: Uuid,
    c: GatewayCredential,
) -> bool {
    &&& u.gateway_id == gateway_id
    &&& u.router_url@ == c.base_url@
    &&& is_envelope(key, context_of(gateway_id), encode_utf8(credential_json(c)), u.envelope@)
    &&& u.audit.by_user(actor, "router.credentials.update"@, "gateway"@, Some(gateway_id))
    &&& u.details_json@ == "{\"base_url\":"@ + json_quoted(c.base_url@) + ",\"username\":"@
        + json_quoted(c.username@) + "}"@
    &&& tells(u.response, true, c)
}

/// What changing the way in which a router is reached changes. The password and the certificates
/// stay as they were where the request does not say.
pub fn update_for_site(
    secrets: &SecretBox,
    actor: Uuid,
    gateway_id: Uuid,
    old: &Option<GatewayCredential>,
    request: &UpdateRouterTargetRequest,
) -> (r: Result<RouterUpdate, ApiError>)
    ensures
        match target_fault(*request, *old) {
            Some(e) => r matches Err(f) && f@ == e,
            None => match r {
                Ok(u) => exists|c: GatewayCredential|
                    is_next_credential(c, *request, *old) && seal_fault(credential_json(c)) is None
                        && #[trigger] keeps_credential(
                        u,
                        secrets.master_key(),
                        actor,
                        gateway_id,
                        c,
                    ),
                Err(e) => exists|c: GatewayCredential|
                    is_next_credential(c, *request, *old) && #[trigger] seal_fault(
                        credential_json(c),
                    ) == Some(e@),
            },
        },
{
    let credential = next_credential(request, old)?;
    let mut secret = credential_text(&credential);
    let owner = context(gateway_id);
    let sealed = seal_text(secrets, owner.as_str(), secret.as_str());
    wipe_text(&mut secret);
    let envelope = sealed?;
    let details_json = String::from_str("{\"base_url\":").concat(
        json_string(credential.base_url.as_str()).as_str(),
    ).concat(",\"username\":").concat(json_string(credential.username.as_str()).as_str()).concat(
        "}",
    );
    let update = RouterUpdate {
        gateway_id,
        router_url: copy_text(&credential.base_url),
        envelope,
        audit: user_did(actor, "router.credentials.update", "gateway", Some(gateway_id)),
        details_json,
        response: response(true, &credential),
    };
    assert(keeps_credential(update, secrets.master_key(), actor, gateway_id, credential));
    Ok(update)
}

/// What the agent of a gateway is to be sent: nothing, unless the gateway is a router with a
/// credential.
pub open spec fn payload_of(
    kind: Option<Seq<char>>,
    credential: Option<GatewayCredential>,
) -> Result<Option<Seq<char>>, ErrorView> {
    match kind {
        None => Err(not_found("gateway does not exist"@)),
        Some(k) => if k != "mikrotik"@ {
            Ok(None)
        } else {
            match credential {
                Some(c) => Ok(Some(credential_json(c))),
                None => Ok(None),
            }
        },
    }
}

/// What the agent of a gateway is to be sent.
pub fn payload_for_gateway(kind: Option<&str>, credential: &Option<GatewayCredential>) -> (r: Result<
    Option<String>,
    ApiError,
>)
    ensures
        match r {
            Ok(p) => payload_of(crate::rows::opt_str(kind), *credential) == Ok::<
                Option<Seq<char>>,
                ErrorView,
            >(opt_text(p)),
            Err(e) => payload_of(crate::rows::opt_str(kind), *credential) == Err::<
                Option<Seq<char>>,
                ErrorView,
            >(e@),
        },
{
    match kind {
        None => Err(not_found_error("gateway does not exist")),
        Some(k) => {
            if !same_text(k, "mikrotik") {
                return Ok(None);
            }
            match credential {
                Some(c) => Ok(Some(credential_text(c))),
                None => Ok(None),
            }
        },
    }
}

/// What is told of a router does not depend on the secrets that are kept for it, only on whether
/// there are any.
pub proof fn law_responses_hold_no_secrets(
    a: GatewayCredential,
    b: GatewayCredential,
    configured: bool,
    r: RouterTargetResponse,
)
    requires
        tells(r, configured, a),
        a.base_url@ == b.base_url@,
        a.username@ == b.username@,
        a.password@.len() > 0 <==> b.password@.len() > 0,
        a.ca_certificate_pem@.len() > 0 <==> b.ca_certificate_pem@.len() > 0,
    ensures
        tells(r, configured, b),
{
}

} // verus!
