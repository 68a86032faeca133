//! How mail is sent, what it says, and when it is tried again.

use vstd::prelude::*;
use vstd::string::*;
use vstd::utf8::encode_utf8;

use crate::audit::{user_did, AuditEntry};
use crate::error::{internal, internal_error, validation, validation_error, ApiError, ErrorView};
use crate::ids::Uuid;
use crate::json::{canonical_json, json_canonical, json_quoted, json_string, json_members, json_unquoted, member_of, object_members, pair_texts, string_value};
use crate::models::{SmtpSecurity, SmtpSettingsResponse, UpdateSmtpSettingsRequest};
use crate::rows::{opt_str, unless};
use crate::text::{
    chars_of, copy_option, copy_text, is_text_no_later, opt_text, same_text, slice_text,
    text_no_later, trim, trimmed,
};
use crate::time::{later_text, render_later, Timestamp};
use crate::urls::{parse_url, trim_end_slashes, url_parsed, without_end_slashes};

verus! {

/// What the settings for mail belong to as a secret.
pub const SECRET_CONTEXT: &'static str = "smtp-settings:1";

/// How often a message is tried.
pub const MAX_ATTEMPTS: i64 = 10;

/// Whether `lettre` reads a text as a mailbox.
pub uninterp spec fn mailbox_parsed(s: Seq<char>) -> bool;

/// Calls the `FromStr` of `lettre::message::Mailbox`: whether it succeeds, [`mailbox_parsed`] of
/// the text.
#[verifier::external_body]
fn reads_mailbox(s: &str) -> (r: bool)
    ensures
        r == mailbox_parsed(s@),
{
    s.parse::<lettre::message::Mailbox>().is_ok()
}

/// How mail is sent.
#[derive(Debug, Clone)]
pub struct StoredSmtpConfig {
    pub host: String,
    pub port: u16,
    pub security: SmtpSecurity,
    pub username: Option<String>,
    pub password: Option<String>,
    pub from_address: String,
    pub public_base_url: String,
}

/// Whether a response tells of the settings without the password.
pub open spec fn tells_settings(r: SmtpSettingsResponse, enabled: bool, c: StoredSmtpConfig) -> bool {
    &&& r.configured
    &&& r.enabled == enabled
    &&& r.host@ == c.host@
    &&& r.port == c.port
    &&& r.security == c.security
    &&& opt_text(r.username) == opt_text(c.username)
    &&& r.has_password == (c.password is Some)
    &&& r.from_address@ == c.from_address@
    &&& r.public_base_url@ == c.public_base_url@
}

/// What is told of the settings.
pub fn response(enabled: bool, c: &StoredSmtpConfig) -> (r: SmtpSettingsResponse)
    ensures
        tells_settings(r, enabled, *c),
{
    SmtpSettingsResponse {
        configured: true,
        enabled,
        host: copy_text(&c.host),
        port: c.port,
        security: c.security,
        username: copy_option(&c.username),
        has_password: c.password.is_some(),
        from_address: copy_text(&c.from_address),
        public_base_url: copy_text(&c.public_base_url),
    }
}

/// What is told of the settings, where there may be none.
pub fn get_settings(stored: &Option<(bool, StoredSmtpConfig)>) -> (r: SmtpSettingsResponse)
    ensures
        match *stored {
            Some(s) => tells_settings(r, s.0, s.1),
            None => {
                &&& !r.configured && !r.enabled && !r.has_password
                &&& r.host@.len() == 0 && r.from_address@.len() == 0 && r.public_base_url@.len()
                    == 0
                &&& r.port == 587
                &&& r.security == SmtpSecurity::StartTls
                &&& r.username is None
            },
        },
{
    match stored {
        Some(s) => response(s.0, &s.1),
        None => SmtpSettingsResponse {
            configured: false,
            enabled: false,
            host: String::new(),
            port: 587,
            security: SmtpSecurity::StartTls,
            username: None,
            has_password: false,
            from_address: String::new(),
            public_base_url: String::new(),
        },
    }
}

/// The password that a request leads to: an empty one takes it away, none leaves the old one.
pub open spec fn next_password(new: Option<Seq<char>>, old: Option<Seq<char>>) -> Option<Seq<char>> {
    match new {
        Some(v) => if v.len() == 0 {
            None
        } else {
            Some(v)
        },
        None => old,
    }
}

/// What is wrong with the address of the installation.
pub open spec fn base_url_fault(value: Seq<char>) -> Option<ErrorView> {
    match url_parsed(trimmed(value)) {
        Err(_) => Some(validation("public base URL is invalid"@)),
        Ok(url) => unless(
            url.scheme == "http"@ || url.scheme == "https"@,
            validation("public base URL must use HTTP or HTTPS"@),
        ),
    }
}

/// What is wrong with settings for mail.
pub open spec fn settings_fault(
    request: UpdateSmtpSettingsRequest,
    old_password: Option<Seq<char>>,
) -> Option<ErrorView> {
    if trimmed(request.host@).len() == 0 || request.port == 0 {
        Some(validation("SMTP host and port are required"@))
    } else if !mailbox_parsed(request.from_address@) {
        Some(validation("SMTP sender address is invalid"@))
    } else if base_url_fault(request.public_base_url@) is Some {
        base_url_fault(request.public_base_url@)
    } else if request.username is Some && request.username->0@.len() == 0 {
        Some(validation("SMTP username cannot be empty"@))
    } else if request.enabled && (request.username is Some) != (next_password(
        opt_text(request.password),
        old_password,
    ) is Some) {
        Some(validation("SMTP username and password must be configured together"@))
    } else {
        None
    }
}

/// What changing the settings for mail changes.
pub struct SettingsUpdate {
    pub enabled: bool,
    pub config: StoredSmtpConfig,
    pub audit: AuditEntry,
    pub object_id: &'static str,
    pub details_json: String,
    pub response: SmtpSettingsResponse,
}

/// The settings that a request leads to.
pub open spec fn is_next_config(
    c: StoredSmtpConfig,
    request: UpdateSmtpSettingsRequest,
    old_password: Option<Seq<char>>,
) -> bool {
    &&& c.host@ == trimmed(request.host@)
    &&& c.port == request.port
    &&& c.security == request.security
    &&& opt_text(c.username) == opt_text(request.username)
    &&& opt_text(c.password) == next_password(opt_text(request.password), old_password)
    &&& c.from_address@ == trimmed(request.from_address@)
    &&& (url_parsed(trimmed(request.public_base_url@)) matches Ok(url) && c.public_base_url@
        == without_end_slashes(url.text))
}

/// What is written down of a change of the settings.
pub open spec fn settings_details(enabled: bool, host: Seq<char>) -> Seq<char> {
    (if enabled {
        "{\"enabled\":true,\"host\":"@
    } else {
        "{\"enabled\":false,\"host\":"@
    }) + json_quoted(host) + "}"@
}

/// What changing the settings for mail changes.
pub fn update_settings(
    actor: Uuid,
    request: &UpdateSmtpSettingsRequest,
    old_password: &Option<String>,
) -> (r: Result<SettingsUpdate, ApiError>)
    ensures
        match r {
            Ok(u) => {
                &&& settings_fault(*request, opt_text(*old_password)) is None
                &&& is_next_config(u.config, *request, opt_text(*old_password))
                &&& u.enabled == request.enabled
                &&& u.audit.by_user(actor, "smtp.settings.update"@, "smtp_settings"@, None)
                &&& u.object_id@ == "1"@
                &&& u.details_json@ == settings_details(request.enabled, u.config.host@)
                &&& tells_settings(u.response, request.enabled, u.config)
            },
            Err(e) => settings_fault(*request, opt_text(*old_password)) == Some(e@),
        },
{
    let host = trim(request.host.as_str());
    if chars_of(host.as_str()).len() == 0 || request.port == 0 {
        return Err(validation_error("SMTP host and port are required"));
    }
    if !reads_mailbox(request.from_address.as_str()) {
        return Err(validation_error("SMTP sender address is invalid"));
    }
    let short = trim(request.public_base_url.as_str());
    let url = match parse_url(short.as_str()) {
        Ok(parts) => parts,
        Err(_) => return Err(validation_error("public base URL is invalid")),
    };
    if !same_text(url.scheme.as_str(), "http") && !same_text(url.scheme.as_str(), "https") {
        return Err(validation_error("public base URL must use HTTP or HTTPS"));
    }
    let password = match &request.password {
        Some(value) => if chars_of(value.as_str()).len() == 0 {
            None
        } else {
            Some(copy_text(value))
        },
        None => copy_option(old_password),
    };
    if let Some(username) = &request.username {
        if chars_of(username.as_str()).len() == 0 {
            return Err(validation_error("SMTP username cannot be empty"));
        }
    }
    if request.enabled && request.username.is_some() != password.is_some() {
        return Err(validation_error("SMTP username and password must be configured together"));
    }
    let config = StoredSmtpConfig {
        host,
        port: request.port,
        security: request.security,
        username: copy_option(&request.username),
        password,
        from_address: trim(request.from_address.as_str()),
        public_base_url: trim_end_slashes(url.text.as_str()),
    };
    let start = if request.enabled {
        "{\"enabled\":true,\"host\":"
    } else {
        "{\"enabled\":false,\"host\":"
    };
    let details_json = String::from_str(start).concat(
        json_string(config.host.as_str()).as_str(),
    ).concat("}");
    let told = response(request.enabled, &config);
    Ok(
        SettingsUpdate {
            enabled: request.enabled,
            config,
            audit: user_did(actor, "smtp.settings.update", "smtp_settings", None),
            object_id: "1",
            details_json,
            response: told,
        },
    )
}

/// The member with a key of the parameters of a message: its secret goes before what it says
/// openly, where both are JSON objects.
pub open spec fn parameter(
    parameters: Seq<char>,
    secret: Option<Seq<char>>,
    key: Seq<char>,
) -> Option<Seq<char>> {
    match json_members(parameters) {
        None => None,
        Some(open) => {
            let value = match secret {
                Some(s) => match json_members(s) {
                    Some(hidden) => match member_of(hidden, key) {
                        Some(v) => Some(v),
                        None => member_of(open, key),
                    },
                    None => member_of(open, key),
                },
                None => member_of(open, key),
            };
            match value {
                Some(v) => json_unquoted(v),
                None => None,
            }
        },
    }
}

/// Lets parameters pass that are JSON.
pub fn check_parameters(parameters: &str) -> (r: Result<(), ApiError>)
    ensures
        match json_canonical(encode_utf8(parameters@)) {
            Ok(_) => r is Ok,
            Err(message) => r matches Err(e) && e@ == internal(message),
        },
{
    match canonical_json(parameters.as_bytes()) {
        Ok(_) => Ok(()),
        Err(message) => Err(internal_error(message.as_str())),
    }
}

/// The value of the member with a key among some members.
pub fn member_text(members: &[(String, String)], key: &str) -> (r: Option<String>)
    ensures
        opt_text(r) == member_of(pair_texts(members@), key@),
{
    let ghost all = pair_texts(members@);
    let mut i: usize = 0;
    assert(all.skip(0) =~= all);
    while i < members.len()
        invariant
            i <= members@.len(),
            all == pair_texts(members@),
            member_of(all, key@) == member_of(all.skip(i as int), key@),
        decreases members@.len() - i,
    {
        assert(all.skip(i as int)[0] == (members@[i as int].0@, members@[i as int].1@));
        if same_text(members[i].0.as_str(), key) {
            return Some(copy_text(&members[i].1));
        }
        assert(all.skip(i as int).drop_first() =~= all.skip(i + 1));
        i = i + 1;
    }
    None
}

/// The text of a parameter of a message.
pub fn parameter_text(parameters: &str, secret: Option<&str>, key: &str) -> (r: Option<String>)
    ensures
        opt_text(r) == parameter(parameters@, opt_str(secret), key@),
{
    match object_members(parameters) {
        None => None,
        Some(open) => {
            let hidden = match secret {
                Some(s) => match object_members(s) {
                    Some(members) => member_text(members.as_slice(), key),
                    None => None,
                },
                None => None,
            };
            let value = match hidden {
                Some(v) => Some(v),
                None => member_text(open.as_slice(), key),
            };
            match value {
                Some(v) => string_value(v.as_str()),
                None => None,
            }
        },
    }
}

/// A text, or another one where there is none.
pub open spec fn text_or(s: Option<Seq<char>>, other: Seq<char>) -> Seq<char> {
    match s {
        Some(v) => v,
        None => other,
    }
}

fn or_text(s: Option<String>, other: &str) -> (r: String)
    ensures
        r@ == text_or(opt_text(s), other@),
{
    match s {
        Some(v) => v,
        None => other.to_owned(),
    }
}

/// The subject and the body of a message.
pub open spec fn message_of(
    template: Seq<char>,
    parameters: Seq<char>,
    secret: Option<Seq<char>>,
    base_url: Seq<char>,
) -> (Seq<char>, Seq<char>) {
    if template == "pool_migration"@ {
        (
            "WireMesh VPN address migration scheduled"@,
            "Your WireMesh VPN address will change at "@ + text_or(
                parameter(parameters, secret, "effective_at"@),
                "the scheduled time"@,
            ) + ". After that time, sign in at "@ + base_url
                + " to download or update your profile.\n\nNo private key or complete profile is included in this email.\n"@,
        )
    } else if template == "enrollment"@ {
        (
            "Complete your WireMesh enrollment"@,
            "Open "@ + base_url + "/?enrollment="@ + text_or(
                parameter(parameters, secret, "token"@),
                ""@,
            )
                + " to complete enrollment. This link expires in seven days and works once.\n"@,
        )
    } else if template == "reset"@ {
        (
            "Reset your WireMesh account"@,
            "Open "@ + base_url + "/?reset="@ + text_or(
                parameter(parameters, secret, "token"@),
                ""@,
            ) + " to choose a new password. This link expires in one hour and works once.\n"@,
        )
    } else if template == "access_change"@ {
        (
            "Your WireMesh access changed"@,
            "Your VPN access changed. Review it at "@ + base_url + ".\n"@,
        )
    } else if template == "profile_change"@ {
        (
            "Your WireMesh profile changed"@,
            "Your VPN profile changed. Review it at "@ + base_url + ".\n"@,
        )
    } else {
        (
            "WireMesh notification"@,
            "A WireMesh account event is available at "@ + base_url + ".\n"@,
        )
    }
}

/// The subject and the body of a message.
pub fn render(template: &str, parameters: &str, secret: Option<&str>, base_url: &str) -> (r: (
    String,
    String,
))
    ensures
        (r.0@, r.1@) == message_of(template@, parameters@, opt_str(secret), base_url@),
{
    if same_text(template, "pool_migration") {
        let at = or_text(
            parameter_text(parameters, secret, "effective_at"),
            "the scheduled time",
        );
        (
            String::from_str("WireMesh VPN address migration scheduled"),
            String::from_str("Your WireMesh VPN address will change at ").concat(
                at.as_str(),
            ).concat(". After that time, sign in at ").concat(base_url).concat(
                " to download or update your profile.\n\nNo private key or complete profile is included in this email.\n",
            ),
        )
    } else if same_text(template, "enrollment") {
        let token = or_text(parameter_text(parameters, secret, "token"), "");
        (
            String::from_str("Complete your WireMesh enrollment"),
            String::from_str("Open ").concat(base_url).concat("/?enrollment=").concat(
                token.as_str(),
            ).concat(" to complete enrollment. This link expires in seven days and works once.\n"),
        )
    } else if same_text(template, "reset") {
        let token = or_text(parameter_text(parameters, secret, "token"), "");
        (
            String::from_str("Reset your WireMesh account"),
            String::from_str("Open ").concat(base_url).concat("/?reset=").concat(
                token.as_str(),
            ).concat(" to choose a new password. This link expires in one hour and works once.\n"),
        )
    } else if same_text(template, "access_change") {
        (
            String::from_str("Your WireMesh access changed"),
            String::from_str("Your VPN access changed. Review it at ").concat(base_url).concat(
                ".\n",
            ),
        )
    } else if same_text(template, "profile_change") {
        (
            String::from_str("Your WireMesh profile changed"),
            String::from_str("Your VPN profile changed. Review it at ").concat(base_url).concat(
                ".\n",
            ),
        )
    } else {
        (
            String::from_str("WireMesh notification"),
            String::from_str("A WireMesh account event is available at ").concat(base_url).concat(
                ".\n",
            ),
        )
    }
}

/// The first 500 characters of a text.
pub open spec fn truncated(s: Seq<char>) -> Seq<char> {
    if s.len() <= 500 {
        s
    } else {
        s.take(500)
    }
}

/// The first 500 characters of what an error says.
pub fn truncate_error(value: &str) -> (r: String)
    ensures
        r@ == truncated(value@),
{
    let chars = chars_of(value);
    let to = if chars.len() <= 500 {
        chars.len()
    } else {
        500
    };
    assert(chars@.subrange(0, to as int) =~= truncated(value@));
    slice_text(chars.as_slice(), 0, to)
}

/// A message in the queue.
pub struct MailJobRow {
    pub id: String,
    pub status: String,
    pub next_attempt_at: String,
    pub created_at: String,
    pub claimed_at: Option<String>,
}

impl MailJobRow {
    /// Whether sending the message was begun and not ended, so long ago that it is begun anew.
    pub open spec fn abandoned(self, five_minutes_ago: Seq<char>) -> bool {
        self.status@ == "sending"@ && (self.claimed_at is None || text_no_later(
            self.claimed_at->0@,
            five_minutes_ago,
        ))
    }

    /// Whether the message is to be sent now.
    pub open spec fn due(self, now: Seq<char>) -> bool {
        self.status@ == "pending"@ && text_no_later(self.next_attempt_at@, now)
    }

    /// Whether sending the message is begun anew.
    pub fn is_abandoned(&self, five_minutes_ago: &str) -> (r: bool)
        ensures
            r == self.abandoned(five_minutes_ago@),
    {
        same_text(self.status.as_str(), "sending") && match &self.claimed_at {
            None => true,
            Some(at) => is_text_no_later(at.as_str(), five_minutes_ago),
        }
    }

    /// Whether the message is to be sent now.
    pub fn is_due(&self, now: &str) -> (r: bool)
        ensures
            r == self.due(now@),
    {
        same_text(self.status.as_str(), "pending") && is_text_no_later(
            self.next_attempt_at.as_str(),
            now,
        )
    }
}

/// The message to be sent next: one that is due, and none that is due was queued before it.
pub fn next_job(jobs: &[MailJobRow], now: &str) -> (r: Option<usize>)
    ensures
        match r {
            Some(i) => {
                &&& i < jobs@.len()
                &&& jobs@[i as int].due(now@)
                &&& forall|k: int|
                    0 <= k < jobs@.len() && (#[trigger] jobs@[k]).due(now@) ==> text_no_later(
                        jobs@[i as int].created_at@,
                        jobs@[k].created_at@,
                    )
                &&& forall|k: int|
                    0 <= k < i && (#[trigger] jobs@[k]).due(now@) ==> !text_no_later(
                        jobs@[k].created_at@,
                        jobs@[i as int].created_at@,
                    )
            },
            None => forall|k: int| 0 <= k < jobs@.len() ==> !(#[trigger] jobs@[k]).due(now@),
        },
{
    let mut best: Option<usize> = None;
    let mut i: usize = 0;
    while i < jobs.len()
        invariant
            i <= jobs@.len(),
            match best {
                Some(b) => {
                    &&& b < i
                    &&& jobs@[b as int].due(now@)
                    &&& forall|k: int|
                        0 <= k < i && (#[trigger] jobs@[k]).due(now@) ==> text_no_later(
                            jobs@[b as int].created_at@,
                            jobs@[k].created_at@,
                        )
                    &&& forall|k: int|
                        0 <= k < b && (#[trigger] jobs@[k]).due(now@) ==> !text_no_later(
                            jobs@[k].created_at@,
                            jobs@[b as int].created_at@,
                        )
                },
                None => forall|k: int| 0 <= k < i ==> !(#[trigger] jobs@[k]).due(now@),
            },
        decreases jobs@.len() - i,
    {
        if jobs[i].is_due(now) {
            match best {
                None => {
                    proof {
                        crate::text::lemma_text_order_total(
                            jobs@[i as int].created_at@,
                            jobs@[i as int].created_at@,
                        );
                    }
                    best = Some(i);
                },
                Some(b) => {
                    proof {
                        crate::text::lemma_text_order_total(
                            jobs@[b as int].created_at@,
                            jobs@[i as int].created_at@,
                        );
                        crate::text::lemma_text_order_total(
                            jobs@[i as int].created_at@,
                            jobs@[i as int].created_at@,
                        );
                    }
                    if !is_text_no_later(jobs[b].created_at.as_str(), jobs[i].created_at.as_str()) {
                        proof {
                            assert forall|k: int|
                                0 <= k < i && (#[trigger] jobs@[k]).due(now@) implies text_no_later(
                                jobs@[i as int].created_at@,
                                jobs@[k].created_at@,
                            ) && !text_no_later(
                                jobs@[k].created_at@,
                                jobs@[i as int].created_at@,
                            ) by {
                                crate::text::lemma_text_order_transitive(
                                    jobs@[i as int].created_at@,
                                    jobs@[b as int].created_at@,
                                    jobs@[k].created_at@,
                                );
                                if text_no_later(
                                    jobs@[k].created_at@,
                                    jobs@[i as int].created_at@,
                                ) {
                                    crate::text::lemma_text_order_transitive(
                                        jobs@[b as int].created_at@,
                                        jobs@[k].created_at@,
                                        jobs@[i as int].created_at@,
                                    );
                                }
                            }
                        }
                        best = Some(i);
                    }
                },
            }
        }
        i = i + 1;
    }
    best
}

/// Whether a message with a one-time token is of no use any more: the secret in it is erased.
pub open spec fn token_is_spent(consumed: bool, expires_at: Seq<char>, now: Seq<char>) -> bool {
    consumed || text_no_later(expires_at, now)
}

/// Whether a message with a one-time token is of no use any more.
pub fn is_token_spent(consumed: bool, expires_at: &str, now: &str) -> (r: bool)
    ensures
        r == token_is_spent(consumed, expires_at@, now@),
{
    consumed || is_text_no_later(expires_at, now)
}

/// How many minutes pass before a message is tried again: twice as many each time, up to 128.
pub open spec fn delay_minutes_after(attempts: int) -> int
    decreases attempts,
{
    if attempts <= 1 {
        1
    } else if attempts > 8 {
        128
    } else {
        2 * delay_minutes_after(attempts - 1)
    }
}

/// How many minutes pass before a message is tried again.
pub fn delay_minutes(attempts: i64) -> (r: i64)
    ensures
        r == delay_minutes_after(attempts as int),
        1 <= r <= 128,
    decreases (if attempts <= 1 { 0int } else { attempts as int }),
{
    if attempts <= 1 {
        1
    } else if attempts > 8 {
        128
    } else {
        proof {
            lemma_delay_bounds(attempts - 1);
            reveal_with_fuel(delay_minutes_after, 9);
        }
        2 * delay_minutes(attempts - 1)
    }
}

proof fn lemma_delay_bounds(attempts: int)
    requires
        attempts <= 7,
    ensures
        1 <= delay_minutes_after(attempts) <= 64,
{
    reveal_with_fuel(delay_minutes_after, 9);
}

/// The longer a message could not be sent, the longer it rests before the next attempt; it rests
/// at least one minute and at most 128.
pub proof fn law_backoff_grows(a: int, b: int)
    requires
        a <= b,
    ensures
        1 <= delay_minutes_after(a) <= delay_minutes_after(b) <= 128,
{
    reveal_with_fuel(delay_minutes_after, 9);
}

/// What an attempt to send a message changes.
pub struct MailUpdate {
    pub status: &'static str,
    pub next_attempt_at: Option<String>,
    pub last_error: Option<String>,
    pub erase_secret: bool,
}

/// What is done after a message was sent: its secret is erased.
pub fn after_sent() -> (r: MailUpdate)
    ensures
        r.status@ == "sent"@,
        r.next_attempt_at is None,
        r.last_error is None,
        r.erase_secret,
{
    MailUpdate { status: "sent", next_attempt_at: None, last_error: None, erase_secret: true }
}

/// What is done with a message whose token is of no use any more: it is not sent, and its secret
/// is erased.
pub fn after_spent() -> (r: MailUpdate)
    ensures
        r.status@ == "failed"@,
        r.next_attempt_at is None,
        opt_text(r.last_error) == Some("token expired or consumed"@),
        r.erase_secret,
{
    MailUpdate {
        status: "failed",
        next_attempt_at: None,
        last_error: Some("token expired or consumed".to_owned()),
        erase_secret: true,
    }
}

/// What is done after a message could not be sent: it is tried again later, unless it was tried
/// often enough; then its secret is erased.
pub fn after_failure(attempts: i64, error: &str, now: Timestamp) -> (r: Result<MailUpdate, ApiError>)
    ensures
        match later_text(now, delay_minutes_after(attempts as int) * 60) {
            Some(at) => {
                &&& r matches Ok(u)
                &&& u.status@ == (if attempts >= MAX_ATTEMPTS {
                    "failed"@
                } else {
                    "pending"@
                })
                &&& opt_text(u.next_attempt_at) == Some(at)
                &&& opt_text(u.last_error) == Some(truncated(error@))
                &&& u.erase_secret == (attempts >= MAX_ATTEMPTS)
            },
            None => r matches Err(e) && e@ == crate::auth::clock_fault(),
        },
{
    let failed = attempts >= MAX_ATTEMPTS;
    let minutes = delay_minutes(attempts);
    let at = render_later(now, minutes * 60)?;
    Ok(
        MailUpdate {
            status: if failed {
                "failed"
            } else {
                "pending"
            },
            next_attempt_at: Some(at),
            last_error: Some(truncate_error(error)),
            erase_secret: failed,
        },
    )
}

} // verus!
