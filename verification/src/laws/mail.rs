//! What sending mail promises.

use vstd::prelude::*;

use crate::json::{json_members, json_unquoted, member_of};
use crate::mail::{
    delay_minutes_after, is_next_config, mailbox_parsed, message_of, parameter, settings_fault,
    tells_settings, token_is_spent, truncated, MailJobRow, StoredSmtpConfig,
};
use crate::models::{SmtpSettingsResponse, UpdateSmtpSettingsRequest};
use crate::text::{occurs_in, text_no_later, trimmed};
use crate::urls::url_parsed;

verus! {

/// Mail settings are accepted if and only if there are a host and a port, the sender is a mailbox,
/// the address of the installation is an HTTP one, and a user name has characters; while mail is
/// sent, a user name and a password come together.
pub proof fn law_mail_settings_are_complete(
    request: UpdateSmtpSettingsRequest,
    old_password: Option<Seq<char>>,
)
    ensures
        settings_fault(request, old_password) is None <==> {
            &&& trimmed(request.host@).len() > 0
            &&& request.port > 0
            &&& mailbox_parsed(request.from_address@)
            &&& url_parsed(trimmed(request.public_base_url@)) matches Ok(url) && (url.scheme
                == "http"@ || url.scheme == "https"@)
            &&& request.username is Some ==> request.username->0@.len() > 0
            &&& request.enabled ==> (request.username is Some <==> (request.password is Some
                && request.password->0@.len() > 0 || request.password is None
                && old_password is Some))
        },
{
}

/// A password that is given replaces the one before, an empty one removes it, and without one it
/// stays.
pub proof fn law_mail_passwords_are_kept(
    c: StoredSmtpConfig,
    request: UpdateSmtpSettingsRequest,
    old_password: Option<Seq<char>>,
)
    requires
        is_next_config(c, request, old_password),
    ensures
        request.password is Some && request.password->0@.len() > 0 ==> c.password is Some
            && c.password->0@ == request.password->0@,
        request.password is Some && request.password->0@.len() == 0 ==> c.password is None,
        request.password is None && old_password is None ==> c.password is None,
        request.password is None && old_password is Some ==> c.password is Some && c.password->0@
            == old_password->0,
        c.host@ == trimmed(request.host@),
        c.port == request.port,
        c.security == request.security,
        c.from_address@ == trimmed(request.from_address@),
{
}

/// A message is sent once its time has come and while it waits, and is taken up again if it was
/// being sent for too long.
pub proof fn law_messages_are_sent_when_due(
    job: MailJobRow,
    now: Seq<char>,
    five_minutes_ago: Seq<char>,
)
    ensures
        job.due(now) <==> job.status@ == "pending"@ && text_no_later(job.next_attempt_at@, now),
        job.abandoned(five_minutes_ago) <==> job.status@ == "sending"@ && (job.claimed_at is None
            || text_no_later(job.claimed_at->0@, five_minutes_ago)),
        token_is_spent(true, job.created_at@, now),
        token_is_spent(false, job.created_at@, now) <==> text_no_later(job.created_at@, now),
{
}

/// After the first attempt a minute passes, and after each further one twice as long, up to 128
/// minutes.
pub proof fn law_delays_double(attempts: int)
    ensures
        attempts <= 1 ==> delay_minutes_after(attempts) == 1,
        1 <= attempts < 8 ==> delay_minutes_after(attempts + 1) == 2 * delay_minutes_after(attempts),
        attempts >= 8 ==> delay_minutes_after(attempts) == 128,
{
    reveal_with_fuel(delay_minutes_after, 10);
}

/// A link in a message leads to the installation and has the token that was sealed with the
/// message; what is sealed goes before what is not.
pub proof fn law_links_have_the_sealed_token(
    parameters: Seq<char>,
    secret: Seq<char>,
    base_url: Seq<char>,
    token: Seq<char>,
    quoted: Seq<char>,
)
    requires
        json_members(parameters) is Some,
        json_members(secret) is Some,
        member_of(json_members(secret)->0, "token"@) == Some(quoted),
        json_unquoted(quoted) == Some(token),
    ensures
        occurs_in(
            base_url + "/?enrollment="@ + token,
            message_of("enrollment"@, parameters, Some(secret), base_url).1,
        ),
        occurs_in(
            base_url + "/?reset="@ + token,
            message_of("reset"@, parameters, Some(secret), base_url).1,
        ),
{
    assert(parameter(parameters, Some(secret), "token"@) == Some(token));
    reveal_strlit("enrollment");
    reveal_strlit("reset");
    reveal_strlit("pool_migration");
    assert("enrollment"@[0] == 'e' && "reset"@[0] == 'r' && "pool_migration"@[0] == 'p');
    let one = message_of("enrollment"@, parameters, Some(secret), base_url).1;
    let two = message_of("reset"@, parameters, Some(secret), base_url).1;
    let n = "Open "@.len() as int;
    let a = base_url + "/?enrollment="@ + token;
    let b = base_url + "/?reset="@ + token;
    assert(one.subrange(n, n + a.len()) =~= a);
    assert(two.subrange(n, n + b.len()) =~= b);
}

/// Mail settings are kept with their user, and the address of the installation without slashes at
/// its end; what is told of them leaves the password out.
pub proof fn law_mail_settings_are_told_without_the_password(
    c: StoredSmtpConfig,
    request: UpdateSmtpSettingsRequest,
    old_password: Option<Seq<char>>,
    r: SmtpSettingsResponse,
    enabled: bool,
)
    requires
        is_next_config(c, request, old_password),
        tells_settings(r, enabled, c),
    ensures
        c.username is Some <==> request.username is Some,
        request.username is Some ==> c.username->0@ == request.username->0@,
        url_parsed(trimmed(request.public_base_url@)) is Ok,
        c.public_base_url@ == crate::urls::without_end_slashes(
            url_parsed(trimmed(request.public_base_url@))->Ok_0.text,
        ),
        r.configured,
        r.enabled == enabled,
        r.host@ == trimmed(request.host@),
        r.port == request.port,
        r.security == request.security,
        r.username is Some <==> request.username is Some,
        r.has_password <==> c.password is Some,
        r.from_address@ == trimmed(request.from_address@),
        r.public_base_url@ == c.public_base_url@,
{
}

/// Every message leads to the installation, and the one about a migration says when it is.
pub proof fn law_messages_lead_to_the_installation(
    template: Seq<char>,
    parameters: Seq<char>,
    secret: Option<Seq<char>>,
    base_url: Seq<char>,
    at: Seq<char>,
)
    ensures
        occurs_in(base_url, message_of(template, parameters, secret, base_url).1),
        parameter(parameters, secret, "effective_at"@) == Some(at) ==> occurs_in(
            " "@ + at + "."@,
            message_of("pool_migration"@, parameters, secret, base_url).1,
        ),
        message_of("pool_migration"@, parameters, secret, base_url).0
            == "WireMesh VPN address migration scheduled"@,
        message_of("enrollment"@, parameters, secret, base_url).0
            == "Complete your WireMesh enrollment"@,
        message_of("reset"@, parameters, secret, base_url).0 == "Reset your WireMesh account"@,
        message_of("access_change"@, parameters, secret, base_url).0
            == "Your WireMesh access changed"@,
        message_of("profile_change"@, parameters, secret, base_url).0
            == "Your WireMesh profile changed"@,
{
    reveal_strlit("enrollment");
    reveal_strlit("reset");
    reveal_strlit("pool_migration");
    reveal_strlit("access_change");
    reveal_strlit("profile_change");
    assert("enrollment"@[0] == 'e' && "reset"@[0] == 'r' && "pool_migration"@[0] == 'p'
        && "pool_migration"@[1] == 'o' && "access_change"@[0] == 'a' && "profile_change"@[0] == 'p'
        && "profile_change"@[1] == 'r');
    let body = message_of(template, parameters, secret, base_url).1;
    if template == "pool_migration"@ {
        let when = crate::mail::text_or(
            parameter(parameters, secret, "effective_at"@),
            "the scheduled time"@,
        );
        let start = "Your WireMesh VPN address will change at "@ + when
            + ". After that time, sign in at "@;
        let n = start.len() as int;
        assert(body.subrange(n, n + base_url.len()) =~= base_url);
    } else if template == "enrollment"@ || template == "reset"@ {
        let n = "Open "@.len() as int;
        assert(body.subrange(n, n + base_url.len()) =~= base_url);
    } else if template == "access_change"@ {
        let n = "Your VPN access changed. Review it at "@.len() as int;
        assert(body.subrange(n, n + base_url.len()) =~= base_url);
    } else if template == "profile_change"@ {
        let n = "Your VPN profile changed. Review it at "@.len() as int;
        assert(body.subrange(n, n + base_url.len()) =~= base_url);
    } else {
        let n = "A WireMesh account event is available at "@.len() as int;
        assert(body.subrange(n, n + base_url.len()) =~= base_url);
    }
    if parameter(parameters, secret, "effective_at"@) == Some(at) {
        let told = message_of("pool_migration"@, parameters, secret, base_url).1;
        let part = " "@ + at + "."@;
        reveal_strlit(" ");
        reveal_strlit(".");
        reveal_strlit("Your WireMesh VPN address will change at ");
        reveal_strlit(". After that time, sign in at ");
        let n = "Your WireMesh VPN address will change at "@.len() - 1;
        assert(told.subrange(n, n + part.len()) =~= part);
    }
}

/// A parameter is what was sealed with the message where that has it, and else what stands in the
/// open.
pub proof fn law_sealed_parameters_go_first(
    parameters: Seq<char>,
    secret: Option<Seq<char>>,
    key: Seq<char>,
)
    ensures
        json_members(parameters) is None ==> parameter(parameters, secret, key) is None,
        json_members(parameters) is Some && secret is None && member_of(
            json_members(parameters)->0,
            key,
        ) is Some ==> parameter(parameters, secret, key) == json_unquoted(
            member_of(json_members(parameters)->0, key)->0,
        ),
        json_members(parameters) is Some && secret is Some && json_members(secret->0) is Some
            && member_of(json_members(secret->0)->0, key) is None && member_of(
            json_members(parameters)->0,
            key,
        ) is Some ==> parameter(parameters, secret, key) == json_unquoted(
            member_of(json_members(parameters)->0, key)->0,
        ),
        json_members(parameters) is Some && secret is None && member_of(
            json_members(parameters)->0,
            key,
        ) is None ==> parameter(parameters, secret, key) is None,
{
}

/// Of an error the first 500 characters are kept.
pub proof fn law_errors_are_kept_short(s: Seq<char>)
    ensures
        truncated(s).len() <= 500,
        truncated(s).is_prefix_of(s),
        s.len() <= 500 ==> truncated(s) == s,
        s.len() > 500 ==> truncated(s).len() == 500,
{
    assert(s.subrange(0, s.len() as int) =~= s);
}
} // verus!
