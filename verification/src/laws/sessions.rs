//! What signing in promises: passwords, one-time tokens and sessions.

use vstd::prelude::*;
use vstd::utf8::encode_utf8;

use crate::auth::{
    argon2_accepts, bootstrap_plan_fault, bootstrap_user, consumes, cookie_text, cookie_token,
    establish_fault, is_token, issue_fault, issues, login_fault, password_fault, phc_fault,
    session_fault, stored_verdict, token_fault, token_in_headers, AccountRow, BootstrapIds,
    BootstrapUser, ConsumePlan, IssueIds, IssuePlan, LoginRow, NewToken, Principal, SessionRow,
    TokenPurpose, TokenRow, TokenUserRow,
};
use crate::crypto::sha256;
use crate::ids::{uuid_parsed, Uuid};
use crate::lines::{fields_of, is_suffix};
use crate::text::{
    before, decimal, lemma_first_place, lowercased, occurs_in, text_no_later, trimmed,
};
use crate::time::Timestamp;

verus! {

/// A text comes no later than another if it is the beginning of it, or if the first character in
/// which they differ comes before that of the other.
pub proof fn law_texts_are_ordered_by_their_first_difference(a: Seq<char>, b: Seq<char>, k: int)
    requires
        0 <= k <= a.len(),
        k <= b.len(),
        forall|i: int| 0 <= i < k ==> #[trigger] a[i] == b[i],
    ensures
        k == a.len() ==> text_no_later(a, b),
        k == b.len() && k < a.len() ==> !text_no_later(a, b),
        k < a.len() && k < b.len() && a[k] < b[k] ==> text_no_later(a, b),
        k < a.len() && k < b.len() && a[k] > b[k] ==> !text_no_later(a, b),
    decreases k,
{
    if k > 0 {
        let (x, y) = (a.drop_first(), b.drop_first());
        assert(a[0] == b[0]);
        assert forall|i: int| 0 <= i < k - 1 implies #[trigger] x[i] == y[i] by {
            assert(a[i + 1] == b[i + 1]);
        }
        law_texts_are_ordered_by_their_first_difference(x, y, k - 1);
    }
}

/// A session lets somebody in if and only if a token was sent, a session has it, the session has
/// not expired, and the user is neither disabled by hand nor by a directory nor deleted.
pub proof fn law_sessions_are_for_enabled_users(
    token: Option<Seq<char>>,
    row: Option<SessionRow>,
    now: Seq<char>,
)
    ensures
        session_fault(token, row, now) is None <==> {
            &&& token is Some
            &&& row is Some
            &&& !text_no_later(row->0.expires_at@, now)
            &&& !row->0.account.manual_disabled
            &&& !row->0.account.ldap_disabled
            &&& row->0.account.soft_deleted_at is None
            &&& uuid_parsed(row->0.account.id@) is Ok
        },
{
}

/// A one-time token is accepted if and only if it was issued for what it is used for, was not used
/// before, has not expired, and its user is neither disabled by hand nor by a directory nor
/// deleted.
pub proof fn law_tokens_serve_their_purpose_once(row: TokenRow, purpose: TokenPurpose, now: Seq<char>)
    ensures
        token_fault(None, purpose, now) is Some,
        token_fault(Some(row), purpose, now) is None <==> {
            &&& row.purpose@ == (match purpose {
                TokenPurpose::Enrollment => "enrollment"@,
                TokenPurpose::Reset => "reset"@,
            })
            &&& row.consumed_at is None
            &&& !text_no_later(row.expires_at@, now)
            &&& !row.account.manual_disabled
            &&& !row.account.ldap_disabled
            &&& row.account.soft_deleted_at is None
            &&& uuid_parsed(row.account.id@) is Ok
        },
{
}

/// A token is kept by its digest alone; one to enrol with is good for seven days, and one to set
/// another password for an hour.
pub proof fn law_tokens_are_kept_by_their_digests(
    t: NewToken,
    id: Uuid,
    user_id: Uuid,
    purpose: TokenPurpose,
    token: Seq<char>,
    now: Timestamp,
)
    requires
        is_token(t, id, user_id, purpose, token, now),
    ensures
        t.user_id == user_id,
        t.token_hash@ == sha256(encode_utf8(token)),
        purpose == TokenPurpose::Enrollment ==> crate::time::later_text(now, 604800)
            == Some(t.expires_at@),
        purpose == TokenPurpose::Reset ==> crate::time::later_text(now, 3600) == Some(
            t.expires_at@,
        ),
{
}

/// Somebody signs in with a password if and only if the address is known, the user is neither
/// disabled by hand nor by a directory nor deleted, and the password is the one whose hash is
/// kept.
pub proof fn law_passwords_let_enabled_users_in(login: LoginRow, password: Seq<char>)
    ensures
        login_fault(
            Some(login),
            stored_verdict(login.password_hash@, encode_utf8(password)),
        ) is None ==> {
            &&& !login.account.manual_disabled
            &&& !login.account.ldap_disabled
            &&& login.account.soft_deleted_at is None
            &&& phc_fault(login.password_hash@) is None
            &&& argon2_accepts(login.password_hash@, encode_utf8(password))
            &&& uuid_parsed(login.account.id@) is Ok
        },
        forall|verdict: Result<bool, Seq<char>>|
            (#[trigger] login_fault(Some(login), verdict)) is None <==> verdict == Ok::<
                bool,
                Seq<char>,
            >(true) && !login.account.manual_disabled && !login.account.ldap_disabled
                && login.account.soft_deleted_at is None && uuid_parsed(login.account.id@) is Ok,
        forall|verdict: Result<bool, Seq<char>>| (#[trigger] login_fault(None, verdict)) is Some,
{
}

/// A user whom a provider vouches for is let in if and only if there is such a user, who is
/// neither disabled by hand nor by a directory nor deleted.
pub proof fn law_providers_let_enabled_users_in(row: AccountRow)
    ensures
        establish_fault(None) is Some,
        establish_fault(Some(row)) is None <==> !row.manual_disabled && !row.ldap_disabled
            && row.soft_deleted_at is None,
{
}

/// A token is issued if and only if there is such a user, neither disabled by hand nor by a
/// directory nor deleted nor purged; one to set another password needs a password.
pub proof fn law_tokens_are_issued_to_enabled_users(row: TokenUserRow, purpose: TokenPurpose)
    ensures
        issue_fault(None, purpose) is Some,
        issue_fault(Some(row), purpose) is None <==> {
            &&& !row.manual_disabled
            &&& !row.ldap_disabled
            &&& row.soft_deleted_at is None
            &&& row.purged_at is None
            &&& purpose == TokenPurpose::Reset ==> row.has_password
        },
{
}

/// A password has at least twelve characters and takes no more than 1024 bytes.
pub proof fn law_passwords_are_long_enough(password: Seq<char>)
    ensures
        password_fault(password) is None <==> password.len() >= 12 && encode_utf8(password).len()
            <= 1024,
{
}

/// A bearer's token is what follows the word; else it is the value of the first cookie of the
/// session's name.
pub proof fn law_session_tokens_are_found(
    authorization: Option<Seq<char>>,
    cookie: Option<Seq<char>>,
    token: Seq<char>,
)
    ensures
        authorization == Some("Bearer "@ + token) ==> token_in_headers(authorization, cookie)
            == Some(token),
        authorization is None && cookie is None ==> token_in_headers(authorization, cookie) is None,
        authorization is None && cookie is Some ==> token_in_headers(authorization, cookie)
            == cookie_token(fields_of(cookie->0, ';')),
{
    if authorization == Some("Bearer "@ + token) {
        assert("Bearer "@.is_prefix_of("Bearer "@ + token)) by {
            assert("Bearer "@ =~= ("Bearer "@ + token).subrange(0, "Bearer "@.len() as int));
        }
        assert(("Bearer "@ + token).skip("Bearer "@.len() as int) =~= token);
    }
}

/// The token among cookies is the value of one whose name is that of the session; where there is
/// one of that name, there is a token.
pub proof fn law_cookies_are_told_by_their_names(parts: Seq<Seq<char>>)
    ensures
        cookie_token(parts) matches Some(token) ==> exists|i: int|
            0 <= i < parts.len() && trimmed(#[trigger] parts[i]) == "wiremesh_session="@ + token,
        (exists|i: int, token: Seq<char>|
            0 <= i < parts.len() && trimmed(#[trigger] parts[i]) == #[trigger] (
            "wiremesh_session="@ + token)) ==> cookie_token(parts) is Some,
    decreases parts.len(),
{
    reveal_strlit("wiremesh_session=");
    reveal_strlit("wiremesh_session");
    let name = "wiremesh_session"@;
    assert("wiremesh_session="@ =~= name + seq!['=']);
    assert(!name.contains('='));
    if parts.len() > 0 {
        let rest = parts.drop_first();
        law_cookies_are_told_by_their_names(rest);
        let first = trimmed(parts[0]);
        lemma_first_place(first, '=');
        if first.contains('=') {
            let k = crate::text::first_place(first, '=');
            crate::text::lemma_before(first, '=', k);
            assert(first =~= first.take(k) + seq!['='] + first.skip(k + 1));
        }
        if cookie_token(parts) is Some {
            let token = cookie_token(parts)->0;
            if first.contains('=') && before(first, '=') == name {
                assert(first =~= "wiremesh_session="@ + token);
                assert(trimmed(parts[0]) == "wiremesh_session="@ + token);
            } else {
                let i = choose|i: int|
                    0 <= i < rest.len() && trimmed(#[trigger] rest[i]) == "wiremesh_session="@
                        + token;
                assert(parts[i + 1] == rest[i]);
            }
        }
        if exists|i: int, token: Seq<char>|
            0 <= i < parts.len() && trimmed(#[trigger] parts[i]) == #[trigger] (
            "wiremesh_session="@ + token) {
            let (i, token) = choose|i: int, token: Seq<char>|
                0 <= i < parts.len() && trimmed(#[trigger] parts[i]) == #[trigger] (
                "wiremesh_session="@ + token);
            if i == 0 {
                crate::text::lemma_split_first(name, '=', token);
                assert("wiremesh_session="@ + token =~= name + seq!['='] + token);
            } else {
                assert(rest[i - 1] == parts[i]);
            }
        }
    }
}

/// A session's cookie holds the token, is sent over TLS and to this installation alone, is kept from
/// scripts, and lasts for twelve hours.
pub proof fn law_cookies_are_kept_from_others(token: Seq<char>)
    ensures
        ("wiremesh_session="@ + token + ";"@).is_prefix_of(cookie_text(token)),
        occurs_in("; HttpOnly"@, cookie_text(token)),
        occurs_in("; Secure"@, cookie_text(token)),
        occurs_in("; SameSite=Strict"@, cookie_text(token)),
        is_suffix("; Max-Age="@ + decimal(43200), cookie_text(token)),
{
    let text = cookie_text(token);
    reveal_strlit("wiremesh_session");
    reveal_strlit("wiremesh_session=");
    reveal_strlit("=");
    reveal_strlit(";");
    reveal_strlit("; Path=/; HttpOnly; Secure; SameSite=Strict; Max-Age=");
    reveal_strlit("; HttpOnly");
    reveal_strlit("; Secure");
    reveal_strlit("; SameSite=Strict");
    reveal_strlit("; Max-Age=");
    let first = "wiremesh_session="@ + token;
    let rest = "; Path=/; HttpOnly; Secure; SameSite=Strict; Max-Age="@;
    let begin = first + ";"@;
    let days = decimal(43200);
    assert(text =~= first + rest + days);
    assert(text.subrange(0, begin.len() as int) =~= begin);
    let n = first.len() as int;
    assert(text.subrange(n + 8, n + 8 + "; HttpOnly"@.len()) =~= "; HttpOnly"@);
    assert(text.subrange(n + 18, n + 18 + "; Secure"@.len()) =~= "; Secure"@);
    assert(text.subrange(n + 26, n + 26 + "; SameSite=Strict"@.len()) =~= "; SameSite=Strict"@);
    assert(text.skip(n + 43) =~= "; Max-Age="@ + days);
}

/// A one-time token sets the password of its own user and is then used up; one to set another
/// password ends the user's sessions.
pub proof fn law_tokens_set_the_password_of_their_user(
    plan: ConsumePlan,
    row: TokenRow,
    purpose: TokenPurpose,
    hash: Seq<char>,
)
    requires
        consumes(plan, row, purpose, hash),
    ensures
        uuid_parsed(row.account.id@) == Ok::<Uuid, Seq<char>>(plan.user_id),
        plan.token_id@ == row.id@,
        plan.password_hash@ == hash,
        plan.end_sessions <==> purpose == TokenPurpose::Reset,
        plan.audit.actor_user_id == Some(plan.user_id),
        purpose == TokenPurpose::Enrollment ==> plan.audit.action@ == "auth.enroll"@,
        purpose == TokenPurpose::Reset ==> plan.audit.action@ == "auth.reset"@,
{
}

/// A token that is issued goes to the user's own address, sealed for that message; somebody who
/// enrols and has no account of this installation gets one.
pub proof fn law_issued_tokens_go_to_their_user(
    plan: IssuePlan,
    key: Seq<u8>,
    actor: Uuid,
    user_id: Uuid,
    row: TokenUserRow,
    purpose: TokenPurpose,
    ids: IssueIds,
    token: Seq<char>,
    now: Timestamp,
)
    requires
        issues(plan, key, actor, user_id, row, purpose, ids, token, now),
    ensures
        plan.token.user_id == user_id,
        plan.token.token_hash@ == sha256(encode_utf8(token)),
        plan.token.purpose == purpose,
        plan.identity is Some <==> purpose == TokenPurpose::Enrollment && !row.has_local_identity,
        plan.identity is Some ==> plan.identity->0.user_id == user_id && plan.identity->0.email@
            == row.email@,
        plan.job.recipient@ == row.email@,
        purpose == TokenPurpose::Enrollment ==> plan.job.template@ == "enrollment"@,
        purpose == TokenPurpose::Reset ==> plan.job.template@ == "reset"@,
        crate::secrets::is_envelope(
            key,
            "mail-job:"@ + crate::ids::uuid_text(ids.job),
            encode_utf8("{\"token\":"@ + crate::json::json_quoted(token) + "}"@),
            plan.job.secret_envelope@,
        ),
        plan.audit.actor_user_id == Some(actor),
        plan.audit.object_id == Some(user_id),
        plan.response.user_id == user_id,
        plan.response.token@ == token,
        plan.response.expires_at@ == plan.token.expires_at@,
{
}

/// The first administrator is the user with the address, or else a new one with it and a name.
pub proof fn law_first_administrators_have_an_address_and_a_name(
    user: BootstrapUser,
    email: Seq<char>,
    name: Seq<char>,
    existing: Option<Seq<char>>,
    ids: BootstrapIds,
    now: Timestamp,
)
    requires
        bootstrap_plan_fault(email, name, existing, now) is None,
        bootstrap_user(user, email, name, existing, ids),
    ensures
        crate::identity::is_email(lowercased(trimmed(email))),
        trimmed(name).len() > 0,
        existing is Some ==> (user matches BootstrapUser::Enable { id } && uuid_parsed(existing->0)
            == Ok::<Uuid, Seq<char>>(id)),
        existing is None ==> (user matches BootstrapUser::Create { id, email: e, name: n, .. } && id
            == ids.user && e@ == lowercased(trimmed(email)) && n@ == trimmed(name)),
        crate::time::later_text(now, 604800) is Some,
{
}

/// A point in time comes after another if its seconds do, or, within one second, its nanoseconds; it
/// is moved by seconds as long as they can be counted.
pub proof fn law_times_are_in_order(a: Timestamp, b: Timestamp, seconds: int)
    ensures
        a.is_after(b) ==> a.secs >= b.secs,
        a.secs > b.secs ==> a.is_after(b),
        a.secs == b.secs ==> (a.is_after(b) <==> a.nanos > b.nanos),
        a.later(seconds) is Some <==> i64::MIN <= a.secs + seconds <= i64::MAX,
        a.later(seconds) is Some ==> a.later(seconds)->0.secs == a.secs + seconds && a.later(
            seconds,
        )->0.nanos == a.nanos,
        crate::time::later_text(a, seconds) is Some ==> a.later(seconds) is Some
            && crate::time::later_text(a, seconds) == crate::time::time_text(
            (a.secs + seconds) as i64,
            a.nanos,
        ),
{
}

/// Somebody who signed in is who the account says.
pub proof fn law_sessions_are_those_of_the_account(row: AccountRow, p: Principal, is_admin: bool)
    requires
        row.is_principal(p, is_admin),
    ensures
        uuid_parsed(row.id@) == Ok::<Uuid, Seq<char>>(p.id),
        p.email@ == row.email@,
        p.name@ == row.name@,
        p.is_admin == is_admin,
{
}
} // verus!
