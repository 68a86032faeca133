//! Sessions, passwords and one-time tokens.

use vstd::prelude::*;
use vstd::string::*;
use vstd::utf8::encode_utf8;

use crate::audit::{success, user_did, AuditEntry};
use crate::crypto::{
    base64url_encode, base64url_text, random_bytes, sha256, sha256_digest, wipe_text,
};
use crate::error::{
    checks, conflict, conflict_error, forbidden, forbidden_error, identity_error, internal,
    internal_error, not_found, not_found_error, unauthorized, unauthorized_error, validation,
    validation_error, ApiError, ErrorView,
};
use crate::identity::{is_email, normalize_email, normalized, IdentityError};
use crate::ids::{uuid_parsed, uuid_text, uuid_to_text, Uuid};
use crate::json::{json_quoted, json_string};
use crate::lines::{fields_of, split_on};
use crate::models::{AuthUserResponse, BootstrapResult, IssuedTokenResponse};
use crate::rows::{id_fault, opt_str, or_fault, stored_id, unless};
use crate::secrets::{is_envelope, seal_fault, seal_text, SecretBox};
use crate::text::{
    byte_count, byte_len, chars_of, copy_text, decimal, decimal_text, is_text_no_later, leading_number,
    opt_text, read_leading_number, same_text, slice_text, split_first, split_once, strip_prefix, text_no_later, texts, trim, trimmed,
};
use crate::time::{later_text, render_later, render_time, time_text, Timestamp};

verus! {

/// The cookie that holds the token of a session.
pub const SESSION_COOKIE: &'static str = "wiremesh_session";

/// The group whose members administer the installation.
pub const ADMIN_GROUP: &'static str = "wiremesh-admins";

/// How many characters a password has at least.
pub const MINIMUM_PASSWORD_LENGTH: usize = 12;

/// How many bytes a password has at most.
pub const MAXIMUM_PASSWORD_BYTES: usize = 1024;

/// For how many hours a session is valid.
pub const SESSION_HOURS: i64 = 12;

/// For how many hours a token to enroll with is valid.
pub const ENROLLMENT_HOURS: i64 = 168;

/// For how many hours a token to reset a password with is valid.
pub const RESET_HOURS: i64 = 1;

/// Who is signed in.
#[derive(Debug, Clone)]
pub struct Principal {
    pub id: Uuid,
    pub email: String,
    pub name: String,
    pub is_admin: bool,
}

impl Principal {
    /// What is told of the principal.
    pub fn response(&self) -> (r: AuthUserResponse)
        ensures
            r.id == self.id,
            r.email@ == self.email@,
            r.name@ == self.name@,
            r.is_admin == self.is_admin,
    {
        AuthUserResponse {
            id: self.id,
            email: copy_text(&self.email),
            name: copy_text(&self.name),
            is_admin: self.is_admin,
        }
    }

    /// Lets administrators pass.
    pub fn require_admin(&self) -> (r: Result<(), ApiError>)
        ensures
            checks(r, unless(self.is_admin, forbidden("administrator access is required"@))),
    {
        if self.is_admin {
            Ok(())
        } else {
            Err(forbidden_error("administrator access is required"))
        }
    }

    /// Lets administrators pass, and the user to whom something belongs.
    pub fn require_self_or_admin(&self, user_id: Uuid) -> (r: Result<(), ApiError>)
        ensures
            checks(
                r,
                unless(
                    self.is_admin || self.id == user_id,
                    forbidden("the resource belongs to another user"@),
                ),
            ),
    {
        if self.is_admin || self.id == user_id {
            Ok(())
        } else {
            Err(forbidden_error("the resource belongs to another user"))
        }
    }
}

/// What the database says of a user who signs in.
pub struct AccountRow {
    pub id: String,
    pub email: String,
    pub name: String,
    pub manual_disabled: bool,
    pub ldap_disabled: bool,
    pub soft_deleted_at: Option<String>,
}

impl AccountRow {
    /// Whether the user may sign in.
    pub open spec fn enabled(self) -> bool {
        !self.manual_disabled && !self.ldap_disabled && self.soft_deleted_at is None
    }

    /// Why the user may not sign in.
    pub open spec fn fault(self) -> Option<ErrorView> {
        unless(self.enabled(), forbidden("user is disabled"@))
    }

    /// Lets enabled users pass.
    pub fn ensure_enabled(&self) -> (r: Result<(), ApiError>)
        ensures
            checks(r, self.fault()),
    {
        if self.manual_disabled || self.ldap_disabled || self.soft_deleted_at.is_some() {
            Err(forbidden_error("user is disabled"))
        } else {
            Ok(())
        }
    }

    /// Whether a principal is the user of the row.
    pub open spec fn is_principal(self, p: Principal, is_admin: bool) -> bool {
        &&& uuid_parsed(self.id@) == Ok::<Uuid, Seq<char>>(p.id)
        &&& p.email@ == self.email@
        &&& p.name@ == self.name@
        &&& p.is_admin == is_admin
    }

    /// The principal of the row.
    pub fn principal(&self, is_admin: bool) -> (r: Result<Principal, ApiError>)
        ensures
            match r {
                Ok(p) => self.is_principal(p, is_admin),
                Err(e) => id_fault(self.id@) == Some(e@),
            },
    {
        let id = stored_id(self.id.as_str())?;
        Ok(
            Principal {
                id,
                email: copy_text(&self.email),
                name: copy_text(&self.name),
                is_admin,
            },
        )
    }
}

/// The token in a cookie header: that of the first part that names the session cookie.
pub open spec fn cookie_token(parts: Seq<Seq<char>>) -> Option<Seq<char>>
    decreases parts.len(),
{
    if parts.len() == 0 {
        None
    } else {
        match split_first(trimmed(parts[0]), '=') {
            Some((name, value)) => if name == SESSION_COOKIE@ {
                Some(value)
            } else {
                cookie_token(parts.drop_first())
            },
            None => cookie_token(parts.drop_first()),
        }
    }
}

/// The token of the session in the headers of a request.
pub open spec fn token_in_headers(authorization: Option<Seq<char>>, cookie: Option<Seq<char>>) -> Option<
    Seq<char>,
> {
    if authorization is Some && "Bearer "@.is_prefix_of(authorization->0) {
        Some(authorization->0.skip("Bearer "@.len() as int))
    } else {
        match cookie {
            Some(c) => cookie_token(fields_of(c, ';')),
            None => None,
        }
    }
}

/// The token of the session in the headers of a request: a bearer token goes before a cookie.
pub fn session_token(authorization: Option<&str>, cookie: Option<&str>) -> (r: Option<String>)
    ensures
        opt_text(r) == token_in_headers(opt_str(authorization), opt_str(cookie)),
{
    if let Some(value) = authorization {
        if let Some(token) = strip_prefix(value, "Bearer ") {
            return Some(token);
        }
    }
    match cookie {
        None => None,
        Some(value) => {
            let parts = split_on(value, ';');
            let ghost all = texts(parts@);
            assert(all.skip(0) =~= all);
            let mut i: usize = 0;
            while i < parts.len()
                invariant
                    i <= parts.len(),
                    all == texts(parts@),
                    all == fields_of(value@, ';'),
                    cookie_token(all) == cookie_token(all.skip(i as int)),
                    cookie == Some(value),
                    opt_str(authorization) is Some ==> !"Bearer "@.is_prefix_of(
                        opt_str(authorization)->0,
                    ),
                decreases parts.len() - i,
            {
                assert(all.skip(i as int)[0] == parts@[i as int]@);
                assert(all.skip(i as int).drop_first() =~= all.skip(i + 1));
                let part = trim(parts[i].as_str());
                if let Some(pair) = split_once(part.as_str(), '=') {
                    if same_text(pair.0.as_str(), SESSION_COOKIE) {
                        return Some(pair.1);
                    }
                }
                i = i + 1;
            }
            assert(all.skip(i as int).len() == 0);
            None
        },
    }
}

/// A session in the database, and its user.
pub struct SessionRow {
    pub expires_at: String,
    pub account: AccountRow,
}

/// Why a request is not signed in.
pub open spec fn session_fault(
    token: Option<Seq<char>>,
    row: Option<SessionRow>,
    now: Seq<char>,
) -> Option<ErrorView> {
    if token is None {
        Some(unauthorized("sign in is required"@))
    } else {
        match row {
            None => Some(unauthorized("session is invalid or expired"@)),
            Some(s) => if text_no_later(s.expires_at@, now) {
                Some(unauthorized("session is invalid or expired"@))
            } else {
                or_fault(s.account.fault(), id_fault(s.account.id@))
            },
        }
    }
}

/// Who makes a request, by the session that its token names.
pub fn require_session(token: Option<&str>, row: &Option<SessionRow>, now: &str, is_admin: bool) -> (r:
    Result<Principal, ApiError>)
    ensures
        match r {
            Ok(p) => session_fault(opt_str(token), *row, now@) is None && row is Some
                && row->0.account.is_principal(p, is_admin),
            Err(e) => session_fault(opt_str(token), *row, now@) == Some(e@),
        },
{
    if token.is_none() {
        return Err(unauthorized_error("sign in is required"));
    }
    match row {
        None => Err(unauthorized_error("session is invalid or expired")),
        Some(session) => {
            if is_text_no_later(session.expires_at.as_str(), now) {
                return Err(unauthorized_error("session is invalid or expired"));
            }
            session.account.ensure_enabled()?;
            session.account.principal(is_admin)
        },
    }
}

/// Whether a password may be used.
pub open spec fn password_fault(password: Seq<char>) -> Option<ErrorView> {
    if password.len() < MINIMUM_PASSWORD_LENGTH {
        Some(validation("password must contain at least 12 characters"@))
    } else if byte_count(password) > MAXIMUM_PASSWORD_BYTES {
        Some(validation("password is too long"@))
    } else {
        None
    }
}

/// Lets passwords pass that may be used.
pub fn validate_password(password: &str) -> (r: Result<(), ApiError>)
    ensures
        checks(r, password_fault(password@)),
{
    if chars_of(password).len() < MINIMUM_PASSWORD_LENGTH {
        Err(validation_error("password must contain at least 12 characters"))
    } else if byte_len(password) > MAXIMUM_PASSWORD_BYTES {
        Err(validation_error("password is too long"))
    } else {
        Ok(())
    }
}

/// What `argon2` says of a text that is no PHC string; nothing of one that is.
pub uninterp spec fn phc_fault(hash: Seq<char>) -> Option<Seq<char>>;

/// Whether `argon2` finds that a hash is the one of a password.
pub uninterp spec fn argon2_accepts(hash: Seq<char>, password: Seq<u8>) -> bool;

/// How many lanes a hash names at most, if `argon2` is to be asked at all: it counts eight times
/// as many in 32 bits before it refuses more than 2^24 - 1.
pub const MAXIMUM_LANES: u32 = 0x1fff_ffff;

/// Whether a hash names a number of lanes, after `p=`, of which `argon2` can be asked.
pub open spec fn lanes_fit(hash: Seq<char>) -> bool {
    forall|i: int|
        0 <= i < hash.len() - 1 && #[trigger] hash[i] == 'p' && hash[i + 1] == '=' ==> !(
        leading_number(hash.skip(i + 2)) matches Some(n) && n > MAXIMUM_LANES)
}

/// Whether a hash names a number of lanes of which `argon2` can be asked.
fn has_fitting_lanes(hash: &str) -> (r: bool)
    ensures
        r == lanes_fit(hash@),
{
    let chars = chars_of(hash);
    let mut i: usize = 0;
    while i < chars.len()
        invariant
            chars@ == hash@,
            i <= chars@.len(),
            forall|k: int|
                0 <= k < i && k < hash@.len() - 1 && #[trigger] hash@[k] == 'p' && hash@[k + 1]
                    == '=' ==> !(leading_number(hash@.skip(k + 2)) matches Some(n) && n
                    > MAXIMUM_LANES),
        decreases chars@.len() - i,
    {
        if i + 1 < chars.len() && chars[i] == 'p' && chars[i + 1] == '=' {
            let rest = slice_text(chars.as_slice(), i + 2, chars.len());
            assert(rest@ =~= hash@.skip(i + 2));
            match read_leading_number(rest.as_str()) {
                Some(lanes) => if lanes > MAXIMUM_LANES {
                    assert(hash@[i as int] == 'p');
                    return false;
                },
                None => {},
            }
        }
        i = i + 1;
    }
    true
}

/// How the PHC string of an Argon2id hash of version 1.3 begins.
pub open spec fn argon2_prefix(memory: nat, passes: nat, lanes: nat) -> Seq<char> {
    "$argon2id$v=19$m="@ + decimal(memory) + ",t="@ + decimal(passes) + ",p="@ + decimal(lanes)
        + "$"@
}

/// Calls `argon2::Argon2::hash_password` with a random salt: every password of at most 2^32 - 1
/// bytes is hashed; the result is a PHC string that names Argon2id, the version and the parameters,
/// `argon2` can be asked of its lanes, and it is a hash of the password. Nothing is said of the
/// salt.
#[verifier::external_body]
fn argon2_hash(password: &[u8], memory: u32, passes: u32, lanes: u32) -> (r: Result<String, String>)
    requires
        1 <= lanes <= 0xffffff,
        lanes * 8 <= memory,
        1 <= passes,
    ensures
        password@.len() <= 0xffff_ffff ==> r is Ok,
        r matches Ok(hash) ==> phc_fault(hash@) is None,
        r matches Ok(hash) ==> lanes_fit(hash@),
        r matches Ok(hash) ==> argon2_accepts(hash@, password@),
        r matches Ok(hash) ==> argon2_prefix(memory as nat, passes as nat, lanes as nat).is_prefix_of(
            hash@,
        ),
{
    let salt = argon2::password_hash::SaltString::generate(
        &mut argon2::password_hash::rand_core::OsRng,
    );
    let params = argon2::Params::new(memory, passes, lanes, None).map_err(|e| e.to_string())?;
    let hasher = argon2::Argon2::new(argon2::Algorithm::Argon2id, argon2::Version::V0x13, params);
    argon2::password_hash::PasswordHasher::hash_password(&hasher, password, &salt).map(
        |hash| hash.to_string(),
    ).map_err(|e| e.to_string())
}

/// Calls `argon2::password_hash::PasswordHash::new`: [`phc_fault`] of the text.
#[verifier::external_body]
fn read_phc(hash: &str) -> (r: Result<(), String>)
    ensures
        match r {
            Ok(_) => phc_fault(hash@) is None,
            Err(message) => phc_fault(hash@) == Some(message@),
        },
{
    argon2::password_hash::PasswordHash::new(hash).map(|_| ()).map_err(|e| e.to_string())
}

/// Calls `argon2::Argon2::verify_password` on a PHC string: [`argon2_accepts`] of the hash and the
/// password. `argon2::Params::new` multiplies the lanes by eight before it tests them, so a hash
/// that names too many is left out.
#[verifier::external_body]
fn argon2_verify(hash: &str, password: &[u8]) -> (r: bool)
    requires
        lanes_fit(hash@),
    ensures
        r == argon2_accepts(hash@, password@),
{
    match argon2::password_hash::PasswordHash::new(hash) {
        Ok(parsed) => argon2::password_hash::PasswordVerifier::verify_password(
            &argon2::Argon2::default(),
            password,
            &parsed,
        ).is_ok(),
        Err(_) => false,
    }
}

/// What is found of a password and a hash, with the view of the text.
pub open spec fn verdict_view(verdict: Result<bool, String>) -> Result<bool, Seq<char>> {
    match verdict {
        Ok(matches) => Ok(matches),
        Err(message) => Err(message@),
    }
}

/// What is found of a password and a stored hash: whether it is the hash of the password, or what
/// is said of a text that is no hash. A hash with more lanes than there can be is that of no
/// password.
pub open spec fn stored_verdict(hash: Seq<char>, password: Seq<u8>) -> Result<bool, Seq<char>> {
    match phc_fault(hash) {
        Some(message) => Err(message),
        None => Ok(lanes_fit(hash) && argon2_accepts(hash, password)),
    }
}

/// What is found of a password and a stored hash.
pub fn verify_password(hash: &str, password: &str) -> (r: Result<bool, String>)
    ensures
        verdict_view(r) == stored_verdict(hash@, encode_utf8(password@)),
{
    read_phc(hash)?;
    Ok(has_fitting_lanes(hash) && argon2_verify(hash, password.as_bytes()))
}

/// The memory of a hash in kibibytes.
pub const ARGON2_MEMORY: u32 = 65536;

/// The passes of a hash over its memory.
pub const ARGON2_PASSES: u32 = 3;

/// The lanes of a hash.
pub const ARGON2_LANES: u32 = 1;

/// Whether a hash is one of a password, with the parameters of this library.
pub open spec fn is_hash(hash: Seq<char>, password: Seq<char>) -> bool {
    &&& stored_verdict(hash, encode_utf8(password)) == Ok::<bool, Seq<char>>(true)
    &&& argon2_prefix(65536, 3, 1).is_prefix_of(hash)
}

/// A hash of a password, to be kept in its place. With it the password is accepted again.
pub fn hash_password(password: &str) -> (r: Result<String, ApiError>)
    ensures
        byte_count(password@) <= 0xffff_ffff ==> r is Ok,
        match r {
            Ok(hash) => is_hash(hash@, password@),
            Err(e) => e is Internal,
        },
{
    match argon2_hash(password.as_bytes(), ARGON2_MEMORY, ARGON2_PASSES, ARGON2_LANES) {
        Ok(hash) => Ok(hash),
        Err(message) => Err(internal_error(message.as_str())),
    }
}

/// A token: 32 random bytes in base64 for URLs.
pub fn random_token() -> (r: String)
    ensures
        exists|bytes: Seq<u8>| bytes.len() == 32 && r@ == #[trigger] base64url_text(bytes),
        r@.len() == 43,
{
    let bytes = random_bytes(32);
    base64url_encode(bytes.as_slice())
}

/// A secret: 32 random bytes in base64 for URLs.
pub fn random_secret() -> (r: String)
    ensures
        exists|bytes: Seq<u8>| bytes.len() == 32 && r@ == #[trigger] base64url_text(bytes),
        r@.len() == 43,
{
    random_token()
}

/// What is kept of a token: its SHA-256 digest.
pub fn token_digest(token: &[u8]) -> (r: Vec<u8>)
    ensures
        r@ == sha256(token@),
        r@.len() == 32,
{
    sha256_digest(token)
}

/// What is kept of a token in text form.
pub open spec fn digest_of(token: Seq<char>) -> Seq<u8> {
    sha256(encode_utf8(token))
}

/// The header that sets the session cookie.
pub open spec fn cookie_text(token: Seq<char>) -> Seq<char> {
    SESSION_COOKIE@ + "="@ + token + "; Path=/; HttpOnly; Secure; SameSite=Strict; Max-Age="@
        + decimal(43200)
}

/// The header that sets the session cookie for as long as a session is valid.
pub fn session_cookie(token: &str) -> (r: String)
    ensures
        r@ == cookie_text(token@),
{
    let seconds: u64 = 43200;
    String::from_str(SESSION_COOKIE).concat("=").concat(token).concat(
        "; Path=/; HttpOnly; Secure; SameSite=Strict; Max-Age=",
    ).concat(decimal_text(seconds).as_str())
}

/// The header that removes the session cookie.
pub fn clear_session_cookie() -> (r: &'static str)
    ensures
        r@ == "wiremesh_session=; Path=/; HttpOnly; Secure; SameSite=Strict; Max-Age=0"@,
{
    "wiremesh_session=; Path=/; HttpOnly; Secure; SameSite=Strict; Max-Age=0"
}

/// A session to be written to the database.
pub struct NewSession {
    pub id: Uuid,
    pub user_id: Uuid,
    pub token_hash: Vec<u8>,
    pub expires_at: String,
    pub created_at: String,
}

/// What the clock cannot write.
pub open spec fn clock_fault() -> ErrorView {
    internal("timestamp is out of range"@)
}

/// The session of a user that begins now, for a token that was drawn. Only the digest of the
/// token is kept.
pub fn create_session(id: Uuid, user_id: Uuid, token: &str, now: Timestamp) -> (r: Result<
    NewSession,
    ApiError,
>)
    ensures
        match (later_text(now, SESSION_HOURS * 3600), time_text(now.secs, now.nanos)) {
            (Some(expires), Some(created)) => {
                &&& r matches Ok(s)
                &&& s.id == id
                &&& s.user_id == user_id
                &&& s.token_hash@ == digest_of(token@)
                &&& s.expires_at@ == expires
                &&& s.created_at@ == created
            },
            _ => r matches Err(e) && e@ == clock_fault(),
        },
{
    let expires_at = render_later(now, SESSION_HOURS * 3600)?;
    let created_at = render_time(now)?;
    Ok(
        NewSession {
            id,
            user_id,
            token_hash: token_digest(token.as_bytes()),
            expires_at,
            created_at,
        },
    )
}

/// What a one-time token is for.
#[derive(Debug, Clone, Copy, PartialEq, Eq, Structural)]
pub enum TokenPurpose {
    Enrollment,
    Reset,
}

impl TokenPurpose {
    /// The name of the purpose.
    pub open spec fn name(self) -> Seq<char> {
        match self {
            TokenPurpose::Enrollment => "enrollment"@,
            TokenPurpose::Reset => "reset"@,
        }
    }

    /// For how many hours a token for the purpose is valid.
    pub open spec fn hours(self) -> i64 {
        match self {
            TokenPurpose::Enrollment => ENROLLMENT_HOURS,
            TokenPurpose::Reset => RESET_HOURS,
        }
    }

    /// The name of the purpose.
    pub fn as_str(self) -> (r: &'static str)
        ensures
            r@ == self.name(),
    {
        match self {
            TokenPurpose::Enrollment => "enrollment",
            TokenPurpose::Reset => "reset",
        }
    }

    /// For how many hours a token for the purpose is valid.
    pub fn lifetime_hours(self) -> (r: i64)
        ensures
            r == self.hours(),
            0 < r <= 168,
    {
        match self {
            TokenPurpose::Enrollment => ENROLLMENT_HOURS,
            TokenPurpose::Reset => RESET_HOURS,
        }
    }
}

/// A one-time token in the database, and its user.
pub struct TokenRow {
    pub id: String,
    pub purpose: String,
    pub consumed_at: Option<String>,
    pub expires_at: String,
    pub account: AccountRow,
}

impl TokenRow {
    /// Whether the token can be used for a purpose at a time.
    pub open spec fn usable(self, purpose: TokenPurpose, now: Seq<char>) -> bool {
        &&& self.purpose@ == purpose.name()
        &&& self.consumed_at is None
        &&& !text_no_later(self.expires_at@, now)
    }

    /// The token after it was used.
    pub open spec fn consumed(self, at: String) -> TokenRow {
        TokenRow { consumed_at: Some(at), ..self }
    }

    /// Whether the token can be used for a purpose at a time.
    pub fn is_usable(&self, purpose: TokenPurpose, now: &str) -> (r: bool)
        ensures
            r == self.usable(purpose, now@),
    {
        same_text(self.purpose.as_str(), purpose.as_str()) && self.consumed_at.is_none()
            && !is_text_no_later(self.expires_at.as_str(), now)
    }
}

/// A token that was used once cannot be used again, for whatever and whenever.
pub proof fn law_tokens_are_single_use(
    row: TokenRow,
    at: String,
    purpose: TokenPurpose,
    now: Seq<char>,
)
    ensures
        !row.consumed(at).usable(purpose, now),
        token_fault(Some(row.consumed(at)), purpose, now) == Some(
            unauthorized(purpose.name() + " token is invalid or expired"@),
        ),
{
}

/// Why a token is refused.
pub open spec fn token_fault(row: Option<TokenRow>, purpose: TokenPurpose, now: Seq<char>) -> Option<
    ErrorView,
> {
    if row is None || !row->0.usable(purpose, now) {
        Some(unauthorized(purpose.name() + " token is invalid or expired"@))
    } else {
        or_fault(row->0.account.fault(), id_fault(row->0.account.id@))
    }
}

/// What using a token changes.
pub struct ConsumePlan {
    pub user_id: Uuid,
    pub token_id: String,
    pub password_hash: String,
    /// Whether the sessions of the user end.
    pub end_sessions: bool,
    /// What is said of messages with the token that were not sent.
    pub superseded: &'static str,
    pub audit: AuditEntry,
}

/// Whether a plan is the one of using a token for a password with a given hash.
pub open spec fn consumes(
    plan: ConsumePlan,
    row: TokenRow,
    purpose: TokenPurpose,
    hash: Seq<char>,
) -> bool {
    &&& uuid_parsed(row.account.id@) == Ok::<Uuid, Seq<char>>(plan.user_id)
    &&& plan.token_id@ == row.id@
    &&& plan.password_hash@ == hash
    &&& plan.end_sessions == (purpose == TokenPurpose::Reset)
    &&& plan.superseded@ == "token already consumed"@
    &&& plan.audit.by_user(
        plan.user_id,
        match purpose {
            TokenPurpose::Enrollment => "auth.enroll"@,
            TokenPurpose::Reset => "auth.reset"@,
        },
        "session"@,
        None,
    )
}

/// What using a token changes, for the hash of the password. Resetting a password ends the
/// sessions of the user; enrolling does not.
pub fn plan_consumption(row: &Option<TokenRow>, purpose: TokenPurpose, now: &str, hash: &str) -> (r:
    Result<ConsumePlan, ApiError>)
    ensures
        match r {
            Ok(plan) => token_fault(*row, purpose, now@) is None && row is Some && consumes(
                plan,
                row->0,
                purpose,
                hash@,
            ),
            Err(e) => token_fault(*row, purpose, now@) == Some(e@),
        },
{
    match row {
        Some(token) => {
            if !token.is_usable(purpose, now) {
                return Err(refused_token(purpose));
            }
            token.account.ensure_enabled()?;
            let user_id = stored_id(token.account.id.as_str())?;
            let action = match purpose {
                TokenPurpose::Enrollment => "auth.enroll",
                TokenPurpose::Reset => "auth.reset",
            };
            Ok(
                ConsumePlan {
                    user_id,
                    token_id: copy_text(&token.id),
                    password_hash: hash.to_owned(),
                    end_sessions: match purpose {
                        TokenPurpose::Enrollment => false,
                        TokenPurpose::Reset => true,
                    },
                    superseded: "token already consumed",
                    audit: user_did(user_id, action, "session", None),
                },
            )
        },
        None => Err(refused_token(purpose)),
    }
}

fn refused_token(purpose: TokenPurpose) -> (r: ApiError)
    ensures
        r@ == unauthorized(purpose.name() + " token is invalid or expired"@),
{
    unauthorized_error(
        String::from_str(purpose.as_str()).concat(" token is invalid or expired").as_str(),
    )
}

/// What using a token for a new password changes. A password that may not be used is refused
/// before the token is looked at, and a refused token leaves nothing changed.
pub fn consume_password_token(
    password: &str,
    row: &Option<TokenRow>,
    purpose: TokenPurpose,
    now: &str,
) -> (r: Result<ConsumePlan, ApiError>)
    ensures
        match or_fault(password_fault(password@), token_fault(*row, purpose, now@)) {
            Some(e) => r matches Err(f) && f@ == e,
            None => {
                &&& r matches Ok(plan)
                &&& row is Some && consumes(plan, row->0, purpose, plan.password_hash@)
                &&& is_hash(plan.password_hash@, password@)
            },
        },
{
    validate_password(password)?;
    match plan_consumption(row, purpose, now, "") {
        Err(e) => Err(e),
        Ok(_) => {
            let hash = hash_password(password)?;
            plan_consumption(row, purpose, now, hash.as_str())
        },
    }
}

/// A user with a local password in the database.
pub struct LoginRow {
    pub account: AccountRow,
    pub password_hash: String,
}

/// Why a login is refused, given what is found of the password.
pub open spec fn login_fault(row: Option<LoginRow>, verdict: Result<bool, Seq<char>>) -> Option<
    ErrorView,
> {
    match row {
        None => Some(unauthorized("email or password is incorrect"@)),
        Some(l) => if !l.account.enabled() {
            Some(forbidden("user is disabled"@))
        } else {
            match verdict {
                Err(message) => Some(internal(message)),
                Ok(false) => Some(unauthorized("email or password is incorrect"@)),
                Ok(true) => id_fault(l.account.id@),
            }
        },
    }
}

/// Whom a login lets in, given what is found of the password.
pub fn decide_login(row: &Option<LoginRow>, verdict: &Result<bool, String>) -> (r: Result<
    Uuid,
    ApiError,
>)
    ensures
        match r {
            Ok(id) => login_fault(*row, verdict_view(*verdict)) is None && row is Some
                && uuid_parsed(row->0.account.id@) == Ok::<Uuid, Seq<char>>(id),
            Err(e) => login_fault(*row, verdict_view(*verdict)) == Some(e@),
        },
{
    match row {
        None => Err(unauthorized_error("email or password is incorrect")),
        Some(login) => {
            login.account.ensure_enabled()?;
            match verdict {
                Err(message) => Err(internal_error(message.as_str())),
                Ok(false) => Err(unauthorized_error("email or password is incorrect")),
                Ok(true) => stored_id(login.account.id.as_str()),
            }
        },
    }
}

/// Whom a login lets in: the user with the address, where the password is that of the hash.
pub fn login_local(row: &Option<LoginRow>, password: &str) -> (r: Result<Uuid, ApiError>)
    ensures
        ({
            let verdict = match *row {
                Some(l) => stored_verdict(l.password_hash@, encode_utf8(password@)),
                None => Ok(false),
            };
            match r {
                Ok(id) => login_fault(*row, verdict) is None && row is Some && uuid_parsed(
                    row->0.account.id@,
                ) == Ok::<Uuid, Seq<char>>(id),
                Err(e) => login_fault(*row, verdict) == Some(e@),
            }
        }),
{
    let verdict = match row {
        Some(login) => verify_password(login.password_hash.as_str(), password),
        None => Ok(false),
    };
    decide_login(row, &verdict)
}

/// An unknown address and a wrong password are answered alike.
pub proof fn law_logins_do_not_disclose_accounts(login: LoginRow, verdict: Result<bool, Seq<char>>)
    requires
        login.account.enabled(),
    ensures
        login_fault(Some(login), Ok(false)) == login_fault(None, verdict),
{
}

/// A password that was set is accepted at the next login of an enabled user.
pub proof fn law_set_passwords_are_accepted(login: LoginRow, id: Uuid, password: Seq<char>)
    requires
        is_hash(login.password_hash@, password),
        login.account.enabled(),
        uuid_parsed(login.account.id@) == Ok::<Uuid, Seq<char>>(id),
    ensures
        login_fault(
            Some(login),
            stored_verdict(login.password_hash@, encode_utf8(password)),
        ) is None,
{
}

/// Why no session is opened for a user whom an identity provider vouches for.
pub open spec fn establish_fault(row: Option<AccountRow>) -> Option<ErrorView> {
    match row {
        None => Some(unauthorized("linked user does not exist"@)),
        Some(a) => a.fault(),
    }
}

/// Lets users pass for whom a session can be opened.
pub fn establish_session(row: &Option<AccountRow>) -> (r: Result<(), ApiError>)
    ensures
        checks(r, establish_fault(*row)),
{
    match row {
        None => Err(unauthorized_error("linked user does not exist")),
        Some(account) => account.ensure_enabled(),
    }
}

/// A one-time token to be written to the database.
pub struct NewToken {
    pub id: Uuid,
    pub user_id: Uuid,
    pub purpose: TokenPurpose,
    pub token_hash: Vec<u8>,
    pub expires_at: String,
    pub created_at: String,
}

/// Whether a new token is as it should be.
pub open spec fn is_token(
    t: NewToken,
    id: Uuid,
    user_id: Uuid,
    purpose: TokenPurpose,
    token: Seq<char>,
    now: Timestamp,
) -> bool {
    &&& t.id == id
    &&& t.user_id == user_id
    &&& t.purpose == purpose
    &&& t.token_hash@ == digest_of(token)
    &&& later_text(now, purpose.hours() * 3600) == Some(t.expires_at@)
    &&& time_text(now.secs, now.nanos) == Some(t.created_at@)
}

/// Whether the clock can write the times of a token.
pub open spec fn token_times_fault(purpose: TokenPurpose, now: Timestamp) -> Option<ErrorView> {
    unless(
        later_text(now, purpose.hours() * 3600) is Some && time_text(now.secs, now.nanos) is Some,
        clock_fault(),
    )
}

fn new_token(id: Uuid, user_id: Uuid, purpose: TokenPurpose, token: &str, now: Timestamp) -> (r:
    Result<NewToken, ApiError>)
    ensures
        match r {
            Ok(t) => is_token(t, id, user_id, purpose, token@, now),
            Err(e) => token_times_fault(purpose, now) == Some(e@),
        },
{
    let expires_at = render_later(now, purpose.lifetime_hours() * 3600)?;
    let created_at = render_time(now)?;
    Ok(
        NewToken {
            id,
            user_id,
            purpose,
            token_hash: token_digest(token.as_bytes()),
            expires_at,
            created_at,
        },
    )
}

/// A local identity to be written to the database.
pub struct NewLocalIdentity {
    pub id: Uuid,
    pub user_id: Uuid,
    pub email: String,
}

/// What setting up an administrator does to the user.
pub enum BootstrapUser {
    /// Enables a user that exists.
    Enable { id: Uuid },
    /// Creates a user with a local identity.
    Create { id: Uuid, email: String, name: String, identity_id: Uuid },
}

impl BootstrapUser {
    /// The id of the user.
    pub open spec fn user_id(self) -> Uuid {
        match self {
            BootstrapUser::Enable { id } => id,
            BootstrapUser::Create { id, .. } => id,
        }
    }
}

/// The ids that setting up an administrator may need.
#[derive(Debug, Clone, Copy)]
pub struct BootstrapIds {
    pub user: Uuid,
    pub identity: Uuid,
    pub group: Uuid,
    pub membership: Uuid,
    pub token: Uuid,
}

/// What setting up an administrator changes.
pub struct BootstrapPlan {
    pub user: BootstrapUser,
    /// The id of the group of administrators, and whether it is to be created.
    pub group_id: String,
    pub create_group: bool,
    pub membership_id: Uuid,
    pub token: NewToken,
    pub audit: AuditEntry,
    pub result: BootstrapResult,
}

/// The name of the group of administrators for people.
pub const ADMIN_GROUP_DISPLAY_NAME: &'static str = "WireMesh Administrators";

/// Why an administrator cannot be set up, by what is asked for.
pub open spec fn bootstrap_fault(email: Seq<char>, name: Seq<char>) -> Option<ErrorView> {
    if !is_email(normalized(email)) {
        Some(validation(IdentityError::InvalidEmail.text()))
    } else if trimmed(name).len() == 0 {
        Some(validation("name is required"@))
    } else {
        None
    }
}

/// The address and the name of an administrator to be set up.
pub fn check_bootstrap(email: &str, name: &str) -> (r: Result<(String, String), ApiError>)
    ensures
        match r {
            Ok(p) => {
                &&& bootstrap_fault(email@, name@) is None
                &&& p.0@ == normalized(email@)
                &&& p.1@ == trimmed(name@)
            },
            Err(e) => bootstrap_fault(email@, name@) == Some(e@),
        },
{
    let normal = match normalize_email(email) {
        Ok(e) => e,
        Err(error) => return Err(identity_error(&error)),
    };
    let short = trim(name);
    if chars_of(short.as_str()).len() == 0 {
        return Err(validation_error("name is required"));
    }
    Ok((normal, short))
}

/// What setting up an administrator does to the user.
pub open spec fn bootstrap_user(
    user: BootstrapUser,
    email: Seq<char>,
    name: Seq<char>,
    existing: Option<Seq<char>>,
    ids: BootstrapIds,
) -> bool {
    match existing {
        Some(s) => user matches BootstrapUser::Enable { id } && uuid_parsed(s) == Ok::<
            Uuid,
            Seq<char>,
        >(id),
        None => user matches BootstrapUser::Create { id, email: e, name: n, identity_id } && id
            == ids.user && e@ == normalized(email) && n@ == trimmed(name) && identity_id
            == ids.identity,
    }
}

/// Why an administrator cannot be set up.
pub open spec fn bootstrap_plan_fault(
    email: Seq<char>,
    name: Seq<char>,
    existing: Option<Seq<char>>,
    now: Timestamp,
) -> Option<ErrorView> {
    or_fault(
        bootstrap_fault(email, name),
        or_fault(
            match existing {
                Some(s) => id_fault(s),
                None => None,
            },
            token_times_fault(TokenPurpose::Enrollment, now),
        ),
    )
}

/// What setting up an administrator changes: a user that exists is enabled, another one is
/// created; either way it is a member of the group of administrators, and its open tokens to
/// enroll with give way to a new one.
pub fn bootstrap_admin(
    email: &str,
    name: &str,
    existing: Option<&str>,
    group: Option<&str>,
    ids: BootstrapIds,
    token: &str,
    now: Timestamp,
) -> (r: Result<BootstrapPlan, ApiError>)
    ensures
        match r {
            Ok(plan) => {
                let id = plan.user.user_id();
                &&& bootstrap_plan_fault(email@, name@, opt_str(existing), now) is None
                &&& bootstrap_user(plan.user, email@, name@, opt_str(existing), ids)
                &&& plan.create_group == (group is None)
                &&& plan.group_id@ == (match group {
                    Some(g) => g@,
                    None => uuid_text(ids.group),
                })
                &&& plan.membership_id == ids.membership
                &&& is_token(plan.token, ids.token, id, TokenPurpose::Enrollment, token@, now)
                &&& plan.audit.says(
                    Some(id),
                    "bootstrap"@,
                    "admin.bootstrap"@,
                    "user"@,
                    Some(id),
                    "success"@,
                )
                &&& plan.result.user_id == id
                &&& plan.result.enrollment_token@ == token@
                &&& plan.result.expires_at@ == plan.token.expires_at@
            },
            Err(e) => bootstrap_plan_fault(email@, name@, opt_str(existing), now) == Some(e@),
        },
{
    let (normal, short) = check_bootstrap(email, name)?;
    let user_id = match existing {
        Some(id) => stored_id(id)?,
        None => ids.user,
    };
    let user = match existing {
        Some(_) => BootstrapUser::Enable { id: user_id },
        None => BootstrapUser::Create {
            id: user_id,
            email: normal,
            name: short,
            identity_id: ids.identity,
        },
    };
    let group_id = match group {
        Some(g) => g.to_owned(),
        None => uuid_to_text(ids.group),
    };
    let new = new_token(ids.token, user_id, TokenPurpose::Enrollment, token, now)?;
    let expires_at = copy_text(&new.expires_at);
    Ok(
        BootstrapPlan {
            user,
            group_id,
            create_group: group.is_none(),
            membership_id: ids.membership,
            token: new,
            audit: success(Some(user_id), "bootstrap", "admin.bootstrap", "user", Some(user_id)),
            result: BootstrapResult {
                user_id,
                enrollment_token: token.to_owned(),
                expires_at,
            },
        },
    )
}

/// Whether an installation needs an administrator to be set up: only where none is enabled.
pub fn bootstrap_admin_if_needed(enabled_administrators: i64) -> (r: bool)
    ensures
        r == (enabled_administrators <= 0),
{
    enabled_administrators <= 0
}

/// A user for whom a token is asked.
pub struct TokenUserRow {
    pub email: String,
    pub manual_disabled: bool,
    pub ldap_disabled: bool,
    pub soft_deleted_at: Option<String>,
    pub purged_at: Option<String>,
    pub has_password: bool,
    pub has_local_identity: bool,
}

/// Why no token is issued.
pub open spec fn issue_fault(row: Option<TokenUserRow>, purpose: TokenPurpose) -> Option<ErrorView> {
    match row {
        None => Some(not_found("user does not exist"@)),
        Some(u) => if u.manual_disabled || u.ldap_disabled || u.soft_deleted_at is Some {
            Some(forbidden("user is disabled"@))
        } else if u.purged_at is Some {
            Some(conflict("purged users cannot receive tokens"@))
        } else if purpose == TokenPurpose::Reset && !u.has_password {
            Some(conflict("user has no local password; issue an enrollment token instead"@))
        } else {
            None
        },
    }
}

/// The ids that issuing a token may need.
#[derive(Debug, Clone, Copy)]
pub struct IssueIds {
    pub token: Uuid,
    pub identity: Uuid,
    pub job: Uuid,
}

/// A message with a secret to be queued.
pub struct NewMailJob {
    pub id: Uuid,
    pub recipient: String,
    pub template: &'static str,
    pub parameters_json: String,
    pub secret_envelope: Vec<u8>,
    pub created_at: String,
}

/// What the secret of a message belongs to.
pub open spec fn mail_context(id: Uuid) -> Seq<char> {
    "mail-job:"@ + uuid_text(id)
}

/// What the secret of a message belongs to.
pub fn mail_context_text(id: Uuid) -> (r: String)
    ensures
        r@ == mail_context(id),
{
    String::from_str("mail-job:").concat(uuid_to_text(id).as_str())
}

/// The secret of a message: a JSON object with the token.
pub open spec fn mail_secret(token: Seq<char>) -> Seq<char> {
    "{\"token\":"@ + json_quoted(token) + "}"@
}

/// What a message says besides.
pub open spec fn mail_parameters(user_id: Uuid, token_id: Uuid) -> Seq<char> {
    "{\"token_id\":"@ + json_quoted(uuid_text(token_id)) + ",\"user_id\":"@ + json_quoted(
        uuid_text(user_id),
    ) + "}"@
}

/// What issuing a token changes.
pub struct IssuePlan {
    pub token: NewToken,
    pub identity: Option<NewLocalIdentity>,
    /// What is said of earlier messages that were not sent.
    pub superseded: &'static str,
    pub job: NewMailJob,
    pub audit: AuditEntry,
    pub response: IssuedTokenResponse,
}

/// Whether a message hands a token to a user.
pub open spec fn hands_out(
    job: NewMailJob,
    key: Seq<u8>,
    user_id: Uuid,
    email: Seq<char>,
    purpose: TokenPurpose,
    ids: IssueIds,
    token: Seq<char>,
    created_at: Seq<char>,
) -> bool {
    &&& job.id == ids.job
    &&& job.recipient@ == email
    &&& job.template@ == purpose.name()
    &&& job.parameters_json@ == mail_parameters(user_id, ids.token)
    &&& is_envelope(key, mail_context(ids.job), encode_utf8(mail_secret(token)), job.secret_envelope@)
    &&& job.created_at@ == created_at
}

/// Whether a plan issues a token to a user.
pub open spec fn issues(
    plan: IssuePlan,
    key: Seq<u8>,
    actor: Uuid,
    user_id: Uuid,
    row: TokenUserRow,
    purpose: TokenPurpose,
    ids: IssueIds,
    token: Seq<char>,
    now: Timestamp,
) -> bool {
    &&& is_token(plan.token, ids.token, user_id, purpose, token, now)
    &&& match plan.identity {
        Some(i) => purpose == TokenPurpose::Enrollment && !row.has_local_identity && i.id
            == ids.identity && i.user_id == user_id && i.email@ == row.email@,
        None => purpose == TokenPurpose::Reset || row.has_local_identity,
    }
    &&& plan.superseded@ == "superseded by a newer token"@
    &&& hands_out(
        plan.job,
        key,
        user_id,
        row.email@,
        purpose,
        ids,
        token,
        plan.token.created_at@,
    )
    &&& plan.audit.by_user(
        actor,
        match purpose {
            TokenPurpose::Enrollment => "auth.enrollment.issue"@,
            TokenPurpose::Reset => "auth.reset.issue"@,
        },
        "user"@,
        Some(user_id),
    )
    &&& plan.response.user_id == user_id
    &&& plan.response.purpose@ == purpose.name()
    &&& plan.response.token@ == token
    &&& plan.response.expires_at@ == plan.token.expires_at@
}

/// What is written down of an issued token in the open, in the audit log and in the queue of
/// messages, does not depend on the token: only its digest and a sealed message do.
pub proof fn law_records_do_not_tell_tokens(
    one: IssuePlan,
    other: IssuePlan,
    key: Seq<u8>,
    actor: Uuid,
    user_id: Uuid,
    row: TokenUserRow,
    purpose: TokenPurpose,
    ids: IssueIds,
    token: Seq<char>,
    other_token: Seq<char>,
    now: Timestamp,
)
    requires
        issues(one, key, actor, user_id, row, purpose, ids, token, now),
        issues(other, key, actor, user_id, row, purpose, ids, other_token, now),
    ensures
        one.audit.actor_user_id == other.audit.actor_user_id,
        one.audit.actor_kind@ == other.audit.actor_kind@,
        one.audit.action@ == other.audit.action@,
        one.audit.object_kind@ == other.audit.object_kind@,
        one.audit.object_id == other.audit.object_id,
        one.audit.outcome@ == other.audit.outcome@,
        one.audit.details_json@ == other.audit.details_json@,
        one.job.recipient@ == other.job.recipient@,
        one.job.template@ == other.job.template@,
        one.job.parameters_json@ == other.job.parameters_json@,
        one.token.token_hash@ == digest_of(token),
{
}

fn check_issue(row: &Option<TokenUserRow>, purpose: TokenPurpose) -> (r: Result<(), ApiError>)
    ensures
        checks(r, issue_fault(*row, purpose)),
{
    match row {
        None => Err(not_found_error("user does not exist")),
        Some(user) => {
            if user.manual_disabled || user.ldap_disabled || user.soft_deleted_at.is_some() {
                return Err(forbidden_error("user is disabled"));
            }
            if user.purged_at.is_some() {
                return Err(conflict_error("purged users cannot receive tokens"));
            }
            match purpose {
                TokenPurpose::Enrollment => Ok(()),
                TokenPurpose::Reset => if user.has_password {
                    Ok(())
                } else {
                    Err(
                        conflict_error(
                            "user has no local password; issue an enrollment token instead",
                        ),
                    )
                },
            }
        },
    }
}

fn token_message(
    secrets: &SecretBox,
    user_id: Uuid,
    email: &String,
    purpose: TokenPurpose,
    ids: IssueIds,
    token: &str,
    created_at: &String,
) -> (r: Result<NewMailJob, ApiError>)
    ensures
        match r {
            Ok(job) => seal_fault(mail_secret(token@)) is None && hands_out(
                job,
                secrets.master_key(),
                user_id,
                email@,
                purpose,
                ids,
                token@,
                created_at@,
            ),
            Err(e) => seal_fault(mail_secret(token@)) == Some(e@),
        },
{
    let mut secret = String::from_str("{\"token\":").concat(json_string(token).as_str()).concat("}");
    let context = mail_context_text(ids.job);
    assert(secret@ =~= mail_secret(token@));
    let sealed = seal_text(secrets, context.as_str(), secret.as_str());
    wipe_text(&mut secret);
    let envelope = sealed?;
    Ok(
        NewMailJob {
            id: ids.job,
            recipient: copy_text(email),
            template: purpose.as_str(),
            parameters_json: String::from_str("{\"token_id\":").concat(
                json_string(uuid_to_text(ids.token).as_str()).as_str(),
            ).concat(",\"user_id\":").concat(
                json_string(uuid_to_text(user_id).as_str()).as_str(),
            ).concat("}"),
            secret_envelope: envelope,
            created_at: copy_text(created_at),
        },
    )
}

/// What issuing a token changes, for a token that was drawn: the open tokens of the user for the
/// purpose give way to it, and a message with it is queued. Only a token that is too long for the
/// cipher cannot be sealed.
pub fn issue_user_token(
    secrets: &SecretBox,
    actor: Uuid,
    user_id: Uuid,
    row: &Option<TokenUserRow>,
    purpose: TokenPurpose,
    ids: IssueIds,
    token: &str,
    now: Timestamp,
) -> (r: Result<IssuePlan, ApiError>)
    ensures
        match or_fault(
            or_fault(issue_fault(*row, purpose), token_times_fault(purpose, now)),
            seal_fault(mail_secret(token@)),
        ) {
            Some(e) => r matches Err(f) && f@ == e,
            None => r matches Ok(plan) && row is Some && issues(
                plan,
                secrets.master_key(),
                actor,
                user_id,
                row->0,
                purpose,
                ids,
                token@,
                now,
            ),
        },
{
    check_issue(row, purpose)?;
    let new = new_token(ids.token, user_id, purpose, token, now)?;
    match row {
        None => Err(not_found_error("user does not exist")),
        Some(user) => {
            let job = token_message(
                secrets,
                user_id,
                &user.email,
                purpose,
                ids,
                token,
                &new.created_at,
            )?;
            let identity = match purpose {
                TokenPurpose::Reset => None,
                TokenPurpose::Enrollment => if user.has_local_identity {
                    None
                } else {
                    Some(
                        NewLocalIdentity {
                            id: ids.identity,
                            user_id,
                            email: copy_text(&user.email),
                        },
                    )
                },
            };
            let action = match purpose {
                TokenPurpose::Enrollment => "auth.enrollment.issue",
                TokenPurpose::Reset => "auth.reset.issue",
            };
            let expires_at = copy_text(&new.expires_at);
            Ok(
                IssuePlan {
                    token: new,
                    identity,
                    superseded: "superseded by a newer token",
                    job,
                    audit: user_did(actor, action, "user", Some(user_id)),
                    response: IssuedTokenResponse {
                        user_id,
                        purpose: purpose.as_str().to_owned(),
                        token: token.to_owned(),
                        expires_at,
                    },
                },
            )
        },
    }
}

} // verus!
