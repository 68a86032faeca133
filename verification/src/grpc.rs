//! The controller's side of the conversation with its agents.

use std::collections::BTreeMap;

use vstd::prelude::*;
use vstd::string::*;
use vstd::utf8::encode_utf8;

use crate::audit::{success, AuditEntry};
use crate::config::{is_public_key, validate_wireguard_public_key, ConfigError};
use crate::crypto::{sha256, sha256_digest};
use crate::error::ApiError;
use crate::ids::{parse_uuid_text, uuid_parsed, uuid_text, uuid_to_text, Uuid};
use crate::json::{all_quoted, append_array, json_array, json_quoted, json_string, quote_all};
use crate::migration::FutureGateway;
use crate::runtime::{AgentHello, AgentMessage, GatewayFacts};
use crate::sets::{get_for_id, put_for_id};
use crate::rows::opt_str;
use crate::text::{
    chars_of, copy_text, decimal, decimal_text, opt_text, same_text, strip_prefix, texts,
};
use crate::time::{parse_time, timestamp_in};
use crate::wire::{PROTOCOL_MAJOR, PROTOCOL_MINOR};

verus! {

/// The sorts of refusals that an agent is answered with.
#[derive(Debug, Clone, Copy, PartialEq, Eq, Structural)]
pub enum StatusCode {
    InvalidArgument,
    Unauthenticated,
    PermissionDenied,
    FailedPrecondition,
    AlreadyExists,
    Internal,
}

/// What an agent is refused with.
#[derive(Debug, Clone, PartialEq, Eq)]
pub struct StatusError {
    pub code: StatusCode,
    pub message: String,
}

/// The contents of a [`StatusError`].
#[verifier::ext_equal]
pub struct StatusView {
    pub code: StatusCode,
    pub message: Seq<char>,
}

impl View for StatusError {
    type V = StatusView;

    open spec fn view(&self) -> StatusView {
        StatusView { code: self.code, message: self.message@ }
    }
}

/// A refusal.
pub open spec fn status(code: StatusCode, message: Seq<char>) -> StatusView {
    StatusView { code, message }
}

/// A refusal.
pub fn refuse(code: StatusCode, message: &str) -> (r: StatusError)
    ensures
        r@ == status(code, message@),
{
    StatusError { code, message: message.to_owned() }
}

/// Whether a check of what an agent sent ends as it should.
pub open spec fn passes(r: Result<(), StatusError>, fault: Option<StatusView>) -> bool {
    match fault {
        None => r is Ok,
        Some(e) => r is Err && r->Err_0@ == e,
    }
}

/// What an agent is told of a fault of the controller: nothing in particular.
pub fn internal_status(error: &ApiError) -> (r: StatusError)
    ensures
        r@ == status(StatusCode::Internal, "controller operation failed"@),
{
    refuse(StatusCode::Internal, "controller operation failed")
}

/// What an agent is told of a failure of the database: nothing in particular.
pub fn database_status() -> (r: StatusError)
    ensures
        r@ == status(StatusCode::Internal, "controller database operation failed"@),
{
    refuse(StatusCode::Internal, "controller database operation failed")
}

/// The secret in the header of an agent.
pub open spec fn secret_in(authorization: Option<Seq<char>>) -> Option<Seq<char>> {
    match authorization {
        None => None,
        Some(value) => if "Bearer "@.is_prefix_of(value) && value.len() > "Bearer "@.len() {
            Some(value.skip("Bearer "@.len() as int))
        } else {
            None
        },
    }
}

/// The secret in the header of an agent.
pub fn bearer_secret(authorization: Option<&str>) -> (r: Result<String, StatusError>)
    ensures
        match secret_in(opt_str(authorization)) {
            Some(secret) => r matches Ok(s) && s@ == secret,
            None => r matches Err(e) && e@ == status(
                StatusCode::Unauthenticated,
                "agent bearer secret is required"@,
            ),
        },
{
    if let Some(value) = authorization {
        if let Some(secret) = strip_prefix(value, "Bearer ") {
            if chars_of(secret.as_str()).len() > 0 {
                return Ok(secret);
            }
        }
    }
    Err(refuse(StatusCode::Unauthenticated, "agent bearer secret is required"))
}

/// What is wrong with the first message of an agent.
pub open spec fn hello_fault(message: Option<AgentMessage>) -> Option<StatusView> {
    match message {
        None => Some(
            status(StatusCode::InvalidArgument, "first agent message must be hello"@),
        ),
        Some(AgentMessage::Hello(hello)) => if hello.protocol_major != PROTOCOL_MAJOR {
            Some(
                status(
                    StatusCode::FailedPrecondition,
                    "protocol major "@ + decimal(hello.protocol_major as nat)
                        + " is unsupported; controller requires "@ + decimal(PROTOCOL_MAJOR as nat),
                ),
            )
        } else if uuid_parsed(hello.agent_id@) is Err {
            Some(status(StatusCode::InvalidArgument, "hello contains an invalid agent ID"@))
        } else {
            None
        },
        Some(_) => Some(
            status(StatusCode::InvalidArgument, "first agent message must be hello"@),
        ),
    }
}

/// The id of the agent whose first message it is: an agent introduces itself, and speaks the
/// protocol that the controller speaks.
pub fn check_hello(message: &Option<AgentMessage>) -> (r: Result<Uuid, StatusError>)
    ensures
        match r {
            Ok(id) => {
                &&& hello_fault(*message) is None
                &&& message matches Some(AgentMessage::Hello(hello))
                &&& uuid_parsed(hello.agent_id@) == Ok::<Uuid, Seq<char>>(id)
            },
            Err(e) => hello_fault(*message) == Some(e@),
        },
{
    match message {
        Some(AgentMessage::Hello(hello)) => {
            if hello.protocol_major != PROTOCOL_MAJOR {
                let text = String::from_str("protocol major ").concat(
                    decimal_text(hello.protocol_major as u64).as_str(),
                ).concat(" is unsupported; controller requires ").concat(
                    decimal_text(PROTOCOL_MAJOR as u64).as_str(),
                );
                return Err(refuse(StatusCode::FailedPrecondition, text.as_str()));
            }
            match parse_uuid_text(hello.agent_id.as_str()) {
                Ok(id) => Ok(id),
                Err(_) => Err(
                    refuse(StatusCode::InvalidArgument, "hello contains an invalid agent ID"),
                ),
            }
        },
        _ => Err(refuse(StatusCode::InvalidArgument, "first agent message must be hello")),
    }
}

/// Calls `subtle::ConstantTimeEq::ct_eq` on two byte strings: whether they are the same.
#[verifier::external_body]
fn same_bytes(a: &[u8], b: &[u8]) -> (r: bool)
    ensures
        r == (a@ == b@),
{
    subtle::ConstantTimeEq::ct_eq(a, b).into()
}

/// The digests of the secrets of an agent: that of the present one, and that of the next one
/// while it is being replaced.
pub struct AgentSecrets {
    pub current: Vec<u8>,
    pub next: Option<Vec<u8>>,
}

/// Whether a secret is one of an agent.
pub open spec fn is_agent_secret(row: AgentSecrets, secret: Seq<char>) -> bool {
    let digest = sha256(encode_utf8(secret));
    row.current@ == digest || (row.next is Some && row.next->0@ == digest)
}

/// Lets agents pass that know a secret of theirs.
pub fn authenticate_agent(row: &Option<AgentSecrets>, secret: &str) -> (r: Result<(), StatusError>)
    ensures
        passes(
            r,
            if row is Some && is_agent_secret(row->0, secret@) {
                None
            } else {
                Some(status(StatusCode::Unauthenticated, "agent credentials are invalid"@))
            },
        ),
{
    match row {
        None => Err(refuse(StatusCode::Unauthenticated, "agent credentials are invalid")),
        Some(known) => {
            let candidate = sha256_digest(secret.as_bytes());
            let current = same_bytes(candidate.as_slice(), known.current.as_slice());
            let next = match &known.next {
                Some(value) => same_bytes(candidate.as_slice(), value.as_slice()),
                None => false,
            };
            if current || next {
                Ok(())
            } else {
                Err(refuse(StatusCode::Unauthenticated, "agent credentials are invalid"))
            }
        },
    }
}

/// While a secret is being replaced, the old one and the new one are both accepted; once the new
/// one has taken its place, only that.
pub proof fn law_secrets_rotate_without_a_gap(old: Seq<char>, new: Seq<char>, other: Seq<char>, during: AgentSecrets, after: AgentSecrets)
    requires
        during.current@ == sha256(encode_utf8(old)),
        during.next is Some && during.next->0@ == sha256(encode_utf8(new)),
        after.current@ == during.next->0@,
        after.next is None,
        sha256(encode_utf8(other)) != sha256(encode_utf8(new)),
    ensures
        is_agent_secret(during, old),
        is_agent_secret(during, new),
        is_agent_secret(after, new),
        !is_agent_secret(after, other),
{
}

/// What is written down of an agent that has introduced itself.
pub struct HelloRecord {
    pub protocol_major: u32,
    pub protocol_minor: u32,
    pub capabilities_json: String,
}

/// What is written down of an agent that has introduced itself: of the minor versions the lower
/// one.
pub fn register_hello(hello: &AgentHello) -> (r: HelloRecord)
    ensures
        r.protocol_major == hello.protocol_major,
        r.protocol_minor == (if hello.protocol_minor <= PROTOCOL_MINOR {
            hello.protocol_minor
        } else {
            PROTOCOL_MINOR
        }),
        r.capabilities_json@ == json_array(all_quoted(texts(hello.capabilities@))),
{
    let mut capabilities_json = String::new();
    append_array(&mut capabilities_json, quote_all(hello.capabilities.as_slice()).as_slice());
    assert(capabilities_json@ =~= json_array(all_quoted(texts(hello.capabilities@))));
    HelloRecord {
        protocol_major: hello.protocol_major,
        protocol_minor: if hello.protocol_minor <= PROTOCOL_MINOR {
            hello.protocol_minor
        } else {
            PROTOCOL_MINOR
        },
        capabilities_json,
    }
}

/// What was sent about the migration of a gateway.
pub struct SentMigration {
    pub migration_id: Uuid,
    pub gateway_id: Uuid,
    pub status: String,
}

/// What was sent over a connection.
pub struct Connection {
    revisions: BTreeMap<Uuid, u64>,
    migrations: Vec<SentMigration>,
    ticks: u8,
}

/// What was last sent about the migration of a gateway.
pub open spec fn last_sent(sent: Seq<SentMigration>, migration_id: Uuid, gateway_id: Uuid) -> Option<
    Seq<char>,
>
    decreases sent.len(),
{
    if sent.len() == 0 {
        None
    } else if sent.last().migration_id == migration_id && sent.last().gateway_id == gateway_id {
        Some(sent.last().status@)
    } else {
        last_sent(sent.drop_last(), migration_id, gateway_id)
    }
}

impl Connection {
    /// The revision that was last sent to a gateway, or 0.
    pub closed spec fn revision_sent(self, gateway_id: Uuid) -> u64 {
        if self.revisions@.contains_key(gateway_id) {
            self.revisions@[gateway_id]
        } else {
            0
        }
    }

    /// What was last sent about the migration of a gateway.
    pub closed spec fn status_sent(self, migration_id: Uuid, gateway_id: Uuid) -> Option<Seq<char>> {
        last_sent(self.migrations@, migration_id, gateway_id)
    }

    /// How often the controller looked for something to send, counted up to 255 and anew from 0.
    pub closed spec fn tick_count(self) -> u8 {
        self.ticks
    }

    /// A connection over which nothing was sent.
    pub fn new() -> (r: Self)
        ensures
            forall|id: Uuid| #[trigger] r.revision_sent(id) == 0,
            forall|m: Uuid, g: Uuid| #[trigger] r.status_sent(m, g) is None,
            r.tick_count() == 0,
    {
        Connection { revisions: BTreeMap::new(), migrations: Vec::new(), ticks: 0 }
    }

    /// Whether a state is to be sent: it is later than what was last sent to its gateway.
    pub fn wants(&self, gateway_id: Uuid, revision: u64) -> (r: bool)
        ensures
            r == (revision > self.revision_sent(gateway_id)),
    {
        match get_for_id(&self.revisions, gateway_id) {
            Some(sent) => revision > *sent,
            None => revision > 0,
        }
    }

    /// Notes that a state was sent.
    pub fn note_revision(&mut self, gateway_id: Uuid, revision: u64)
        ensures
            forall|id: Uuid| #[trigger]
                final(self).revision_sent(id) == (if id == gateway_id {
                    revision
                } else {
                    old(self).revision_sent(id)
                }),
            forall|m: Uuid, g: Uuid| #[trigger]
                final(self).status_sent(m, g) == old(self).status_sent(m, g),
            final(self).tick_count() == old(self).tick_count(),
    {
        put_for_id(&mut self.revisions, gateway_id, revision);
    }

    /// What was last sent about the migration of a gateway.
    pub fn previous_status(&self, migration_id: Uuid, gateway_id: Uuid) -> (r: Option<String>)
        ensures
            opt_text(r) == self.status_sent(migration_id, gateway_id),
    {
        let mut n: usize = self.migrations.len();
        assert(self.migrations@.take(n as int) =~= self.migrations@);
        while n > 0
            invariant
                n <= self.migrations@.len(),
                last_sent(self.migrations@.take(n as int), migration_id, gateway_id)
                    == self.status_sent(migration_id, gateway_id),
            decreases n,
        {
            let ghost now = self.migrations@.take(n as int);
            assert(now.last() == self.migrations@[n - 1]);
            assert(now.drop_last() =~= self.migrations@.take(n - 1));
            let entry = &self.migrations[n - 1];
            if entry.migration_id == migration_id && entry.gateway_id == gateway_id {
                return Some(copy_text(&entry.status));
            }
            n = n - 1;
        }
        None
    }

    /// Notes what was sent about the migration of a gateway.
    pub fn note_migration(&mut self, migration_id: Uuid, gateway_id: Uuid, status: &str)
        ensures
            forall|m: Uuid, g: Uuid| #[trigger]
                final(self).status_sent(m, g) == (if m == migration_id && g == gateway_id {
                    Some(status@)
                } else {
                    old(self).status_sent(m, g)
                }),
            forall|id: Uuid| #[trigger]
                final(self).revision_sent(id) == old(self).revision_sent(id),
            final(self).tick_count() == old(self).tick_count(),
    {
        let ghost before = self.migrations@;
        self.migrations.push(
            SentMigration { migration_id, gateway_id, status: status.to_owned() },
        );
        proof {
            assert(self.migrations@.drop_last() =~= before);
        }
    }

    /// Counts that the controller looked for something to send; every third time the agent is
    /// asked whether it is there.
    pub fn tick(&mut self) -> (r: bool)
        ensures
            final(self).tick_count() == (if old(self).tick_count() == 255 {
                0
            } else {
                old(self).tick_count() + 1
            }),
            r == (final(self).tick_count() % 3 == 0),
            forall|id: Uuid| #[trigger]
                final(self).revision_sent(id) == old(self).revision_sent(id),
            forall|m: Uuid, g: Uuid| #[trigger]
                final(self).status_sent(m, g) == old(self).status_sent(m, g),
    {
        self.ticks = self.ticks.wrapping_add(1);
        self.ticks % 3 == 0
    }
}

/// A migration of a gateway of an agent in the database.
pub struct MigrationNoticeRow {
    pub id: String,
    pub gateway_id: String,
    pub status: String,
    pub effective_at: String,
}

/// What is sent about the migration of a gateway.
#[derive(Debug, Clone, Copy, PartialEq, Eq, Structural)]
pub enum MigrationNotice {
    /// Nothing.
    Nothing,
    /// That it does not take place.
    Cancel,
    /// What the gateway is asked to be afterwards, and perhaps that it is certain.
    Announce { prepare: bool, arm: bool, effective_unix_seconds: i64 },
}

/// Whether something is a status of a migration that does not take place.
pub open spec fn called_off(status: Seq<char>) -> bool {
    status == "cancelled"@ || status == "failed"@
}

/// What is wrong with a migration in the database.
pub open spec fn notice_fault(row: MigrationNoticeRow, previous: Option<Seq<char>>) -> Option<StatusView> {
    if uuid_parsed(row.id@) is Err {
        Some(status(StatusCode::Internal, "stored migration ID is invalid"@))
    } else if uuid_parsed(row.gateway_id@) is Err {
        Some(status(StatusCode::Internal, "stored gateway ID is invalid"@))
    } else if called_off(row.status@) || previous == Some(row.status@) {
        None
    } else if timestamp_in(row.effective_at@) is None {
        Some(status(StatusCode::Internal, "stored migration time is invalid"@))
    } else {
        None
    }
}

/// What is sent about the migration of a gateway.
pub open spec fn notice_of(row: MigrationNoticeRow, previous: Option<Seq<char>>) -> MigrationNotice {
    if called_off(row.status@) {
        if previous == Some("preparing"@) || previous == Some("armed"@) {
            MigrationNotice::Cancel
        } else {
            MigrationNotice::Nothing
        }
    } else if previous == Some(row.status@) {
        MigrationNotice::Nothing
    } else {
        MigrationNotice::Announce {
            prepare: previous is None,
            arm: row.status@ == "armed"@,
            effective_unix_seconds: timestamp_in(row.effective_at@)->0.secs,
        }
    }
}

/// The ids of a migration and its gateway.
pub fn notice_ids(row: &MigrationNoticeRow) -> (r: Result<(Uuid, Uuid), StatusError>)
    ensures
        match r {
            Ok(p) => {
                &&& uuid_parsed(row.id@) == Ok::<Uuid, Seq<char>>(p.0)
                &&& uuid_parsed(row.gateway_id@) == Ok::<Uuid, Seq<char>>(p.1)
            },
            Err(e) => notice_fault(*row, None) == Some(e@) && (uuid_parsed(row.id@) is Err
                || uuid_parsed(row.gateway_id@) is Err),
        },
{
    let migration_id = match parse_uuid_text(row.id.as_str()) {
        Ok(id) => id,
        Err(_) => return Err(refuse(StatusCode::Internal, "stored migration ID is invalid")),
    };
    let gateway_id = match parse_uuid_text(row.gateway_id.as_str()) {
        Ok(id) => id,
        Err(_) => return Err(refuse(StatusCode::Internal, "stored gateway ID is invalid")),
    };
    Ok((migration_id, gateway_id))
}

/// What is sent about the migration of a gateway, given what was sent before. An agent that
/// connects anew is told what to prepare before it is told that the time is certain.
pub fn plan_notice(row: &MigrationNoticeRow, previous: &Option<String>) -> (r: Result<
    MigrationNotice,
    StatusError,
>)
    ensures
        match r {
            Ok(notice) => notice_fault(*row, opt_text(*previous)) is None && notice == notice_of(
                *row,
                opt_text(*previous),
            ),
            Err(e) => notice_fault(*row, opt_text(*previous)) == Some(e@),
        },
{
    let _ids = notice_ids(row)?;
    let state = row.status.as_str();
    let (was_preparing, was_armed, unchanged) = match previous {
        Some(p) => (
            same_text(p.as_str(), "preparing"),
            same_text(p.as_str(), "armed"),
            same_text(p.as_str(), state),
        ),
        None => (false, false, false),
    };
    if same_text(state, "cancelled") || same_text(state, "failed") {
        if was_preparing || was_armed {
            return Ok(MigrationNotice::Cancel);
        }
        return Ok(MigrationNotice::Nothing);
    }
    if unchanged {
        return Ok(MigrationNotice::Nothing);
    }
    match parse_time(row.effective_at.as_str()) {
        None => Err(refuse(StatusCode::Internal, "stored migration time is invalid")),
        Some(at) => Ok(
            MigrationNotice::Announce {
                prepare: previous.is_none(),
                arm: same_text(state, "armed"),
                effective_unix_seconds: at.secs,
            },
        ),
    }
}

/// What the plan of a migration has for a gateway.
pub fn future_of<'a>(plan: &'a BTreeMap<Uuid, FutureGateway>, gateway_id: Uuid) -> (r: Result<
    &'a FutureGateway,
    StatusError,
>)
    ensures
        match r {
            Ok(f) => plan@.contains_key(gateway_id) && *f == plan@[gateway_id],
            Err(e) => !plan@.contains_key(gateway_id) && e@ == status(
                StatusCode::Internal,
                "migration gateway state is missing"@,
            ),
        },
{
    match get_for_id(plan, gateway_id) {
        Some(future) => Ok(future),
        None => Err(refuse(StatusCode::Internal, "migration gateway state is missing")),
    }
}

/// A migration is not announced twice over a connection with the same status, and is called off
/// only where it was announced.
pub proof fn law_notices_are_not_repeated(row: MigrationNoticeRow)
    ensures
        !called_off(row.status@) ==> notice_of(row, Some(row.status@)) == MigrationNotice::Nothing,
        called_off(row.status@) ==> notice_of(row, None) == MigrationNotice::Nothing,
{
}

/// What is done about a message of an agent.
pub enum MessageStep {
    Nothing,
    Facts { gateway_id: Uuid, listen_port: u16 },
    Prepared { migration_id: Uuid, gateway_id: Uuid },
    Applied { gateway_id: Uuid },
    Error { gateway_id: Uuid },
}

/// The gateway that a message of an agent is about.
pub open spec fn subject_of(message: Option<AgentMessage>) -> Option<Seq<char>> {
    match message {
        Some(AgentMessage::Facts(m)) => Some(m.gateway_id@),
        Some(AgentMessage::Prepared(m)) => Some(m.gateway_id@),
        Some(AgentMessage::Applied(m)) => Some(m.gateway_id@),
        Some(AgentMessage::Error(m)) => Some(m.gateway_id@),
        _ => None,
    }
}

/// The gateway that a message of an agent is about.
pub fn message_subject(message: &Option<AgentMessage>) -> (r: Option<String>)
    ensures
        opt_text(r) == subject_of(*message),
{
    match message {
        Some(AgentMessage::Facts(m)) => Some(copy_text(&m.gateway_id)),
        Some(AgentMessage::Prepared(m)) => Some(copy_text(&m.gateway_id)),
        Some(AgentMessage::Applied(m)) => Some(copy_text(&m.gateway_id)),
        Some(AgentMessage::Error(m)) => Some(copy_text(&m.gateway_id)),
        _ => None,
    }
}

/// What is wrong with a gateway id in a message.
pub open spec fn subject_fault(s: Seq<char>) -> Option<StatusView> {
    if uuid_parsed(s) is Err {
        Some(status(StatusCode::InvalidArgument, "invalid gateway ID"@))
    } else {
        None
    }
}

/// What is wrong with what an agent says of a gateway.
pub open spec fn facts_fault(facts: GatewayFacts) -> Option<StatusView> {
    if !is_public_key(facts.public_key@) {
        Some(status(StatusCode::InvalidArgument, ConfigError::InvalidPublicKey.text()))
    } else if subject_fault(facts.gateway_id@) is Some {
        subject_fault(facts.gateway_id@)
    } else if facts.listen_port > 65535 {
        Some(status(StatusCode::InvalidArgument, "invalid listen port"@))
    } else {
        None
    }
}

/// What is wrong with a message of an agent, which is about a gateway of the agent or not.
pub open spec fn message_fault(message: Option<AgentMessage>, assigned: bool) -> Option<StatusView> {
    if subject_of(message) is Some && !assigned {
        Some(status(StatusCode::PermissionDenied, "gateway is not assigned to this agent"@))
    } else {
        match message {
            None => Some(status(StatusCode::InvalidArgument, "empty agent message"@)),
            Some(AgentMessage::Hello(_)) => Some(
                status(StatusCode::InvalidArgument, "hello may only be sent once"@),
            ),
            Some(AgentMessage::Heartbeat { .. }) => None,
            Some(AgentMessage::Facts(facts)) => facts_fault(facts),
            Some(AgentMessage::Prepared(m)) => if uuid_parsed(m.migration_id@) is Err {
                Some(status(StatusCode::InvalidArgument, "invalid migration ID"@))
            } else {
                subject_fault(m.gateway_id@)
            },
            Some(AgentMessage::Applied(m)) => subject_fault(m.gateway_id@),
            Some(AgentMessage::Error(m)) => subject_fault(m.gateway_id@),
        }
    }
}

/// Whether a step is the one for a message.
pub open spec fn is_step(step: MessageStep, message: AgentMessage) -> bool {
    match message {
        AgentMessage::Heartbeat { .. } => step is Nothing,
        AgentMessage::Facts(facts) => step matches MessageStep::Facts { gateway_id, listen_port }
            && uuid_parsed(facts.gateway_id@) == Ok::<Uuid, Seq<char>>(gateway_id) && listen_port
            == facts.listen_port,
        AgentMessage::Prepared(m) => step matches MessageStep::Prepared { migration_id, gateway_id }
            && uuid_parsed(m.migration_id@) == Ok::<Uuid, Seq<char>>(migration_id) && uuid_parsed(
            m.gateway_id@,
        ) == Ok::<Uuid, Seq<char>>(gateway_id),
        AgentMessage::Applied(m) => step matches MessageStep::Applied { gateway_id }
            && uuid_parsed(m.gateway_id@) == Ok::<Uuid, Seq<char>>(gateway_id),
        AgentMessage::Error(m) => step matches MessageStep::Error { gateway_id } && uuid_parsed(
            m.gateway_id@,
        ) == Ok::<Uuid, Seq<char>>(gateway_id),
        AgentMessage::Hello(_) => false,
    }
}

fn subject_id(s: &str) -> (r: Result<Uuid, StatusError>)
    ensures
        match r {
            Ok(id) => uuid_parsed(s@) == Ok::<Uuid, Seq<char>>(id),
            Err(e) => subject_fault(s@) == Some(e@),
        },
{
    match parse_uuid_text(s) {
        Ok(id) => Ok(id),
        Err(_) => Err(refuse(StatusCode::InvalidArgument, "invalid gateway ID")),
    }
}

fn check_facts(facts: &GatewayFacts) -> (r: Result<MessageStep, StatusError>)
    ensures
        match r {
            Ok(step) => facts_fault(*facts) is None && is_step(step, AgentMessage::Facts(*facts)),
            Err(e) => facts_fault(*facts) == Some(e@),
        },
{
    match validate_wireguard_public_key(facts.public_key.as_str()) {
        Ok(_) => {},
        Err(error) => {
            return Err(refuse(StatusCode::InvalidArgument, error.message().as_str()));
        },
    }
    let gateway_id = subject_id(facts.gateway_id.as_str())?;
    if facts.listen_port > 65535 {
        return Err(refuse(StatusCode::InvalidArgument, "invalid listen port"));
    }
    Ok(MessageStep::Facts { gateway_id, listen_port: facts.listen_port as u16 })
}

/// What is done about a message of an agent, given whether it is about a gateway of the agent. An
/// agent can say nothing about a gateway that is not its own.
pub fn handle_message(message: &Option<AgentMessage>, assigned: bool) -> (r: Result<
    MessageStep,
    StatusError,
>)
    ensures
        match r {
            Ok(step) => message_fault(*message, assigned) is None && message is Some && is_step(
                step,
                message->0,
            ),
            Err(e) => message_fault(*message, assigned) == Some(e@),
        },
{
    let subject = message_subject(message);
    if subject.is_some() && !assigned {
        return Err(refuse(StatusCode::PermissionDenied, "gateway is not assigned to this agent"));
    }
    match message {
        None => Err(refuse(StatusCode::InvalidArgument, "empty agent message")),
        Some(AgentMessage::Hello(_)) => Err(
            refuse(StatusCode::InvalidArgument, "hello may only be sent once"),
        ),
        Some(AgentMessage::Heartbeat { .. }) => Ok(MessageStep::Nothing),
        Some(AgentMessage::Facts(facts)) => check_facts(facts),
        Some(AgentMessage::Prepared(m)) => {
            let migration_id = match parse_uuid_text(m.migration_id.as_str()) {
                Ok(id) => id,
                Err(_) => return Err(refuse(StatusCode::InvalidArgument, "invalid migration ID")),
            };
            let gateway_id = subject_id(m.gateway_id.as_str())?;
            Ok(MessageStep::Prepared { migration_id, gateway_id })
        },
        Some(AgentMessage::Applied(m)) => {
            let gateway_id = subject_id(m.gateway_id.as_str())?;
            Ok(MessageStep::Applied { gateway_id })
        },
        Some(AgentMessage::Error(m)) => {
            let gateway_id = subject_id(m.gateway_id.as_str())?;
            Ok(MessageStep::Error { gateway_id })
        },
    }
}

/// An agent can change nothing about a gateway that is not its own.
pub proof fn law_agents_speak_for_their_own_gateways(message: AgentMessage)
    requires
        subject_of(Some(message)) is Some,
    ensures
        message_fault(Some(message), false) == Some(
            status(StatusCode::PermissionDenied, "gateway is not assigned to this agent"@),
        ),
{
}

/// What is written down when a gateway has validated a state.
pub open spec fn prepared_details(migration_id: Uuid, revision: u64, hash: Seq<char>) -> Seq<char> {
    "{\"migration_id\":"@ + json_quoted(uuid_text(migration_id)) + ",\"revision\":"@ + decimal(
        revision as nat,
    ) + ",\"state_hash\":"@ + json_quoted(hash) + "}"@
}

/// What is written down when a gateway has validated a state.
pub struct PreparedRecord {
    /// What the record of the event says.
    pub event: &'static str,
    pub audit: AuditEntry,
    pub details_json: String,
}

/// What is written down when a gateway has validated a state.
pub fn prepared_record(migration_id: Uuid, gateway_id: Uuid, revision: u64, hash: &str) -> (r:
    PreparedRecord)
    ensures
        r.event@ == "prepared"@,
        r.audit.says(
            None,
            "agent"@,
            "gateway.migration.prepared"@,
            "gateway"@,
            Some(gateway_id),
            "success"@,
        ),
        r.details_json@ == prepared_details(migration_id, revision, hash@),
{
    PreparedRecord {
        event: "prepared",
        audit: success(None, "agent", "gateway.migration.prepared", "gateway", Some(gateway_id)),
        details_json: String::from_str("{\"migration_id\":").concat(
            json_string(uuid_to_text(migration_id).as_str()).as_str(),
        ).concat(",\"revision\":").concat(decimal_text(revision).as_str()).concat(
            ",\"state_hash\":",
        ).concat(json_string(hash).as_str()).concat("}"),
    }
}

/// What changes with what an agent says of a gateway.
#[derive(Debug, Clone, Copy, PartialEq, Eq)]
pub struct FactsPlan {
    /// The key is new: it is registered, and the old one is given up.
    pub register_key: bool,
    /// The profiles of the clients change.
    pub refresh_profiles: bool,
    pub status: &'static str,
}

/// What changes with what an agent says of a gateway: profiles change only where the key or the
/// port did.
pub fn record_facts(
    old_key: &Option<String>,
    old_port: Option<i64>,
    public_key: &str,
    listen_port: u16,
) -> (r: FactsPlan)
    ensures
        r.register_key == (opt_text(*old_key) != Some(public_key@)),
        r.refresh_profiles == (opt_text(*old_key) != Some(public_key@) || old_port != Some(
            listen_port as i64,
        )),
        r.status@ == "ready"@,
{
    let same_key = match old_key {
        Some(key) => same_text(key.as_str(), public_key),
        None => false,
    };
    let same_port = match old_port {
        Some(port) => port == listen_port as i64,
        None => false,
    };
    FactsPlan {
        register_key: !same_key,
        refresh_profiles: !same_key || !same_port,
        status: "ready",
    }
}

/// The refusal of a key that another gateway or device has.
pub fn key_is_taken() -> (r: StatusError)
    ensures
        r@ == status(StatusCode::AlreadyExists, "gateway public key is already active"@),
{
    refuse(StatusCode::AlreadyExists, "gateway public key is already active")
}

} // verus!
