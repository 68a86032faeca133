//! The agent's side of the conversation with the controller.

use vstd::prelude::*;
use vstd::string::*;

use crate::agent::{ApplyOutcome, DriverError, ObservedGateway, ReconcileError};
use crate::ids::{parse_uuid_text, uuid_parsed, uuid_text, uuid_to_text, Uuid};
use crate::protocol::{desired_from_proto, read_snapshot, FieldError};
use crate::state::{canonical, DesiredGatewayState, StateView};
use crate::text::{byte_count, byte_len, push_text, starts_with, texts, trim, trimmed};
use crate::wire::{DesiredSnapshot, PROTOCOL_MAJOR, PROTOCOL_MINOR};

verus! {

/// How an agent reaches its controller.
#[derive(Debug, Clone)]
pub struct AgentConfig {
    pub controller_url: String,
    pub server_name: String,
    pub ca_certificate: String,
    pub agent_id: Uuid,
    pub secret: String,
    pub cache_directory: String,
    pub capabilities: Vec<String>,
    /// Seconds between heartbeats.
    pub heartbeat_interval: u64,
}

/// Why an agent's settings are refused.
#[derive(Debug, Clone, Copy, PartialEq, Eq, Structural)]
pub enum AgentConfigError {
    NotHttps,
    MissingServerName,
    InvalidSecret,
}

impl AgentConfigError {
    /// What the error says.
    pub open spec fn text(self) -> Seq<char> {
        match self {
            AgentConfigError::NotHttps => "controller URL must use https://"@,
            AgentConfigError::MissingServerName => "TLS server name is required"@,
            AgentConfigError::InvalidSecret => "agent secret is invalid"@,
        }
    }

    /// What the error says.
    pub fn message(&self) -> (r: String)
        ensures
            r@ == self.text(),
    {
        match self {
            AgentConfigError::NotHttps => String::from_str("controller URL must use https://"),
            AgentConfigError::MissingServerName => String::from_str("TLS server name is required"),
            AgentConfigError::InvalidSecret => String::from_str("agent secret is invalid"),
        }
    }
}

impl AgentConfig {
    /// What is wrong with the settings, if anything: the first of the address, the server name
    /// and the secret that is.
    pub open spec fn fault(self) -> Option<AgentConfigError> {
        if !"https://"@.is_prefix_of(self.controller_url@) {
            Some(AgentConfigError::NotHttps)
        } else if trimmed(self.server_name@).len() == 0 {
            Some(AgentConfigError::MissingServerName)
        } else if byte_count(self.secret@) < 32 {
            Some(AgentConfigError::InvalidSecret)
        } else {
            None
        }
    }

    /// Checks the settings.
    pub fn validate(&self) -> (r: Result<(), AgentConfigError>)
        ensures
            match self.fault() {
                None => r is Ok,
                Some(error) => r is Err && r->Err_0 == error,
            },
    {
        if !starts_with(self.controller_url.as_str(), "https://") {
            return Err(AgentConfigError::NotHttps);
        }
        if trim(self.server_name.as_str()).as_str().is_empty() {
            return Err(AgentConfigError::MissingServerName);
        }
        if byte_len(self.secret.as_str()) < 32 {
            return Err(AgentConfigError::InvalidSecret);
        }
        Ok(())
    }
}

/// The seconds to wait before the next attempt to connect: twice as long, at most thirty.
pub fn next_delay(delay: u64) -> (r: u64)
    ensures
        r == (if delay >= 15 {
            30
        } else {
            2 * delay
        }),
{
    if delay >= 15 {
        30
    } else {
        delay * 2
    }
}

/// Counts a heartbeat, and says whether the gateways have to be looked at with it: every third
/// time until the count wraps around.
pub fn count_heartbeat(count: u8) -> (r: (u8, bool))
    ensures
        r.0 == (if count == 255 {
            0
        } else {
            count + 1
        }),
        r.1 == (r.0 % 3 == 0),
{
    let next = count.wrapping_add(1);
    (next, next % 3 == 0)
}

/// What an agent says of itself when it connects.
#[derive(Debug, Clone, PartialEq, Eq)]
pub struct AgentHello {
    pub agent_id: String,
    pub protocol_major: u32,
    pub protocol_minor: u32,
    pub agent_version: String,
    pub boot_id: String,
    pub capabilities: Vec<String>,
}

/// What an agent saw a gateway to be.
#[derive(Debug, Clone, PartialEq, Eq)]
pub struct GatewayFacts {
    pub gateway_id: String,
    pub public_key: String,
    pub listen_port: u32,
    pub actual_state_hash: String,
    pub backend_version: String,
}

/// That a state is prepared for a migration.
#[derive(Debug, Clone, PartialEq, Eq)]
pub struct RevisionPrepared {
    pub migration_id: String,
    pub gateway_id: String,
    pub revision: u64,
    pub state_hash: String,
}

/// That a state was brought about.
#[derive(Debug, Clone, PartialEq, Eq)]
pub struct RevisionApplied {
    pub gateway_id: String,
    pub revision: u64,
    pub actual_state_hash: String,
    pub applied_unix_seconds: i64,
}

/// That a state was not brought about, and why.
#[derive(Debug, Clone, PartialEq, Eq)]
pub struct ApplyError {
    pub gateway_id: String,
    pub revision: u64,
    pub code: String,
    pub message: String,
    pub retryable: bool,
}

/// What an agent says to the controller.
#[derive(Debug, Clone, PartialEq, Eq)]
pub enum AgentMessage {
    Hello(AgentHello),
    Heartbeat { unix_seconds: i64 },
    Facts(GatewayFacts),
    Prepared(RevisionPrepared),
    Applied(RevisionApplied),
    Error(ApplyError),
}

/// What the controller says to an agent.
#[derive(Debug, Clone, PartialEq, Eq)]
pub enum ControllerMessage {
    Desired(DesiredSnapshot),
    PrepareMigration { migration_id: String, future_state: Option<DesiredSnapshot> },
    ArmMigration { migration_id: String, gateway_id: String, effective_unix_seconds: i64 },
    CancelMigration { migration_id: String, gateway_id: String },
    Ping,
    Nothing,
}

/// The first message on a connection.
pub fn hello(config: &AgentConfig, agent_version: &str, boot_id: &str) -> (r: AgentHello)
    ensures
        r.agent_id@ == uuid_text(config.agent_id),
        r.protocol_major == PROTOCOL_MAJOR,
        r.protocol_minor == PROTOCOL_MINOR,
        r.agent_version@ == agent_version@,
        r.boot_id@ == boot_id@,
        texts(r.capabilities@) == texts(config.capabilities@),
{
    let mut capabilities: Vec<String> = Vec::new();
    let mut i: usize = 0;
    while i < config.capabilities.len()
        invariant
            i <= config.capabilities@.len(),
            texts(capabilities@) =~= texts(config.capabilities@).take(i as int),
        decreases config.capabilities@.len() - i,
    {
        push_text(&mut capabilities, config.capabilities[i].clone());
        assert(texts(config.capabilities@).take(i + 1) =~= texts(config.capabilities@).take(
            i as int,
        ).push(config.capabilities@[i as int]@));
        i = i + 1;
    }
    assert(texts(config.capabilities@).take(i as int) =~= texts(config.capabilities@));
    AgentHello {
        agent_id: uuid_to_text(config.agent_id),
        protocol_major: PROTOCOL_MAJOR,
        protocol_minor: PROTOCOL_MINOR,
        agent_version: agent_version.to_owned(),
        boot_id: boot_id.to_owned(),
        capabilities,
    }
}

/// What an agent says of a gateway that it observed.
pub fn facts_message(facts: ObservedGateway) -> (r: GatewayFacts)
    ensures
        r.gateway_id@ == uuid_text(facts.gateway_id),
        r.public_key@ == facts.public_key@,
        r.listen_port == facts.listen_port,
        r.actual_state_hash@ == facts.actual_state_hash@,
        r.backend_version@ == facts.backend_version@,
{
    GatewayFacts {
        gateway_id: uuid_to_text(facts.gateway_id),
        public_key: facts.public_key,
        listen_port: facts.listen_port as u32,
        actual_state_hash: facts.actual_state_hash,
        backend_version: facts.backend_version,
    }
}

/// What an agent says of a state that it brought about.
pub fn applied(gateway_id: Uuid, outcome: ApplyOutcome, now: i64) -> (r: RevisionApplied)
    ensures
        r.gateway_id@ == uuid_text(gateway_id),
        r.revision == outcome.revision,
        r.actual_state_hash@ == outcome.actual_state_hash@,
        r.applied_unix_seconds == now,
{
    RevisionApplied {
        gateway_id: uuid_to_text(gateway_id),
        revision: outcome.revision,
        actual_state_hash: outcome.actual_state_hash,
        applied_unix_seconds: now,
    }
}

/// What an agent says of a state that it could not bring about.
pub fn apply_error(gateway_id: &str, revision: u64, error: &ReconcileError) -> (r: ApplyError)
    ensures
        r.gateway_id@ == gateway_id@,
        r.revision == revision,
        r.code@ == error.code_text(),
        r.message@ == error.text(),
        r.retryable == error.may_succeed_later(),
{
    let code: &str = match error {
        ReconcileError::StaleRevision { .. } => "stale_revision",
        ReconcileError::Driver(_) => "backend_error",
        ReconcileError::Cache(_) => "cache_error",
        ReconcileError::Encode(_) => "cache_error",
    };
    let retryable = match error {
        ReconcileError::Driver(driver) => driver.retryable(),
        _ => false,
    };
    ApplyError {
        gateway_id: gateway_id.to_owned(),
        revision,
        code: code.to_owned(),
        message: error.message(),
        retryable,
    }
}

/// What a snapshot was sent for.
#[derive(Debug, Clone, Copy, PartialEq, Eq, Structural)]
pub enum Purpose {
    Apply,
    Prepare { migration_id: Uuid },
}

/// A state that waits for its migration.
pub struct PendingMigration {
    pub migration_id: Uuid,
    pub gateway_id: Uuid,
    pub state: DesiredGatewayState,
}

/// The states that wait for their migrations, one for each migration and gateway.
pub struct PendingMigrations {
    entries: Vec<PendingMigration>,
}

/// What an agent has to do about a message.
pub enum AgentStep {
    /// Nothing.
    Ignore,
    /// Hand the credential in the snapshot to the gateway's backend, then go on with the
    /// snapshot.
    Configure { gateway_id: Uuid, snapshot: DesiredSnapshot, purpose: Purpose },
    /// Go on with the snapshot.
    Proceed { snapshot: DesiredSnapshot, purpose: Purpose },
    /// Bring about a state.
    Apply { state: DesiredGatewayState, gateway_id: String, revision: u64 },
    /// Check and keep a state for a migration.
    Prepare { migration_id: Uuid, state: DesiredGatewayState },
    /// Bring about a prepared state after some seconds.
    Arm { migration_id: Uuid, state: DesiredGatewayState, wait_seconds: u64 },
    /// Forget a prepared state.
    Discard { migration_id: Uuid, gateway_id: Uuid },
    /// Answer.
    Reply(ApplyError),
    /// Give up the connection.
    Fail(String),
}

impl PendingMigrations {
    /// The waiting states by migration and gateway.
    pub closed spec fn waiting(self) -> Map<(Uuid, Uuid), StateView> {
        entry_map(self.entries@)
    }

    /// No states wait.
    pub fn new() -> (r: Self)
        ensures
            r.waiting() == Map::<(Uuid, Uuid), StateView>::empty(),
    {
        PendingMigrations { entries: Vec::new() }
    }

    /// Lets a state wait for a migration, in place of what waited there for its gateway.
    pub fn insert(&mut self, migration_id: Uuid, state: DesiredGatewayState)
        ensures
            final(self).waiting() == old(self).waiting().insert(
                (migration_id, state.gateway_id),
                state@,
            ),
    {
        let gateway_id = state.gateway_id;
        let ghost before = self.entries@;
        self.entries.push(PendingMigration { migration_id, gateway_id, state });
        assert(self.entries@.drop_last() =~= before);
    }

    /// Takes out the state that waits for a migration of a gateway.
    pub fn remove(&mut self, migration_id: Uuid, gateway_id: Uuid) -> (r: Option<
        DesiredGatewayState,
    >)
        ensures
            final(self).waiting() == old(self).waiting().remove((migration_id, gateway_id)),
            match r {
                Some(state) => old(self).waiting().contains_key((migration_id, gateway_id))
                    && state@ == old(self).waiting()[(migration_id, gateway_id)],
                None => !old(self).waiting().contains_key((migration_id, gateway_id)),
            },
    {
        let ghost key = (migration_id, gateway_id);
        let ghost all = self.entries@;
        let mut found: Option<DesiredGatewayState> = None;
        let mut kept: Vec<PendingMigration> = Vec::new();
        let mut rest: Vec<PendingMigration> = Vec::new();
        std::mem::swap(&mut rest, &mut self.entries);
        let mut n: usize = 0;
        let count = rest.len();
        assert(all.take(0) =~= Seq::<PendingMigration>::empty());
        assert(all.skip(0) =~= all);
        assert(entry_map(kept@) =~= entry_map(all.take(0)).remove(key));
        while n < count
            invariant
                n <= count == all.len(),
                key == (migration_id, gateway_id),
                rest@ == all.skip(n as int),
                entry_map(kept@) == entry_map(all.take(n as int)).remove(key),
                match found {
                    Some(state) => entry_map(all.take(n as int)).contains_key(key) && state@
                        == entry_map(all.take(n as int))[key],
                    None => !entry_map(all.take(n as int)).contains_key(key),
                },
            decreases count - n,
        {
            let entry = rest.remove(0);
            assert(rest@ =~= all.skip(n + 1));
            assert(entry == all[n as int]);
            let ghost next = all.take(n + 1);
            assert(next.drop_last() =~= all.take(n as int));
            assert(next.last() == entry);
            if entry.migration_id == migration_id && entry.gateway_id == gateway_id {
                found = Some(entry.state);
                assert(entry_map(kept@) =~= entry_map(next).remove(key));
            } else {
                let ghost before = kept@;
                kept.push(entry);
                assert(kept@.drop_last() =~= before);
                assert(entry_map(kept@) =~= entry_map(next).remove(key));
            }
            n = n + 1;
        }
        assert(all.take(n as int) =~= all);
        self.entries = kept;
        found
    }
}

spec fn entry_map(entries: Seq<PendingMigration>) -> Map<(Uuid, Uuid), StateView>
    decreases entries.len(),
{
    if entries.len() == 0 {
        Map::empty()
    } else {
        let e = entries.last();
        entry_map(entries.drop_last()).insert((e.migration_id, e.gateway_id), e.state@)
    }
}

/// What has to happen to a snapshot before it is used: nothing where it carries no credential,
/// else the credential goes to the gateway that it names; a name that is none is answered.
pub open spec fn is_credential_step(
    snapshot: DesiredSnapshot,
    purpose: Purpose,
    r: AgentStep,
) -> bool {
    if snapshot.credential_envelope@.len() == 0 {
        r matches AgentStep::Proceed { snapshot: s, purpose: p } && s@ == snapshot@ && p == purpose
    } else {
        match uuid_parsed(snapshot.gateway_id@) {
            Ok(id) => r matches AgentStep::Configure { gateway_id, snapshot: s, purpose: p }
                && gateway_id == id && s@ == snapshot@ && p == purpose,
            Err(_) => r matches AgentStep::Reply(e) && e.gateway_id@ == snapshot.gateway_id@
                && e.revision == snapshot.revision && e.code@ == "backend_error"@ && e.message@
                == "invalid desired state: "@ + "invalid gateway ID"@ && !e.retryable,
        }
    }
}

/// Whether a credential has to be handed over before a snapshot is used, and to which gateway.
pub fn credential_step(snapshot: DesiredSnapshot, purpose: Purpose) -> (r: AgentStep)
    ensures
        is_credential_step(snapshot, purpose, r),
{
    if snapshot.credential_envelope.len() == 0 {
        return AgentStep::Proceed { snapshot, purpose };
    }
    match parse_uuid_text(snapshot.gateway_id.as_str()) {
        Ok(gateway_id) => AgentStep::Configure { gateway_id, snapshot, purpose },
        Err(_) => {
            let error = ReconcileError::Driver(
                DriverError::Invalid(String::from_str("invalid gateway ID")),
            );
            AgentStep::Reply(apply_error(snapshot.gateway_id.as_str(), snapshot.revision, &error))
        },
    }
}

/// What follows once a backend was configured, or refused to be.
pub fn after_configuration(
    snapshot: DesiredSnapshot,
    purpose: Purpose,
    configured: Result<(), ReconcileError>,
) -> (r: AgentStep)
    ensures
        configured is Ok ==> (r matches AgentStep::Proceed { snapshot: s, purpose: p } && s@
            == snapshot@ && p == purpose),
        configured matches Err(error) ==> (r matches AgentStep::Reply(e) && e.gateway_id@
            == snapshot.gateway_id@ && e.revision == snapshot.revision && e.code@
            == error.code_text() && e.message@ == error.text() && e.retryable
            == error.may_succeed_later()),
{
    match configured {
        Ok(_) => AgentStep::Proceed { snapshot, purpose },
        Err(error) => AgentStep::Reply(
            apply_error(snapshot.gateway_id.as_str(), snapshot.revision, &error),
        ),
    }
}

/// What a field error says.
pub open spec fn field_error_text(e: FieldError) -> Seq<char> {
    "invalid "@ + e.field + ": "@ + e.message
}

/// What is done with a snapshot: a state to apply is applied, one for a migration is prepared.
/// A snapshot that cannot be read is answered with an error, or ends the connection where it
/// belongs to a migration.
pub fn use_snapshot(snapshot: DesiredSnapshot, purpose: Purpose) -> (r: AgentStep)
    ensures
        match (purpose, read_snapshot(snapshot@)) {
            (Purpose::Apply, Ok(s)) => r matches AgentStep::Apply { state, gateway_id, revision }
                && state@ == canonical(s) && gateway_id@ == snapshot.gateway_id@ && revision
                == snapshot.revision,
            (Purpose::Apply, Err(e)) => r matches AgentStep::Reply(reply) && reply.gateway_id@
                == snapshot.gateway_id@ && reply.revision == snapshot.revision && reply.code@
                == "invalid_snapshot"@ && reply.message@ == field_error_text(e) && !reply.retryable,
            (Purpose::Prepare { migration_id }, Ok(s)) => r matches AgentStep::Prepare {
                migration_id: m,
                state,
            } && m == migration_id && state@ == canonical(s),
            (Purpose::Prepare { .. }, Err(e)) => r matches AgentStep::Fail(message) && message@
                == field_error_text(e),
        },
{
    let gateway_id = snapshot.gateway_id.clone();
    let revision = snapshot.revision;
    match desired_from_proto(snapshot) {
        Ok(state) => match purpose {
            Purpose::Apply => AgentStep::Apply { state, gateway_id, revision },
            Purpose::Prepare { migration_id } => AgentStep::Prepare { migration_id, state },
        },
        Err(error) => match purpose {
            Purpose::Apply => AgentStep::Reply(
                ApplyError {
                    gateway_id,
                    revision,
                    code: String::from_str("invalid_snapshot"),
                    message: error.message(),
                    retryable: false,
                },
            ),
            Purpose::Prepare { .. } => AgentStep::Fail(error.message()),
        },
    }
}

/// How long an armed migration has to wait.
pub open spec fn wait_for(effective_unix_seconds: i64, now: i64) -> int {
    if effective_unix_seconds > now {
        effective_unix_seconds - now
    } else {
        0
    }
}

/// The first thing that an agent does about a message, and what it takes out of the waiting
/// states for it.
pub fn handle_controller_message(
    message: ControllerMessage,
    pending: &mut PendingMigrations,
    now: i64,
) -> (r: AgentStep)
    requires
        message matches ControllerMessage::ArmMigration { effective_unix_seconds, .. }
            ==> effective_unix_seconds - now <= i64::MAX,
    ensures
        match message {
            ControllerMessage::Desired(snapshot) => {
                &&& final(pending).waiting() == old(pending).waiting()
                &&& is_credential_step(snapshot, Purpose::Apply, r)
            },
            ControllerMessage::PrepareMigration { migration_id, future_state } => {
                &&& final(pending).waiting() == old(pending).waiting()
                &&& match (uuid_parsed(migration_id@), future_state) {
                    (Err(error), _) => r matches AgentStep::Fail(m) && m@ == error,
                    (Ok(_), None) => r matches AgentStep::Fail(m) && m@
                        == "migration state missing"@,
                    (Ok(id), Some(snapshot)) => is_credential_step(
                        snapshot,
                        (Purpose::Prepare { migration_id: id }),
                        r,
                    ),
                }
            },
            ControllerMessage::ArmMigration { migration_id, gateway_id, effective_unix_seconds } =>
                match (uuid_parsed(migration_id@), uuid_parsed(gateway_id@)) {
                    (Err(error), _) => final(pending).waiting() == old(pending).waiting() && (
                    r matches AgentStep::Fail(m) && m@ == error),
                    (Ok(_), Err(error)) => final(pending).waiting() == old(pending).waiting() && (
                    r matches AgentStep::Fail(m) && m@ == error),
                    (Ok(m), Ok(g)) => {
                        &&& final(pending).waiting() == old(pending).waiting().remove((m, g))
                        &&& old(pending).waiting().contains_key((m, g)) ==> (r matches
                            AgentStep::Arm { migration_id, state, wait_seconds } && migration_id
                            == m && state@ == old(pending).waiting()[(m, g)] && wait_seconds
                            == wait_for(effective_unix_seconds, now))
                        &&& !old(pending).waiting().contains_key((m, g)) ==> (r matches
                            AgentStep::Fail(text) && text@
                            == "controller armed an unprepared migration"@)
                    },
                },
            ControllerMessage::CancelMigration { migration_id, gateway_id } => match (
                uuid_parsed(migration_id@),
                uuid_parsed(gateway_id@),
            ) {
                (Ok(m), Ok(g)) => final(pending).waiting() == old(pending).waiting().remove((m, g))
                    && (r matches AgentStep::Discard { migration_id, gateway_id } && migration_id
                    == m && gateway_id == g),
                _ => final(pending).waiting() == old(pending).waiting() && r is Ignore,
            },
            ControllerMessage::Ping => final(pending).waiting() == old(pending).waiting()
                && r is Ignore,
            ControllerMessage::Nothing => final(pending).waiting() == old(pending).waiting()
                && r is Ignore,
        },
{
    match message {
        ControllerMessage::Desired(snapshot) => credential_step(snapshot, Purpose::Apply),
        ControllerMessage::PrepareMigration { migration_id, future_state } => {
            match parse_uuid_text(migration_id.as_str()) {
                Err(error) => AgentStep::Fail(error),
                Ok(migration_id) => match future_state {
                    None => AgentStep::Fail(String::from_str("migration state missing")),
                    Some(snapshot) => credential_step(snapshot, Purpose::Prepare { migration_id }),
                },
            }
        },
        ControllerMessage::ArmMigration { migration_id, gateway_id, effective_unix_seconds } => {
            let migration_id = match parse_uuid_text(migration_id.as_str()) {
                Err(error) => return AgentStep::Fail(error),
                Ok(id) => id,
            };
            let gateway_id = match parse_uuid_text(gateway_id.as_str()) {
                Err(error) => return AgentStep::Fail(error),
                Ok(id) => id,
            };
            match pending.remove(migration_id, gateway_id) {
                None => AgentStep::Fail(
                    String::from_str("controller armed an unprepared migration"),
                ),
                Some(state) => {
                    let wait_seconds: u64 = if effective_unix_seconds > now {
                        (effective_unix_seconds - now) as u64
                    } else {
                        0
                    };
                    AgentStep::Arm { migration_id, state, wait_seconds }
                },
            }
        },
        ControllerMessage::CancelMigration { migration_id, gateway_id } => {
            match (parse_uuid_text(migration_id.as_str()), parse_uuid_text(gateway_id.as_str())) {
                (Ok(migration_id), Ok(gateway_id)) => {
                    let _ = pending.remove(migration_id, gateway_id);
                    AgentStep::Discard { migration_id, gateway_id }
                },
                _ => AgentStep::Ignore,
            }
        },
        ControllerMessage::Ping => AgentStep::Ignore,
        ControllerMessage::Nothing => AgentStep::Ignore,
    }
}

/// What an agent answers once it tried to bring about a state.
pub fn after_apply(
    state_gateway: Uuid,
    asked_gateway: &str,
    revision: u64,
    result: Result<ApplyOutcome, ReconcileError>,
    now: i64,
) -> (r: AgentMessage)
    ensures
        match result {
            Ok(outcome) => r matches AgentMessage::Applied(m) && m.gateway_id@ == uuid_text(
                state_gateway,
            ) && m.revision == outcome.revision && m.actual_state_hash@
                == outcome.actual_state_hash@ && m.applied_unix_seconds == now,
            Err(error) => r matches AgentMessage::Error(e) && e.gateway_id@ == asked_gateway@
                && e.revision == revision && e.code@ == error.code_text() && e.message@
                == error.text() && e.retryable == error.may_succeed_later(),
        },
{
    match result {
        Ok(outcome) => AgentMessage::Applied(applied(state_gateway, outcome, now)),
        Err(error) => AgentMessage::Error(apply_error(asked_gateway, revision, &error)),
    }
}

/// Lets a checked state wait for its migration, and says so.
pub fn after_prepare(
    pending: &mut PendingMigrations,
    migration_id: Uuid,
    state: DesiredGatewayState,
    state_hash: String,
) -> (r: RevisionPrepared)
    ensures
        final(pending).waiting() == old(pending).waiting().insert(
            (migration_id, state.gateway_id),
            state@,
        ),
        r.migration_id@ == uuid_text(migration_id),
        r.gateway_id@ == uuid_text(state.gateway_id),
        r.revision == state.revision,
        r.state_hash@ == state_hash@,
{
    let gateway_id = state.gateway_id;
    let revision = state.revision;
    pending.insert(migration_id, state);
    RevisionPrepared {
        migration_id: uuid_to_text(migration_id),
        gateway_id: uuid_to_text(gateway_id),
        revision,
        state_hash,
    }
}

/// A prepared state is armed at most once: arming takes it out, and only preparing it again
/// puts it back.
pub proof fn law_arming_consumes_the_prepared_state(
    waiting: Map<(Uuid, Uuid), StateView>,
    migration_id: Uuid,
    gateway_id: Uuid,
    state: StateView,
)
    ensures
        !waiting.remove((migration_id, gateway_id)).contains_key((migration_id, gateway_id)),
        waiting.insert((migration_id, gateway_id), state).remove((migration_id, gateway_id))
            == waiting.remove((migration_id, gateway_id)),
{
    assert(waiting.insert((migration_id, gateway_id), state).remove((migration_id, gateway_id))
        =~= waiting.remove((migration_id, gateway_id)));
}

} // verus!
