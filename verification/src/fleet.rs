//! The agents that drive the gateways: their names, their secrets and whether they are there.

use vstd::prelude::*;
use vstd::string::*;

use crate::audit::{success, AuditEntry};
use crate::auth::{digest_of, token_digest};
use crate::error::{
    conflict, conflict_error, not_found, not_found_error, validation, validation_error, ApiError,
    ErrorView,
};
use crate::ids::{uuid_parsed, Uuid};
use crate::json::{json_quoted, json_string};
use crate::models::{AgentResponse, CreateAgentRequest, CreatedAgentResponse, RotatedAgentSecretResponse};
use crate::rows::{db_id, db_id_fault, unless};
use crate::text::{byte_count, byte_len, chars_of, copy_option, copy_text, opt_text, trim, trimmed};
use crate::time::{fresh, is_fresh, Timestamp};

verus! {

/// An agent to be written to the database: of its secret only the digest.
pub struct NewAgent {
    pub secret_hash: Vec<u8>,
    pub response: CreatedAgentResponse,
    pub audit: AuditEntry,
    pub details_json: String,
}

/// What is wrong with an agent to be created.
pub open spec fn create_agent_fault(request: CreateAgentRequest) -> Option<ErrorView> {
    unless(
        0 < trimmed(request.name@).len() && byte_count(trimmed(request.name@)) <= 128,
        validation("agent name must contain 1-128 characters"@),
    )
}

/// The agent that a request asks for, with a secret that was drawn.
pub fn create_agent(request: &CreateAgentRequest, id: Uuid, secret: &str) -> (r: Result<
    NewAgent,
    ApiError,
>)
    ensures
        match r {
            Ok(a) => {
                let name = trimmed(request.name@);
                &&& create_agent_fault(*request) is None
                &&& a.secret_hash@ == digest_of(secret@)
                &&& a.response.id == id
                &&& a.response.name@ == name
                &&& a.response.kind@ == request.kind.name()
                &&& a.response.secret@ == secret@
                &&& a.audit.says(None, "system"@, "agent.create"@, "agent"@, Some(id), "success"@)
                &&& a.details_json@ == "{\"kind\":"@ + json_quoted(request.kind.name())
                    + ",\"name\":"@ + json_quoted(name) + "}"@
            },
            Err(e) => create_agent_fault(*request) == Some(e@),
        },
{
    let name = trim(request.name.as_str());
    if chars_of(name.as_str()).len() == 0 || byte_len(name.as_str()) > 128 {
        return Err(validation_error("agent name must contain 1-128 characters"));
    }
    let kind = request.kind.as_str();
    let details_json = String::from_str("{\"kind\":").concat(json_string(kind).as_str()).concat(
        ",\"name\":",
    ).concat(json_string(name.as_str()).as_str()).concat("}");
    Ok(
        NewAgent {
            secret_hash: token_digest(secret.as_bytes()),
            response: CreatedAgentResponse {
                id,
                name,
                kind: kind.to_owned(),
                secret: secret.to_owned(),
            },
            audit: success(None, "system", "agent.create", "agent", Some(id)),
            details_json,
        },
    )
}

/// An agent in the database.
pub struct AgentRow {
    pub id: String,
    pub name: String,
    pub kind: String,
    pub version: Option<String>,
    pub last_seen_at: Option<String>,
}

/// What is told of an agent: it is there if it was seen within the last 45 seconds.
pub fn agent_from_row(row: &AgentRow, now: Timestamp) -> (r: Result<AgentResponse, ApiError>)
    ensures
        match r {
            Ok(a) => {
                &&& uuid_parsed(row.id@) == Ok::<Uuid, Seq<char>>(a.id)
                &&& a.name@ == row.name@
                &&& a.kind@ == row.kind@
                &&& opt_text(a.version) == opt_text(row.version)
                &&& opt_text(a.last_seen_at) == opt_text(row.last_seen_at)
                &&& a.online == is_fresh(opt_text(row.last_seen_at), now)
            },
            Err(e) => db_id_fault(row.id@, "agent"@) == Some(e@),
        },
{
    let id = db_id(row.id.as_str(), "agent")?;
    let online = match &row.last_seen_at {
        Some(at) => fresh(Some(at.as_str()), now),
        None => false,
    };
    Ok(
        AgentResponse {
            id,
            name: copy_text(&row.name),
            kind: copy_text(&row.kind),
            version: copy_option(&row.version),
            last_seen_at: copy_option(&row.last_seen_at),
            online,
        },
    )
}

/// The next secret of an agent to be written to the database.
pub struct NextSecret {
    pub secret_hash: Vec<u8>,
    pub response: RotatedAgentSecretResponse,
    pub audit: AuditEntry,
    pub details_json: &'static str,
}

/// The next secret of an agent that exists, which was drawn. The present one stays valid beside
/// it.
pub fn rotate_agent_secret(agent_exists: bool, agent_id: Uuid, secret: &str) -> (r: Result<
    NextSecret,
    ApiError,
>)
    ensures
        if agent_exists {
            &&& r matches Ok(n)
            &&& n.secret_hash@ == digest_of(secret@)
            &&& n.response.agent_id == agent_id
            &&& n.response.secret@ == secret@
            &&& n.audit.says(
                None,
                "system"@,
                "agent.secret.rotate"@,
                "agent"@,
                Some(agent_id),
                "success"@,
            )
            &&& n.details_json@ == "{\"overlap\":true}"@
        } else {
            r matches Err(e) && e@ == not_found("agent does not exist"@)
        },
{
    if !agent_exists {
        return Err(not_found_error("agent does not exist"));
    }
    Ok(
        NextSecret {
            secret_hash: token_digest(secret.as_bytes()),
            response: RotatedAgentSecretResponse { agent_id, secret: secret.to_owned() },
            audit: success(None, "system", "agent.secret.rotate", "agent", Some(agent_id)),
            details_json: "{\"overlap\":true}",
        },
    )
}

/// What is written down when the next secret of an agent takes the place of the present one.
pub fn promote_agent_secret(has_next: bool, agent_id: Uuid) -> (r: Result<
    (AuditEntry, &'static str),
    ApiError,
>)
    ensures
        if has_next {
            &&& r matches Ok(p)
            &&& p.0.says(
                None,
                "system"@,
                "agent.secret.promote"@,
                "agent"@,
                Some(agent_id),
                "success"@,
            )
            &&& p.1@ == "{\"overlap\":false}"@
        } else {
            r matches Err(e) && e@ == conflict("agent has no next secret to promote"@)
        },
{
    if !has_next {
        return Err(conflict_error("agent has no next secret to promote"));
    }
    Ok(
        (
            success(None, "system", "agent.secret.promote", "agent", Some(agent_id)),
            "{\"overlap\":false}",
        ),
    )
}

} // verus!
