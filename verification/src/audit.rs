//! What is written down of the changes that are made.

use vstd::prelude::*;

use crate::ids::Uuid;

verus! {

/// An entry of the audit log.
#[derive(Debug, Clone, Copy)]
pub struct AuditEntry {
    pub actor_user_id: Option<Uuid>,
    pub actor_kind: &'static str,
    pub action: &'static str,
    pub object_kind: &'static str,
    pub object_id: Option<Uuid>,
    pub outcome: &'static str,
    pub details_json: &'static str,
}

impl AuditEntry {
    /// Whether the entry says who did what to what, and with which outcome.
    pub open spec fn says(
        self,
        actor: Option<Uuid>,
        actor_kind: Seq<char>,
        action: Seq<char>,
        object_kind: Seq<char>,
        object_id: Option<Uuid>,
        outcome: Seq<char>,
    ) -> bool {
        &&& self.actor_user_id == actor
        &&& self.actor_kind@ == actor_kind
        &&& self.action@ == action
        &&& self.object_kind@ == object_kind
        &&& self.object_id == object_id
        &&& self.outcome@ == outcome
        &&& self.details_json@ == "{}"@
    }

    /// Whether the entry says that a user did something.
    pub open spec fn by_user(
        self,
        actor: Uuid,
        action: Seq<char>,
        object_kind: Seq<char>,
        object_id: Option<Uuid>,
    ) -> bool {
        self.says(Some(actor), "user"@, action, object_kind, object_id, "success"@)
    }
}

/// The entry that something was done.
pub fn success(
    actor: Option<Uuid>,
    actor_kind: &'static str,
    action: &'static str,
    object_kind: &'static str,
    object_id: Option<Uuid>,
) -> (r: AuditEntry)
    ensures
        r.says(actor, actor_kind@, action@, object_kind@, object_id, "success"@),
{
    AuditEntry {
        actor_user_id: actor,
        actor_kind,
        action,
        object_kind,
        object_id,
        outcome: "success",
        details_json: "{}",
    }
}

/// The entry that a user did something.
pub fn user_did(
    actor: Uuid,
    action: &'static str,
    object_kind: &'static str,
    object_id: Option<Uuid>,
) -> (r: AuditEntry)
    ensures
        r.by_user(actor, action@, object_kind@, object_id),
{
    success(Some(actor), "user", action, object_kind, object_id)
}

/// The entry that somebody unknown failed to sign in.
pub fn record_auth_failure(action: &'static str) -> (r: AuditEntry)
    ensures
        r.says(None, "anonymous"@, action@, "session"@, None, "failure"@),
{
    AuditEntry {
        actor_user_id: None,
        actor_kind: "anonymous",
        action,
        object_kind: "session",
        object_id: None,
        outcome: "failure",
        details_json: "{}",
    }
}

/// How many entries a listing shows that does not say.
pub fn default_audit_limit() -> (r: u32)
    ensures
        r == 100,
{
    100
}

/// How many entries a listing shows.
pub open spec fn audit_limit_of(limit: u32) -> u32 {
    if limit < 1 {
        1
    } else if limit > 500 {
        500
    } else {
        limit
    }
}

/// How many entries a listing shows: from 1 to 500.
pub fn audit_limit(limit: u32) -> (r: u32)
    ensures
        r == audit_limit_of(limit),
        1 <= r <= 500,
{
    if limit < 1 {
        1
    } else if limit > 500 {
        500
    } else {
        limit
    }
}

} // verus!
