//! The life of users and groups, and the administrators without whom there is no way back.

use vstd::prelude::*;
use vstd::string::*;

use crate::audit::{success, AuditEntry};
use crate::desired::{exposed, exposure_fault, gateway_ids_that_may_hold_device, AckRow, HistoryRow};
use crate::error::{
    checks, conflict, conflict_error, identity_error, not_found, not_found_error, validation,
    validation_error, ApiError, ErrorView,
};
use crate::fingerprint::bool_json;
use crate::identity::{
    is_email, normalize_email, normalize_group_name, normalized, IdentityError,
};
use crate::ids::{uuid_parsed, uuid_text, uuid_to_text, Uuid};
use crate::json::{json_quoted, json_string};
use crate::lines::holds_text;
use crate::models::{
    CreateGroupRequest, CreateUserRequest, GroupMemberResponse, GroupResponse, UserResponse,
};
use crate::rows::{db_id, db_id_fault, opt_str, or_fault, unless};
use crate::scrub::word_texts;
use crate::state::DesiredGatewayState;
use crate::text::{
    chars_of, copy_text, decimal, decimal_text, opt_text, push_text, same_text, texts, trim, trimmed,
};

verus! {

/// What there can be only one of.
#[derive(Debug, Clone, Copy, PartialEq, Eq, Structural)]
pub enum Unique {
    Email,
    GroupName,
    AgentName,
    ProviderName,
    PublicKey,
}

impl Unique {
    /// What is said where there is one already.
    pub open spec fn taken(self) -> Seq<char> {
        match self {
            Unique::Email => "email already exists"@,
            Unique::GroupName => "group name already exists"@,
            Unique::AgentName => "agent name already exists"@,
            Unique::ProviderName => "provider name already exists"@,
            Unique::PublicKey => "public key is already active"@,
        }
    }
}

/// The refusal of something that there is one of already.
pub fn already_taken(what: Unique) -> (r: ApiError)
    ensures
        r@ == conflict(what.taken()),
{
    conflict_error(
        match what {
            Unique::Email => "email already exists",
            Unique::GroupName => "group name already exists",
            Unique::AgentName => "agent name already exists",
            Unique::ProviderName => "provider name already exists",
            Unique::PublicKey => "public key is already active",
        },
    )
}

/// A user to be written to the database, with a local identity.
pub struct NewUser {
    pub id: Uuid,
    pub identity_id: Uuid,
    pub email: String,
    pub name: String,
    pub title: String,
    pub audit: AuditEntry,
    pub details_json: String,
}

/// What is wrong with a user to be created.
pub open spec fn create_user_fault(request: CreateUserRequest) -> Option<ErrorView> {
    if !is_email(normalized(request.email@)) {
        Some(validation(IdentityError::InvalidEmail.text()))
    } else if trimmed(request.name@).len() == 0 {
        Some(validation("name is required"@))
    } else {
        None
    }
}

/// The user that a request asks for.
pub fn create_user(request: &CreateUserRequest, id: Uuid, identity_id: Uuid) -> (r: Result<
    NewUser,
    ApiError,
>)
    ensures
        match r {
            Ok(u) => {
                &&& create_user_fault(*request) is None
                &&& u.id == id
                &&& u.identity_id == identity_id
                &&& u.email@ == normalized(request.email@)
                &&& u.name@ == trimmed(request.name@)
                &&& u.title@ == trimmed(request.title@)
                &&& u.audit.says(None, "system"@, "user.create"@, "user"@, Some(id), "success"@)
                &&& u.details_json@ == "{\"email\":"@ + json_quoted(u.email@) + "}"@
            },
            Err(e) => create_user_fault(*request) == Some(e@),
        },
{
    let email = match normalize_email(request.email.as_str()) {
        Ok(e) => e,
        Err(error) => return Err(identity_error(&error)),
    };
    let name = trim(request.name.as_str());
    if chars_of(name.as_str()).len() == 0 {
        return Err(validation_error("name is required"));
    }
    let details_json = String::from_str("{\"email\":").concat(
        json_string(email.as_str()).as_str(),
    ).concat("}");
    Ok(
        NewUser {
            id,
            identity_id,
            email,
            name,
            title: trim(request.title.as_str()),
            audit: success(None, "system", "user.create", "user", Some(id)),
            details_json,
        },
    )
}

/// A user in the database.
pub struct UserRow {
    pub id: String,
    pub email: String,
    pub name: String,
    pub title: String,
    pub manual_disabled: bool,
    pub ldap_disabled: bool,
    pub device_limit_override: Option<i64>,
    pub soft_deleted_at: Option<String>,
    pub purged_at: Option<String>,
    pub created_at: String,
}

/// Whether a response tells of a user in the database.
pub open spec fn tells_user(u: UserResponse, row: UserRow, default_limit: u32) -> bool {
    &&& uuid_parsed(row.id@) == Ok::<Uuid, Seq<char>>(u.id)
    &&& u.email@ == row.email@
    &&& u.name@ == row.name@
    &&& u.title@ == row.title@
    &&& u.manual_disabled == row.manual_disabled
    &&& u.ldap_disabled == row.ldap_disabled
    &&& u.soft_deleted == (row.soft_deleted_at is Some)
    &&& u.disabled == (row.manual_disabled || row.ldap_disabled || row.soft_deleted_at is Some)
    &&& u.purged == (row.purged_at is Some)
    &&& u.device_limit == (match row.device_limit_override {
        Some(limit) => limit as u32,
        None => default_limit,
    })
    &&& u.created_at@ == row.created_at@
}

/// What is told of a user.
pub fn user_from_row(row: &UserRow, default_limit: u32) -> (r: Result<UserResponse, ApiError>)
    ensures
        match r {
            Ok(u) => tells_user(u, *row, default_limit),
            Err(e) => db_id_fault(row.id@, "user"@) == Some(e@),
        },
{
    let id = db_id(row.id.as_str(), "user")?;
    let soft_deleted = row.soft_deleted_at.is_some();
    Ok(
        UserResponse {
            id,
            email: copy_text(&row.email),
            name: copy_text(&row.name),
            title: copy_text(&row.title),
            manual_disabled: row.manual_disabled,
            ldap_disabled: row.ldap_disabled,
            disabled: row.manual_disabled || row.ldap_disabled || soft_deleted,
            soft_deleted,
            purged: row.purged_at.is_some(),
            device_limit: match row.device_limit_override {
                Some(limit) => #[verifier::truncate] (limit as u32),
                None => default_limit,
            },
            created_at: copy_text(&row.created_at),
        },
    )
}

/// What is told of the user with an id.
pub fn get_user(row: &Option<UserRow>, default_limit: u32) -> (r: Result<UserResponse, ApiError>)
    ensures
        match *row {
            None => r matches Err(e) && e@ == not_found("user does not exist"@),
            Some(found) => match r {
                Ok(u) => tells_user(u, found, default_limit),
                Err(e) => db_id_fault(found.id@, "user"@) == Some(e@),
            },
        },
{
    match row {
        None => Err(not_found_error("user does not exist")),
        Some(found) => user_from_row(found, default_limit),
    }
}

/// A member of the group of administrators.
#[derive(Debug, Clone, Copy, PartialEq, Eq, Structural)]
pub struct AdminRow {
    pub user_id: Uuid,
    pub manual_disabled: bool,
    pub ldap_disabled: bool,
    pub soft_deleted: bool,
}

impl AdminRow {
    /// Whether the administrator can act.
    pub open spec fn enabled(self) -> bool {
        !self.manual_disabled && !self.ldap_disabled && !self.soft_deleted
    }
}

/// Whether a user is among the administrators.
pub open spec fn is_admin(admins: Seq<AdminRow>, user_id: Uuid) -> bool {
    exists|i: int| 0 <= i < admins.len() && (#[trigger] admins[i]).user_id == user_id
}

/// Whether an administrator other than a user can act.
pub open spec fn another_enabled(admins: Seq<AdminRow>, user_id: Uuid) -> bool {
    exists|i: int|
        0 <= i < admins.len() && (#[trigger] admins[i]).user_id != user_id && admins[i].enabled()
}

/// Whether some administrator can act.
pub open spec fn some_enabled(admins: Seq<AdminRow>) -> bool {
    exists|i: int| 0 <= i < admins.len() && (#[trigger] admins[i]).enabled()
}

/// Whether a user is the last administrator who can act, or would be missed as such.
pub open spec fn is_last_admin(admins: Seq<AdminRow>, user_id: Uuid) -> bool {
    is_admin(admins, user_id) && !another_enabled(admins, user_id)
}

/// Whether a user is the last administrator who can act, or would be missed as such.
pub fn last_admin(admins: &[AdminRow], user_id: Uuid) -> (r: bool)
    ensures
        r == is_last_admin(admins@, user_id),
{
    let mut member = false;
    let mut another = false;
    let mut i: usize = 0;
    while i < admins.len()
        invariant
            i <= admins@.len(),
            member == (exists|k: int| 0 <= k < i && (#[trigger] admins@[k]).user_id == user_id),
            another == (exists|k: int|
                0 <= k < i && (#[trigger] admins@[k]).user_id != user_id && admins@[k].enabled()),
        decreases admins@.len() - i,
    {
        let a = admins[i];
        assert(admins@[i as int] == a);
        if a.user_id == user_id {
            member = true;
        } else if !a.manual_disabled && !a.ldap_disabled && !a.soft_deleted {
            another = true;
        }
        i = i + 1;
    }
    member && !another
}

/// Lets users go who are not the last administrator.
pub fn ensure_not_last_admin(admins: &[AdminRow], user_id: Uuid) -> (r: Result<(), ApiError>)
    ensures
        checks(
            r,
            unless(
                !is_last_admin(admins@, user_id),
                conflict("cannot remove the last enabled administrator"@),
            ),
        ),
{
    if last_admin(admins, user_id) {
        Err(conflict_error("cannot remove the last enabled administrator"))
    } else {
        Ok(())
    }
}

/// What is wrong with who can act after a change: nobody can, where there is a group of
/// administrators at all.
pub open spec fn lockout_fault(group_exists: bool, admins: Seq<AdminRow>) -> Option<ErrorView> {
    unless(
        !group_exists || some_enabled(admins),
        conflict("change would leave WireMesh without an enabled administrator"@),
    )
}

/// Lets changes pass after which an administrator can act. Before the first administrator is set
/// up there is no group of administrators, and nothing to lose.
pub fn ensure_enabled_admin_exists(group_exists: bool, admins: &[AdminRow]) -> (r: Result<
    (),
    ApiError,
>)
    ensures
        checks(r, lockout_fault(group_exists, admins@)),
{
    if !group_exists {
        return Ok(());
    }
    let mut i: usize = 0;
    while i < admins.len()
        invariant
            i <= admins@.len(),
            group_exists,
            forall|k: int| 0 <= k < i ==> !(#[trigger] admins@[k]).enabled(),
        decreases admins@.len() - i,
    {
        let a = admins[i];
        if !a.manual_disabled && !a.ldap_disabled && !a.soft_deleted {
            assert(admins@[i as int].enabled());
            return Ok(());
        }
        i = i + 1;
    }
    Err(conflict_error("change would leave WireMesh without an enabled administrator"))
}

/// The administrators after a user was disabled or enabled.
pub open spec fn admins_after(admins: Seq<AdminRow>, user_id: Uuid, disabled: bool) -> Seq<AdminRow> {
    admins.map_values(
        |a: AdminRow|
            if a.user_id == user_id {
                AdminRow { manual_disabled: disabled, ..a }
            } else {
                a
            },
    )
}

/// Why a user is not disabled or enabled.
pub open spec fn disable_fault(
    exists_user: bool,
    disabled: bool,
    group_exists: bool,
    admins: Seq<AdminRow>,
    user_id: Uuid,
) -> Option<ErrorView> {
    if !exists_user {
        Some(not_found("user does not exist"@))
    } else if disabled && is_last_admin(admins, user_id) {
        Some(conflict("cannot disable the last enabled administrator"@))
    } else {
        lockout_fault(group_exists, admins_after(admins, user_id, disabled))
    }
}

fn change_admins(admins: &[AdminRow], user_id: Uuid, disabled: bool) -> (r: Vec<AdminRow>)
    ensures
        r@ == admins_after(admins@, user_id, disabled),
{
    let ghost goal = admins_after(admins@, user_id, disabled);
    let mut out: Vec<AdminRow> = Vec::new();
    let mut i: usize = 0;
    while i < admins.len()
        invariant
            i <= admins@.len(),
            goal == admins_after(admins@, user_id, disabled),
            out@ =~= goal.take(i as int),
        decreases admins@.len() - i,
    {
        let a = admins[i];
        let next = if a.user_id == user_id {
            AdminRow {
                user_id: a.user_id,
                manual_disabled: disabled,
                ldap_disabled: a.ldap_disabled,
                soft_deleted: a.soft_deleted,
            }
        } else {
            a
        };
        out.push(next);
        assert(goal.take(i + 1) =~= goal.take(i as int).push(goal[i as int]));
        i = i + 1;
    }
    assert(goal.take(i as int) =~= goal);
    out
}

/// What disabling or enabling a user changes.
pub struct DisablePlan {
    /// Whether the sessions of the user end, and the flows of its devices.
    pub cut_off: bool,
    pub audit: AuditEntry,
    pub details_json: String,
}

/// What disabling or enabling a user changes. The last administrator cannot be disabled.
pub fn set_user_disabled(
    exists_user: bool,
    user_id: Uuid,
    disabled: bool,
    group_exists: bool,
    admins: &[AdminRow],
) -> (r: Result<DisablePlan, ApiError>)
    ensures
        match r {
            Ok(p) => {
                &&& disable_fault(exists_user, disabled, group_exists, admins@, user_id) is None
                &&& p.cut_off == disabled
                &&& p.audit.says(
                    None,
                    "system"@,
                    "user.disable"@,
                    "user"@,
                    Some(user_id),
                    "success"@,
                )
                &&& p.details_json@ == "{\"disabled\":"@ + bool_json(disabled) + "}"@
            },
            Err(e) => disable_fault(exists_user, disabled, group_exists, admins@, user_id) == Some(
                e@,
            ),
        },
{
    if !exists_user {
        return Err(not_found_error("user does not exist"));
    }
    if disabled && last_admin(admins, user_id) {
        return Err(conflict_error("cannot disable the last enabled administrator"));
    }
    let after = change_admins(admins, user_id, disabled);
    ensure_enabled_admin_exists(group_exists, after.as_slice())?;
    let details_json = String::from_str("{\"disabled\":").concat(
        if disabled {
            "true"
        } else {
            "false"
        },
    ).concat("}");
    Ok(
        DisablePlan {
            cut_off: disabled,
            audit: success(None, "system", "user.disable", "user", Some(user_id)),
            details_json,
        },
    )
}

/// As long as there is a group of administrators, disabling or enabling a user leaves one who can
/// act.
pub proof fn law_an_administrator_remains(
    disabled: bool,
    admins: Seq<AdminRow>,
    user_id: Uuid,
)
    requires
        disable_fault(true, disabled, true, admins, user_id) is None,
    ensures
        some_enabled(admins_after(admins, user_id, disabled)),
{
}

/// A user in the database, by how far it is on its way out.
pub struct LifecycleRow {
    pub email: String,
    pub soft_deleted: bool,
    pub purged: bool,
}

/// How it goes on with a user on its way out.
#[derive(Debug, Clone, Copy, PartialEq, Eq, Structural)]
pub enum LifecycleStep {
    /// There is nothing left to do.
    Unchanged,
    /// The change is made.
    Proceed,
}

/// Why no user goes or comes back while a migration goes on.
pub open spec fn lifecycle_paused(active_migrations: i64) -> Option<ErrorView> {
    unless(
        active_migrations <= 0,
        conflict("user lifecycle changes are paused during an active subnet migration"@),
    )
}

fn ensure_not_paused(active_migrations: i64) -> (r: Result<(), ApiError>)
    ensures
        checks(r, lifecycle_paused(active_migrations)),
{
    if active_migrations > 0 {
        Err(
            conflict_error("user lifecycle changes are paused during an active subnet migration"),
        )
    } else {
        Ok(())
    }
}

/// Why a user is not deleted.
pub open spec fn soft_delete_fault(
    active_migrations: i64,
    row: Option<LifecycleRow>,
    admins: Seq<AdminRow>,
    user_id: Uuid,
) -> Option<ErrorView> {
    or_fault(
        lifecycle_paused(active_migrations),
        match row {
            None => Some(not_found("user does not exist"@)),
            Some(u) => if u.purged {
                Some(conflict("purged users cannot be changed"@))
            } else if u.soft_deleted {
                None
            } else {
                unless(
                    !is_last_admin(admins, user_id),
                    conflict("cannot remove the last enabled administrator"@),
                )
            },
        },
    )
}

/// How it goes on with a user that is to be deleted in a way that can be undone.
pub fn soft_delete_user(
    active_migrations: i64,
    row: &Option<LifecycleRow>,
    admins: &[AdminRow],
    user_id: Uuid,
) -> (r: Result<LifecycleStep, ApiError>)
    ensures
        match r {
            Ok(step) => {
                &&& soft_delete_fault(active_migrations, *row, admins@, user_id) is None
                &&& row is Some
                &&& step == (if row->0.soft_deleted {
                    LifecycleStep::Unchanged
                } else {
                    LifecycleStep::Proceed
                })
            },
            Err(e) => soft_delete_fault(active_migrations, *row, admins@, user_id) == Some(e@),
        },
{
    ensure_not_paused(active_migrations)?;
    match row {
        None => Err(not_found_error("user does not exist")),
        Some(u) => {
            if u.purged {
                return Err(conflict_error("purged users cannot be changed"));
            }
            if u.soft_deleted {
                return Ok(LifecycleStep::Unchanged);
            }
            ensure_not_last_admin(admins, user_id)?;
            Ok(LifecycleStep::Proceed)
        },
    }
}

/// The administrators after a user was deleted in a way that can be undone.
pub open spec fn admins_without(admins: Seq<AdminRow>, user_id: Uuid) -> Seq<AdminRow> {
    admins.map_values(
        |a: AdminRow|
            if a.user_id == user_id {
                AdminRow { soft_deleted: true, ..a }
            } else {
                a
            },
    )
}

/// Where an administrator can act, deleting a user leaves one who can.
pub proof fn law_deleting_leaves_an_administrator(
    active_migrations: i64,
    row: LifecycleRow,
    admins: Seq<AdminRow>,
    user_id: Uuid,
)
    requires
        !row.soft_deleted,
        some_enabled(admins),
        soft_delete_fault(active_migrations, Some(row), admins, user_id) is None,
    ensures
        some_enabled(admins_without(admins, user_id)),
{
    let after = admins_without(admins, user_id);
    let i = if is_admin(admins, user_id) {
        choose|i: int|
            0 <= i < admins.len() && (#[trigger] admins[i]).user_id != user_id
                && admins[i].enabled()
    } else {
        choose|i: int| 0 <= i < admins.len() && (#[trigger] admins[i]).enabled()
    };
    assert(admins[i].user_id != user_id);
    assert(after[i] == admins[i]);
}

/// What is wrong with the history of the gateways, for the first of some devices for which
/// something is.
pub open spec fn devices_exposure_fault(history: Seq<HistoryRow>, devices: Seq<Uuid>) -> Option<
    ErrorView,
>
    decreases devices.len(),
{
    if devices.len() == 0 {
        None
    } else {
        or_fault(
            devices_exposure_fault(history, devices.drop_last()),
            exposure_fault(history, devices.last()),
        )
    }
}

/// The gateways that may hold one of some devices.
pub open spec fn all_exposed(history: Seq<HistoryRow>, devices: Seq<Uuid>) -> Set<Uuid>
    decreases devices.len(),
{
    if devices.len() == 0 {
        Set::empty()
    } else {
        all_exposed(history, devices.drop_last()).union(exposed(history, devices.last()))
    }
}

proof fn lemma_later_exposure(history: Seq<HistoryRow>, devices: Seq<Uuid>, i: int)
    requires
        0 <= i <= devices.len(),
        devices_exposure_fault(history, devices.take(i)) is Some,
    ensures
        devices_exposure_fault(history, devices) == devices_exposure_fault(
            history,
            devices.take(i),
        ),
    decreases devices.len(),
{
    if i == devices.len() {
        assert(devices.take(i) =~= devices);
    } else {
        assert(devices.drop_last().take(i) =~= devices.take(i));
        lemma_later_exposure(history, devices.drop_last(), i);
    }
}

fn add_ids(set: &mut std::collections::BTreeSet<Uuid>, ids: &[Uuid])
    ensures
        final(set)@ == old(set)@.union(ids@.to_set()),
{
    let ghost before = set@;
    let mut i: usize = 0;
    assert(set@ =~= before.union(ids@.take(0).to_set()));
    while i < ids.len()
        invariant
            i <= ids@.len(),
            set@ == before.union(ids@.take(i as int).to_set()),
        decreases ids@.len() - i,
    {
        let ghost was = set@;
        crate::sets::insert_id(set, ids[i]);
        proof {
            let a = ids@.take(i as int);
            let b = ids@.take(i + 1);
            assert(b =~= a.push(ids@[i as int]));
            assert forall|x: Uuid| b.contains(x) == (a.contains(x) || x == ids@[i as int]) by {
                if a.contains(x) {
                    let k = choose|k: int| 0 <= k < a.len() && a[k] == x;
                    assert(b[k] == x);
                }
                if x == ids@[i as int] {
                    assert(b[i as int] == x);
                }
                if b.contains(x) {
                    let k = choose|k: int| 0 <= k < b.len() && b[k] == x;
                    if k < i {
                        assert(a[k] == x);
                    }
                }
            }
            assert(set@ =~= before.union(b.to_set()));
        }
        i = i + 1;
    }
    assert(ids@.take(i as int) =~= ids@);
}

/// The gateways that may hold one of some devices, in increasing order.
pub fn gateways_of_devices(history: &[HistoryRow], devices: &[Uuid]) -> (r: Result<
    Vec<Uuid>,
    ApiError,
>)
    ensures
        match r {
            Ok(ids) => {
                &&& devices_exposure_fault(history@, devices@) is None
                &&& ids@.to_set() == all_exposed(history@, devices@)
                &&& crate::sets::increasing(ids@)
            },
            Err(e) => devices_exposure_fault(history@, devices@) == Some(e@),
        },
{
    let mut ids: std::collections::BTreeSet<Uuid> = std::collections::BTreeSet::new();
    let mut i: usize = 0;
    while i < devices.len()
        invariant
            i <= devices@.len(),
            devices_exposure_fault(history@, devices@.take(i as int)) is None,
            ids@ == all_exposed(history@, devices@.take(i as int)),
        decreases devices@.len() - i,
    {
        let ghost next = devices@.take(i + 1);
        proof {
            assert(next.drop_last() =~= devices@.take(i as int));
            assert(next.last() == devices@[i as int]);
        }
        match gateway_ids_that_may_hold_device(history, devices[i]) {
            Ok(found) => {
                add_ids(&mut ids, found.as_slice());
            },
            Err(e) => {
                proof {
                    lemma_later_exposure(history@, devices@, i + 1);
                }
                return Err(e);
            },
        }
        i = i + 1;
    }
    assert(devices@.take(i as int) =~= devices@);
    Ok(crate::sets::sorted_ids(&ids))
}

/// What gateways have to acknowledge that were rebuilt: the states that they were rebuilt to.
pub open spec fn required_acks(states: Seq<DesiredGatewayState>) -> Seq<AckRow> {
    states.map_values(
        |s: DesiredGatewayState|
            AckRow {
                gateway_id: s.gateway_id,
                required_revision: s.revision as i64,
                acknowledged: false,
            },
    )
}

/// What gateways have to acknowledge that were rebuilt.
pub fn acks_for(states: &[DesiredGatewayState]) -> (r: Vec<AckRow>)
    ensures
        r@ == required_acks(states@),
{
    let ghost goal = required_acks(states@);
    let mut out: Vec<AckRow> = Vec::new();
    let mut i: usize = 0;
    while i < states.len()
        invariant
            i <= states@.len(),
            goal == required_acks(states@),
            out@ =~= goal.take(i as int),
        decreases states@.len() - i,
    {
        out.push(
            AckRow {
                gateway_id: states[i].gateway_id,
                required_revision: #[verifier::truncate] (states[i].revision as i64),
                acknowledged: false,
            },
        );
        assert(goal.take(i + 1) =~= goal.take(i as int).push(goal[i as int]));
        i = i + 1;
    }
    assert(goal.take(i as int) =~= goal);
    out
}

/// What is written down of a user that was deleted.
pub fn soft_delete_audit(user_id: Uuid, pending: usize) -> (r: (AuditEntry, String))
    ensures
        r.0.says(None, "system"@, "user.soft_delete"@, "user"@, Some(user_id), "success"@),
        r.1@ == "{\"pending_gateways\":"@ + decimal(pending as nat) + "}"@,
{
    (
        success(None, "system", "user.soft_delete", "user", Some(user_id)),
        String::from_str("{\"pending_gateways\":").concat(
            decimal_text(pending as u64).as_str(),
        ).concat("}"),
    )
}

/// Why a user does not come back.
pub open spec fn restore_fault(active_migrations: i64, row: Option<LifecycleRow>) -> Option<ErrorView> {
    or_fault(
        lifecycle_paused(active_migrations),
        match row {
            None => Some(not_found("user does not exist"@)),
            Some(u) => if u.purged {
                Some(conflict("a purged user cannot be restored"@))
            } else {
                unless(u.soft_deleted, conflict("user is not soft-deleted"@))
            },
        },
    )
}

/// Lets users come back that were deleted and not purged.
pub fn restore_user(active_migrations: i64, row: &Option<LifecycleRow>) -> (r: Result<(), ApiError>)
    ensures
        checks(r, restore_fault(active_migrations, *row)),
{
    ensure_not_paused(active_migrations)?;
    match row {
        None => Err(not_found_error("user does not exist")),
        Some(u) => if u.purged {
            Err(conflict_error("a purged user cannot be restored"))
        } else if u.soft_deleted {
            Ok(())
        } else {
            Err(conflict_error("user is not soft-deleted"))
        },
    }
}

/// What is written down of a user that came back.
pub fn restore_audit(user_id: Uuid) -> (r: AuditEntry)
    ensures
        r.says(None, "system"@, "user.restore"@, "user"@, Some(user_id), "success"@),
{
    success(None, "system", "user.restore", "user", Some(user_id))
}

/// How many requirements are not met.
pub open spec fn pending_of(acks: Seq<AckRow>) -> nat
    decreases acks.len(),
{
    if acks.len() == 0 {
        0
    } else {
        pending_of(acks.drop_last()) + (if acks.last().acknowledged {
            0nat
        } else {
            1nat
        })
    }
}

fn count_pending(acks: &[AckRow]) -> (r: usize)
    ensures
        r == pending_of(acks@),
{
    let mut n: usize = 0;
    let mut i: usize = 0;
    while i < acks.len()
        invariant
            i <= acks@.len(),
            n <= i,
            n == pending_of(acks@.take(i as int)),
        decreases acks@.len() - i,
    {
        proof {
            let next = acks@.take(i + 1);
            assert(next.drop_last() =~= acks@.take(i as int));
            assert(next.last() == acks@[i as int]);
        }
        if !acks[i].acknowledged {
            n = n + 1;
        }
        i = i + 1;
    }
    assert(acks@.take(i as int) =~= acks@);
    n
}

/// Why a user is not purged.
pub open spec fn purge_fault(
    active_migrations: i64,
    row: Option<LifecycleRow>,
    acks: Seq<AckRow>,
) -> Option<ErrorView> {
    or_fault(
        lifecycle_paused(active_migrations),
        match row {
            None => Some(not_found("user does not exist"@)),
            Some(u) => if u.purged {
                None
            } else if !u.soft_deleted {
                Some(conflict("soft-delete the user before purge"@))
            } else {
                unless(
                    pending_of(acks) == 0,
                    conflict(
                        decimal(pending_of(acks))
                            + " gateway(s) have not acknowledged peer removal"@,
                    ),
                )
            },
        },
    )
}

/// What is kept of a device besides itself.
#[derive(Debug, Clone, Copy, PartialEq, Eq, Structural)]
pub enum DeviceRecord {
    LeaseAcknowledgements,
    Leases,
    KeyAcknowledgements,
    Keys,
    Configurations,
}

/// What is left of a user that was purged, and what goes.
pub struct PurgePlan {
    pub email: String,
    pub name: &'static str,
    pub title: &'static str,
    pub manual_disabled: bool,
    pub ldap_disabled: bool,
    pub device_limit_override: Option<i64>,
    /// What goes of each device, one after the other.
    pub device_records: Vec<DeviceRecord>,
    /// The tables from which everything of the user goes afterwards, one after the other.
    pub tables: Vec<&'static str>,
    /// The address that is free again, and whose messages are dropped.
    pub released_email: String,
    /// Where the messages stand that are dropped: those that were sent stay.
    pub dropped_messages: Vec<&'static str>,
}

/// What goes of each device of a user that is purged. Acknowledgements go before what they are
/// about.
pub open spec fn purged_records() -> Seq<DeviceRecord> {
    seq![
        DeviceRecord::LeaseAcknowledgements,
        DeviceRecord::Leases,
        DeviceRecord::KeyAcknowledgements,
        DeviceRecord::Keys,
        DeviceRecord::Configurations,
    ]
}

/// The tables from which everything of a user that is purged goes.
pub open spec fn purged_tables() -> Seq<Seq<char>> {
    seq![
        "devices"@,
        "acl_rule_users"@,
        "group_memberships"@,
        "local_passwords"@,
        "passkeys"@,
        "one_time_tokens"@,
        "sessions"@,
        "user_identities"@,
        "user_deletion_gateway_acks"@,
    ]
}

/// Whether a plan purges a user: it keeps a name and an address that tell nothing, it stays
/// disabled by hand, and whatever was its own goes.
pub open spec fn purges(p: PurgePlan, user_id: Uuid, email: Seq<char>) -> bool {
    &&& p.email@ == purged_email(user_id)
    &&& p.name@ == "Purged user"@
    &&& p.title@ == ""@
    &&& p.manual_disabled
    &&& !p.ldap_disabled
    &&& p.device_limit_override is None
    &&& p.device_records@ == purged_records()
    &&& word_texts(p.tables@) == purged_tables()
    &&& p.released_email@ == email
    &&& word_texts(p.dropped_messages@) == seq!["pending"@, "sending"@, "failed"@]
}

/// The address that stands in for that of a user that was purged.
pub open spec fn purged_email(user_id: Uuid) -> Seq<char> {
    "purged+"@ + uuid_text(user_id) + "@invalid"@
}

/// What is left of a user that is purged for good: nothing, where it was purged before. A user is
/// purged only after it was deleted, and every gateway acknowledged that its devices are gone.
pub fn purge_user(
    active_migrations: i64,
    row: &Option<LifecycleRow>,
    acks: &[AckRow],
    user_id: Uuid,
) -> (r: Result<Option<PurgePlan>, ApiError>)
    ensures
        match r {
            Ok(plan) => {
                &&& purge_fault(active_migrations, *row, acks@) is None
                &&& row is Some
                &&& (plan is Some) == !row->0.purged
                &&& plan matches Some(p) ==> purges(p, user_id, row->0.email@)
            },
            Err(e) => purge_fault(active_migrations, *row, acks@) == Some(e@),
        },
{
    ensure_not_paused(active_migrations)?;
    match row {
        None => Err(not_found_error("user does not exist")),
        Some(u) => {
            if u.purged {
                return Ok(None);
            }
            if !u.soft_deleted {
                return Err(conflict_error("soft-delete the user before purge"));
            }
            let pending = count_pending(acks);
            if pending > 0 {
                return Err(
                    conflict_error(
                        decimal_text(pending as u64).concat(
                            " gateway(s) have not acknowledged peer removal",
                        ).as_str(),
                    ),
                );
            }
            let tables: Vec<&'static str> = vec![
                "devices",
                "acl_rule_users",
                "group_memberships",
                "local_passwords",
                "passkeys",
                "one_time_tokens",
                "sessions",
                "user_identities",
                "user_deletion_gateway_acks",
            ];
            let dropped_messages: Vec<&'static str> = vec!["pending", "sending", "failed"];
            let device_records: Vec<DeviceRecord> = vec![
                DeviceRecord::LeaseAcknowledgements,
                DeviceRecord::Leases,
                DeviceRecord::KeyAcknowledgements,
                DeviceRecord::Keys,
                DeviceRecord::Configurations,
            ];
            assert(word_texts(tables@) =~= purged_tables());
            assert(word_texts(dropped_messages@) =~= seq!["pending"@, "sending"@, "failed"@]);
            assert(device_records@ =~= purged_records());
            Ok(
                Some(
                    PurgePlan {
                        email: String::from_str("purged+").concat(
                            uuid_to_text(user_id).as_str(),
                        ).concat("@invalid"),
                        name: "Purged user",
                        title: "",
                        manual_disabled: true,
                        ldap_disabled: false,
                        device_limit_override: None,
                        device_records,
                        tables,
                        released_email: copy_text(&u.email),
                        dropped_messages,
                    },
                ),
            )
        },
    }
}

/// What is written down of a user that was purged.
pub fn purge_audit(user_id: Uuid, devices: usize) -> (r: (AuditEntry, String))
    ensures
        r.0.says(None, "system"@, "user.purge"@, "user"@, Some(user_id), "success"@),
        r.1@ == "{\"devices_removed\":"@ + decimal(devices as nat) + "}"@,
{
    (
        success(None, "system", "user.purge", "user", Some(user_id)),
        String::from_str("{\"devices_removed\":").concat(
            decimal_text(devices as u64).as_str(),
        ).concat("}"),
    )
}

/// While a migration goes on, users are neither deleted nor brought back nor purged.
pub proof fn law_lifecycles_are_paused(
    active_migrations: i64,
    row: Option<LifecycleRow>,
    admins: Seq<AdminRow>,
    acks: Seq<AckRow>,
    user_id: Uuid,
)
    requires
        active_migrations > 0,
    ensures
        soft_delete_fault(active_migrations, row, admins, user_id) == lifecycle_paused(
            active_migrations,
        ),
        restore_fault(active_migrations, row) == lifecycle_paused(active_migrations),
        purge_fault(active_migrations, row, acks) == lifecycle_paused(active_migrations),
        lifecycle_paused(active_migrations) is Some,
{
}

/// A user is purged only after it was deleted and every gateway acknowledged that its devices are
/// gone.
pub proof fn law_purge_waits_for_removal(row: LifecycleRow, acks: Seq<AckRow>)
    requires
        purge_fault(0, Some(row), acks) is None,
        !row.purged,
    ensures
        row.soft_deleted,
        crate::desired::all_met(acks),
{
    lemma_pending(acks);
}

proof fn lemma_pending(acks: Seq<AckRow>)
    ensures
        pending_of(acks) == 0 <==> crate::desired::all_met(acks),
    decreases acks.len(),
{
    if acks.len() > 0 {
        let d = acks.drop_last();
        lemma_pending(d);
        if crate::desired::all_met(acks) {
            assert forall|i: int| 0 <= i < d.len() implies (#[trigger] d[i]).acknowledged by {
                assert(acks[i].acknowledged);
            }
            assert(acks[acks.len() - 1].acknowledged);
        }
        if pending_of(acks) == 0 {
            assert forall|i: int| 0 <= i < acks.len() implies (#[trigger] acks[i]).acknowledged by {
                if i < d.len() {
                    assert(d[i].acknowledged);
                }
            }
        }
    }
}

/// What is wrong with the number of devices that a user may have.
pub open spec fn limit_fault(limit: Option<u32>) -> Option<ErrorView> {
    match limit {
        Some(n) => unless(
            1 <= n <= 100,
            validation("device limit must be between 1 and 100"@),
        ),
        None => None,
    }
}

/// Lets numbers of devices pass that a user may have: 1 to 100, or what holds for everybody.
pub fn check_device_limit(limit: Option<u32>) -> (r: Result<(), ApiError>)
    ensures
        checks(r, limit_fault(limit)),
{
    match limit {
        Some(n) => if n == 0 || n > 100 {
            Err(validation_error("device limit must be between 1 and 100"))
        } else {
            Ok(())
        },
        None => Ok(()),
    }
}

/// A limit in JSON.
pub open spec fn limit_json(limit: Option<u32>) -> Seq<char> {
    match limit {
        Some(n) => decimal(n as nat),
        None => "null"@,
    }
}

/// What changing the number of devices of a user writes down.
pub fn set_user_device_limit(user_id: Uuid, limit: Option<u32>, rows_affected: u64) -> (r: Result<
    (AuditEntry, String),
    ApiError,
>)
    ensures
        match or_fault(
            limit_fault(limit),
            unless(rows_affected != 0, not_found("user does not exist"@)),
        ) {
            None => {
                &&& r matches Ok(p)
                &&& p.0.says(
                    None,
                    "system"@,
                    "user.device_limit"@,
                    "user"@,
                    Some(user_id),
                    "success"@,
                )
                &&& p.1@ == "{\"limit\":"@ + limit_json(limit) + "}"@
            },
            Some(e) => r matches Err(f) && f@ == e,
        },
{
    check_device_limit(limit)?;
    if rows_affected == 0 {
        return Err(not_found_error("user does not exist"));
    }
    let value = match limit {
        Some(n) => decimal_text(n as u64),
        None => String::from_str("null"),
    };
    Ok(
        (
            success(None, "system", "user.device_limit", "user", Some(user_id)),
            String::from_str("{\"limit\":").concat(value.as_str()).concat("}"),
        ),
    )
}

/// The group that a request asks for.
pub fn create_group(request: &CreateGroupRequest, id: Uuid) -> (r: Result<
    (GroupResponse, AuditEntry, String),
    ApiError,
>)
    ensures
        if normalized(request.name@).len() == 0 {
            r matches Err(e) && e@ == validation(IdentityError::EmptyGroup.text())
        } else {
            &&& r matches Ok(p)
            &&& p.0.id == id
            &&& p.0.normalized_name@ == normalized(request.name@)
            &&& p.0.display_name@ == trimmed(request.name@)
            &&& p.0.members == 0
            &&& p.1.says(None, "system"@, "group.create"@, "group"@, Some(id), "success"@)
            &&& p.2@ == "{\"name\":"@ + json_quoted(normalized(request.name@)) + "}"@
        },
{
    let normalized_name = match normalize_group_name(request.name.as_str()) {
        Ok(n) => n,
        Err(error) => return Err(identity_error(&error)),
    };
    let details = String::from_str("{\"name\":").concat(
        json_string(normalized_name.as_str()).as_str(),
    ).concat("}");
    Ok(
        (
            GroupResponse {
                id,
                normalized_name,
                display_name: trim(request.name.as_str()),
                members: 0,
            },
            success(None, "system", "group.create", "group", Some(id)),
            details,
        ),
    )
}

/// Lets memberships pass of users and groups that exist.
pub fn ensure_group_and_user(group_exists: bool, user_exists: bool) -> (r: Result<(), ApiError>)
    ensures
        checks(
            r,
            or_fault(
                unless(group_exists, not_found("group does not exist"@)),
                unless(user_exists, not_found("user does not exist"@)),
            ),
        ),
{
    if !group_exists {
        Err(not_found_error("group does not exist"))
    } else if !user_exists {
        Err(not_found_error("user does not exist"))
    } else {
        Ok(())
    }
}

/// What is written down of a membership.
pub open spec fn membership_details(user_id: Uuid) -> Seq<char> {
    "{\"source\":\"local\",\"user_id\":"@ + json_quoted(uuid_text(user_id)) + "}"@
}

/// What is written down of a local membership that was added or removed.
pub fn membership_audit(group_id: Uuid, user_id: Uuid, added: bool) -> (r: (AuditEntry, String))
    ensures
        r.0.says(
            None,
            "system"@,
            if added {
                "group.member.add"@
            } else {
                "group.member.remove"@
            },
            "group"@,
            Some(group_id),
            "success"@,
        ),
        r.1@ == membership_details(user_id),
{
    let action = if added {
        "group.member.add"
    } else {
        "group.member.remove"
    };
    (
        success(None, "system", action, "group", Some(group_id)),
        String::from_str("{\"source\":\"local\",\"user_id\":").concat(
            json_string(uuid_to_text(user_id).as_str()).as_str(),
        ).concat("}"),
    )
}

/// Why a local membership is not removed: a change of the administrators must leave one who can
/// act.
pub open spec fn remove_member_fault(
    normalized_name: Seq<char>,
    group_exists: bool,
    admins_left: Seq<AdminRow>,
) -> Option<ErrorView> {
    if normalized_name == crate::auth::ADMIN_GROUP@ {
        lockout_fault(group_exists, admins_left)
    } else {
        None
    }
}

/// Lets local memberships be removed after which an administrator can act.
pub fn check_remove_member(normalized_name: &str, group_exists: bool, admins_left: &[AdminRow]) -> (r:
    Result<(), ApiError>)
    ensures
        checks(r, remove_member_fault(normalized_name@, group_exists, admins_left@)),
{
    if same_text(normalized_name, crate::auth::ADMIN_GROUP) {
        ensure_enabled_admin_exists(group_exists, admins_left)
    } else {
        Ok(())
    }
}

/// Where a membership comes from, for people.
pub open spec fn source_label(
    kind: Seq<char>,
    source_id: Seq<char>,
    provider_name: Option<Seq<char>>,
) -> Seq<char> {
    if kind == "local"@ {
        "local"@
    } else {
        kind + ":"@ + (match provider_name {
            Some(name) => name,
            None => source_id,
        })
    }
}

/// Where a membership comes from, for people.
pub fn membership_source(kind: &str, source_id: &str, provider_name: Option<&str>) -> (r: String)
    ensures
        r@ == source_label(kind@, source_id@, opt_str(provider_name)),
{
    if same_text(kind, "local") {
        return String::from_str("local");
    }
    let source = match provider_name {
        Some(name) => name,
        None => source_id,
    };
    String::from_str(kind).concat(":").concat(source)
}

/// One way in which someone is a member of a group, as the database has it.
pub struct MemberRow {
    pub id: String,
    pub email: String,
    pub name: String,
    pub source_kind: String,
    pub source_id: String,
    /// The name of the provider that tells of it.
    pub provider: Option<String>,
}

/// The contents of a [`GroupMemberResponse`].
pub struct MemberView {
    pub user_id: Uuid,
    pub email: Seq<char>,
    pub name: Seq<char>,
    pub sources: Seq<Seq<char>>,
}

/// The contents of a [`GroupMemberResponse`].
pub open spec fn member_view(m: GroupMemberResponse) -> MemberView {
    MemberView { user_id: m.user_id, email: m.email@, name: m.name@, sources: texts(m.sources@) }
}

/// The contents of a list of members.
pub open spec fn member_views(members: Seq<GroupMemberResponse>) -> Seq<MemberView> {
    members.map_values(|m: GroupMemberResponse| member_view(m))
}

/// Where a row says that a membership comes from.
pub open spec fn row_source(row: MemberRow) -> Seq<char> {
    source_label(row.source_kind@, row.source_id@, opt_text(row.provider))
}

/// Whom a row is about.
pub open spec fn row_user(row: MemberRow) -> Uuid {
    match uuid_parsed(row.id@) {
        Ok(id) => id,
        Err(_) => 0,
    }
}

/// A list of members with one more row: the last member has one more source, or there is another
/// member.
pub open spec fn with_row(members: Seq<MemberView>, row: MemberRow) -> Seq<MemberView> {
    if members.len() > 0 && members.last().user_id == row_user(row) {
        let last = members.last();
        if last.sources.contains(row_source(row)) {
            members
        } else {
            members.drop_last().push(
                MemberView { sources: last.sources.push(row_source(row)), ..last },
            )
        }
    } else {
        members.push(
            MemberView {
                user_id: row_user(row),
                email: row.email@,
                name: row.name@,
                sources: seq![row_source(row)],
            },
        )
    }
}

/// The members that rows tell of, where the rows about one user follow each other.
pub open spec fn listed_members(rows: Seq<MemberRow>) -> Seq<MemberView>
    decreases rows.len(),
{
    if rows.len() == 0 {
        Seq::empty()
    } else {
        with_row(listed_members(rows.drop_last()), rows.last())
    }
}

/// What is wrong with rows about members: the first that is about nobody.
pub open spec fn member_rows_fault(rows: Seq<MemberRow>) -> Option<ErrorView>
    decreases rows.len(),
{
    if rows.len() == 0 {
        None
    } else {
        or_fault(member_rows_fault(rows.drop_last()), db_id_fault(rows.last().id@, "user"@))
    }
}

proof fn lemma_first_member_fault(rows: Seq<MemberRow>, n: int)
    requires
        0 <= n <= rows.len(),
        member_rows_fault(rows.take(n)) is Some,
    ensures
        member_rows_fault(rows) == member_rows_fault(rows.take(n)),
    decreases rows.len() - n,
{
    if n < rows.len() {
        assert(rows.take(n + 1).drop_last() =~= rows.take(n));
        lemma_first_member_fault(rows, n + 1);
    } else {
        assert(rows.take(n) =~= rows);
    }
}

/// The members of a group that exists, each with the sources of the membership.
pub fn list_group_members(group_exists: bool, rows: &[MemberRow]) -> (r: Result<
    Vec<GroupMemberResponse>,
    ApiError,
>)
    ensures
        match or_fault(
            unless(group_exists, not_found("group does not exist"@)),
            member_rows_fault(rows@),
        ) {
            None => r matches Ok(members) && member_views(members@) == listed_members(rows@),
            Some(e) => r matches Err(f) && f@ == e,
        },
{
    ensure_group_and_user(group_exists, true)?;
    let mut members: Vec<GroupMemberResponse> = Vec::new();
    let mut i: usize = 0;
    assert(rows@.take(0) =~= Seq::empty());
    assert(member_views(members@) =~= Seq::empty());
    while i < rows.len()
        invariant
            i <= rows@.len(),
            group_exists,
            member_rows_fault(rows@.take(i as int)) is None,
            member_views(members@) == listed_members(rows@.take(i as int)),
        decreases rows@.len() - i,
    {
        let row = &rows[i];
        let ghost before = member_views(members@);
        proof {
            assert(rows@.take(i + 1).drop_last() =~= rows@.take(i as int));
            assert(rows@.take(i + 1).last() == *row);
        }
        let user_id = match db_id(row.id.as_str(), "user") {
            Ok(id) => id,
            Err(e) => {
                proof {
                    lemma_first_member_fault(rows@, i + 1);
                }
                return Err(e);
            },
        };
        let provider: Option<&str> = match &row.provider {
            Some(name) => Some(name.as_str()),
            None => None,
        };
        let source = membership_source(row.source_kind.as_str(), row.source_id.as_str(), provider);
        assert(source@ == row_source(*row));
        let ghost old_members = members@;
        match members.pop() {
            Some(mut last) => {
                assert(old_members.last() == last);
                assert(before.last() == member_view(last));
                assert(member_views(members@) =~= before.drop_last());
                if last.user_id == user_id {
                    if !holds_text(last.sources.as_slice(), source.as_str()) {
                        push_text(&mut last.sources, source);
                    }
                    members.push(last);
                } else {
                    let mut sources: Vec<String> = Vec::new();
                    sources.push(source);
                    assert(texts(sources@) =~= seq![row_source(*row)]);
                    members.push(last);
                    members.push(
                        GroupMemberResponse {
                            user_id,
                            email: copy_text(&row.email),
                            name: copy_text(&row.name),
                            sources,
                        },
                    );
                }
            },
            None => {
                let mut sources: Vec<String> = Vec::new();
                sources.push(source);
                assert(texts(sources@) =~= seq![row_source(*row)]);
                members.push(
                    GroupMemberResponse {
                        user_id,
                        email: copy_text(&row.email),
                        name: copy_text(&row.name),
                        sources,
                    },
                );
            },
        }
        assert(member_views(members@) =~= with_row(before, *row));
        i = i + 1;
    }
    assert(rows@.take(i as int) =~= rows@);
    Ok(members)
}

/// Whether two rows are about the same user.
pub open spec fn same_user(rows: Seq<MemberRow>, i: int, j: int) -> bool {
    row_user(rows[i]) == row_user(rows[j])
}

/// Whether the rows about one user follow each other: a row about somebody whom an earlier row is
/// about follows such a row.
pub open spec fn rows_are_grouped(rows: Seq<MemberRow>) -> bool {
    forall|i: int, j: int|
        0 <= i < j < rows.len() && #[trigger] same_user(rows, i, j) ==> row_user(rows[j - 1])
            == row_user(rows[j])
}

/// Whether what a row tells of is in a list of members.
pub open spec fn is_listed(members: Seq<MemberView>, row: MemberRow) -> bool {
    exists|a: int|
        0 <= a < members.len() && (#[trigger] members[a]).user_id == row_user(row)
            && members[a].sources.contains(row_source(row))
}

/// Every member is one whom a row is about, and the last member is the one of the last row.
proof fn lemma_members_come_from_rows(rows: Seq<MemberRow>)
    ensures
        forall|a: int|
            0 <= a < listed_members(rows).len() ==> exists|k: int|
                0 <= k < rows.len() && row_user(#[trigger] rows[k]) == (#[trigger] listed_members(
                    rows,
                )[a]).user_id,
        rows.len() > 0 ==> listed_members(rows).len() > 0 && listed_members(rows).last().user_id
            == row_user(rows.last()),
    decreases rows.len(),
{
    if rows.len() > 0 {
        let less = rows.drop_last();
        let members = listed_members(less);
        let all = listed_members(rows);
        lemma_members_come_from_rows(less);
        assert forall|a: int| 0 <= a < all.len() implies exists|k: int|
            0 <= k < rows.len() && row_user(#[trigger] rows[k]) == (#[trigger] all[a]).user_id by {
            if a < members.len() {
                assert(all[a].user_id == members[a].user_id);
                let k = choose|k: int|
                    0 <= k < less.len() && row_user(#[trigger] less[k]) == members[a].user_id;
                assert(rows[k] == less[k]);
            } else {
                assert(row_user(rows[rows.len() - 1]) == all[a].user_id);
            }
        }
    }
}

proof fn lemma_members_differ(rows: Seq<MemberRow>)
    requires
        rows_are_grouped(rows),
    ensures
        forall|a: int, b: int|
            #![trigger listed_members(rows)[a], listed_members(rows)[b]]
            0 <= a < b < listed_members(rows).len() ==> listed_members(rows)[a].user_id
                != listed_members(rows)[b].user_id,
    decreases rows.len(),
{
    if rows.len() > 0 {
        let less = rows.drop_last();
        let members = listed_members(less);
        let all = listed_members(rows);
        assert forall|i: int, j: int|
            0 <= i < j < less.len() && #[trigger] same_user(less, i, j) implies row_user(less[j - 1])
            == row_user(less[j]) by {
            assert(same_user(rows, i, j));
        }
        lemma_members_differ(less);
        lemma_members_come_from_rows(less);
        assert forall|a: int, b: int|
            #![trigger all[a], all[b]]
            0 <= a < b < all.len() implies all[a].user_id != all[b].user_id by {
            assert(all[a].user_id == members[a].user_id);
            if b < members.len() {
                assert(all[b].user_id == members[b].user_id);
            } else if members[a].user_id == row_user(rows.last()) {
                let k = choose|k: int|
                    0 <= k < less.len() && row_user(#[trigger] less[k]) == members[a].user_id;
                assert(same_user(rows, k, rows.len() - 1));
                assert(less.last() == rows[rows.len() - 2]);
                assert(false);
            }
        }
    }
}

proof fn lemma_rows_are_listed(rows: Seq<MemberRow>, i: int)
    requires
        0 <= i < rows.len(),
    ensures
        is_listed(listed_members(rows), rows[i]),
    decreases rows.len(),
{
    let less = rows.drop_last();
    let members = listed_members(less);
    let all = listed_members(rows);
    if i < rows.len() - 1 {
        lemma_rows_are_listed(less, i);
        let a = choose|a: int|
            0 <= a < members.len() && (#[trigger] members[a]).user_id == row_user(less[i])
                && members[a].sources.contains(row_source(less[i]));
        let k = members[a].sources.index_of(row_source(rows[i]));
        assert(all[a].user_id == row_user(rows[i]));
        assert(all[a].sources[k] == row_source(rows[i]));
    } else {
        let row = rows.last();
        let a = all.len() - 1;
        assert(all[a].user_id == row_user(row));
        if members.len() > 0 && members.last().user_id == row_user(row)
            && members.last().sources.contains(row_source(row)) {
            assert(all == members);
        } else {
            assert(all[a].sources.last() == row_source(row));
        }
    }
}

proof fn lemma_sources_differ(rows: Seq<MemberRow>)
    ensures
        forall|a: int|
            0 <= a < listed_members(rows).len() ==> (#[trigger] listed_members(
                rows,
            )[a]).sources.no_duplicates(),
    decreases rows.len(),
{
    if rows.len() > 0 {
        let members = listed_members(rows.drop_last());
        let all = listed_members(rows);
        lemma_sources_differ(rows.drop_last());
        assert forall|a: int| 0 <= a < all.len() implies (
        #[trigger] all[a]).sources.no_duplicates() by {
            if a < members.len() {
                assert(members[a].sources.no_duplicates());
            }
        }
    }
}

/// Where the rows about one user follow each other, everybody whom a row is about is listed, and
/// listed once, with every source that a row tells of and none twice.
pub proof fn law_members_are_listed_once(rows: Seq<MemberRow>)
    requires
        rows_are_grouped(rows),
    ensures
        forall|a: int, b: int|
            #![trigger listed_members(rows)[a], listed_members(rows)[b]]
            0 <= a < b < listed_members(rows).len() ==> listed_members(rows)[a].user_id
                != listed_members(rows)[b].user_id,
        forall|i: int|
            0 <= i < rows.len() ==> is_listed(listed_members(rows), #[trigger] rows[i]),
        forall|a: int|
            0 <= a < listed_members(rows).len() ==> (#[trigger] listed_members(
                rows,
            )[a]).sources.no_duplicates(),
{
    lemma_members_differ(rows);
    lemma_sources_differ(rows);
    assert forall|i: int| 0 <= i < rows.len() implies is_listed(
        listed_members(rows),
        #[trigger] rows[i],
    ) by {
        lemma_rows_are_listed(rows, i);
    }
}

} // verus!
