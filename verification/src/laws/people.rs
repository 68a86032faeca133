//! What the rules on users, their groups and their administrators promise.

use vstd::prelude::*;

use crate::desired::AckRow;
use crate::identity::{
    contributed, in_group, is_email, IdentityKind, MembershipSourceKind, SourcedMembership,
    UserIdentity, UserStatus,
};
use crate::ids::Uuid;
use crate::models::{CreateUserRequest, UserResponse};
use crate::scrub::word_texts;
use crate::text::{has_whitespace, lemma_first_place, trimmed, whitespace};
use crate::users::{
    create_user_fault, disable_fault, limit_fault, listed_members, lockout_fault, pending_of,
    purge_fault, purges, remove_member_fault, required_acks, restore_fault, row_source, row_user,
    soft_delete_fault, source_label, tells_user, AdminRow, DeviceRecord, LifecycleRow, MemberRow,
    PurgePlan, UserRow,
};

verus! {

/// A user is disabled by hand, by a directory or by being deleted, and in no other way. What is
/// told of the user is what is kept; the limit of devices is the user's own where there is one.
pub proof fn law_users_are_told_as_they_are(u: UserResponse, row: UserRow, default_limit: u32)
    requires
        tells_user(u, row, default_limit),
    ensures
        u.disabled <==> row.manual_disabled || row.ldap_disabled || row.soft_deleted_at is Some,
        u.manual_disabled == row.manual_disabled,
        u.ldap_disabled == row.ldap_disabled,
        u.soft_deleted <==> row.soft_deleted_at is Some,
        u.purged <==> row.purged_at is Some,
        row.device_limit_override is None ==> u.device_limit == default_limit,
        row.device_limit_override is Some && 0 <= row.device_limit_override->0 <= u32::MAX
            ==> u.device_limit == row.device_limit_override->0,
        u.email@ == row.email@,
        u.name@ == row.name@,
        u.title@ == row.title@,
{
}

/// Disabling or enabling a user is refused if and only if there is no such user, the user is the
/// only administrator who is enabled, or nobody would be left in charge where somebody is to be.
pub proof fn law_disabling_leaves_somebody_in_charge(
    disabled: bool,
    group_exists: bool,
    admins: Seq<AdminRow>,
    user_id: Uuid,
)
    ensures
        disable_fault(false, disabled, group_exists, admins, user_id) is Some,
        disable_fault(true, disabled, group_exists, admins, user_id) is None <==> {
            let others = exists|i: int|
                0 <= i < admins.len() && (#[trigger] admins[i]).user_id != user_id
                    && !admins[i].manual_disabled && !admins[i].ldap_disabled
                    && !admins[i].soft_deleted;
            let is_one = exists|i: int|
                0 <= i < admins.len() && (#[trigger] admins[i]).user_id == user_id;
            let stays = exists|i: int|
                0 <= i < admins.len() && (#[trigger] admins[i]).user_id == user_id
                    && !admins[i].ldap_disabled && !admins[i].soft_deleted;
            &&& disabled && is_one ==> others
            &&& group_exists ==> others || !disabled && stays
        },
{
    let after = crate::users::admins_after(admins, user_id, disabled);
    if crate::users::some_enabled(after) {
        let i = choose|i: int| 0 <= i < after.len() && (#[trigger] after[i]).enabled();
        assert(after[i].user_id == admins[i].user_id);
    }
    assert forall|i: int|
        0 <= i < admins.len() && (#[trigger] admins[i]).user_id != user_id
            && !admins[i].manual_disabled && !admins[i].ldap_disabled
            && !admins[i].soft_deleted implies crate::users::some_enabled(after)
        && crate::users::another_enabled(admins, user_id) by {
        assert(after[i].enabled());
        assert(admins[i].enabled());
    }
    if !disabled {
        assert forall|i: int|
            0 <= i < admins.len() && (#[trigger] admins[i]).user_id == user_id
                && !admins[i].ldap_disabled
                && !admins[i].soft_deleted implies crate::users::some_enabled(after) by {
            assert(after[i].enabled());
        }
    }
}

/// A change is let pass only where an administrator is left who is enabled, if there is to be one.
pub proof fn law_somebody_is_left_in_charge(group_exists: bool, admins: Seq<AdminRow>)
    ensures
        lockout_fault(group_exists, admins) is None <==> (group_exists ==> exists|i: int|
            0 <= i < admins.len() && !(#[trigger] admins[i]).manual_disabled
                && !admins[i].ldap_disabled && !admins[i].soft_deleted),
        remove_member_fault("wiremesh-admins"@, group_exists, admins) == lockout_fault(
            group_exists,
            admins,
        ),
{
    assert forall|i: int|
        0 <= i < admins.len() && !(#[trigger] admins[i]).manual_disabled
            && !admins[i].ldap_disabled
            && !admins[i].soft_deleted implies crate::users::some_enabled(admins) by {
        assert(admins[i].enabled());
    }
}

/// A user can be deleted if and only if no migration goes on, the user was not purged, and, unless
/// deleted already, is no administrator or leaves another one who is enabled.
pub proof fn law_deletions_are_exact(
    active_migrations: i64,
    row: LifecycleRow,
    admins: Seq<AdminRow>,
    user_id: Uuid,
)
    ensures
        soft_delete_fault(active_migrations, Some(row), admins, user_id) is None <==> {
            &&& active_migrations <= 0
            &&& !row.purged
            &&& row.soft_deleted || (forall|i: int|
                0 <= i < admins.len() ==> (#[trigger] admins[i]).user_id != user_id) || (exists|
                i: int,
            |
                0 <= i < admins.len() && (#[trigger] admins[i]).user_id != user_id
                    && !admins[i].manual_disabled && !admins[i].ldap_disabled
                    && !admins[i].soft_deleted)
        },
        soft_delete_fault(active_migrations, None, admins, user_id) is Some,
{
    assert forall|i: int|
        0 <= i < admins.len() && (#[trigger] admins[i]).user_id != user_id
            && !admins[i].manual_disabled && !admins[i].ldap_disabled
            && !admins[i].soft_deleted implies crate::users::another_enabled(admins, user_id) by {
        assert(admins[i].enabled());
    }
}

/// A user comes back if and only if no migration goes on and the user was deleted and not purged.
pub proof fn law_restorations_are_exact(active_migrations: i64, row: LifecycleRow)
    ensures
        restore_fault(active_migrations, Some(row)) is None <==> active_migrations <= 0
            && row.soft_deleted && !row.purged,
        restore_fault(active_migrations, None) is Some,
{
}

/// A user is purged if and only if no migration goes on and the user was deleted, and every
/// gateway has acknowledged that the user's devices are gone; one that was purged stays so.
pub proof fn law_purges_are_exact(active_migrations: i64, row: LifecycleRow, acks: Seq<AckRow>)
    ensures
        purge_fault(active_migrations, Some(row), acks) is None <==> active_migrations <= 0 && (
        row.purged || row.soft_deleted && forall|i: int|
            0 <= i < acks.len() ==> (#[trigger] acks[i]).acknowledged),
        purge_fault(active_migrations, None, acks) is Some,
{
    lemma_pending(acks);
}

proof fn lemma_pending(acks: Seq<AckRow>)
    ensures
        pending_of(acks) == 0 <==> forall|i: int|
            0 <= i < acks.len() ==> (#[trigger] acks[i]).acknowledged,
    decreases acks.len(),
{
    if acks.len() > 0 {
        let less = acks.drop_last();
        lemma_pending(less);
        assert(forall|i: int| 0 <= i < less.len() ==> less[i] == acks[i]);
        assert(acks[acks.len() - 1] == acks.last());
        if forall|i: int| 0 <= i < acks.len() ==> (#[trigger] acks[i]).acknowledged {
            assert forall|i: int| 0 <= i < less.len() implies (#[trigger] less[i]).acknowledged by {
                assert(acks[i].acknowledged);
            }
        }
        if pending_of(acks) == 0 {
            assert forall|i: int| 0 <= i < acks.len() implies (#[trigger] acks[i]).acknowledged by {
                if i < less.len() {
                    assert(less[i].acknowledged);
                }
            }
        }
    }
}

/// A limit of devices is between one and a hundred.
pub proof fn law_device_limits_are_bounded(limit: Option<u32>)
    ensures
        limit_fault(limit) is None <==> (limit is Some ==> 1 <= limit->0 && limit->0 <= 100),
{
}

/// A directory keeps a user out if and only if one knows the user, and none that is enabled has
/// the user as active.
pub proof fn law_directories_keep_out_whom_none_has_as_active(status: UserStatus)
    ensures
        status.disabled_by_ldap() <==> {
            &&& exists|i: int|
                0 <= i < status.identities@.len() && (#[trigger] status.identities@[i]).kind
                    == IdentityKind::Ldap
            &&& forall|i: int|
                0 <= i < status.identities@.len() && (#[trigger] status.identities@[i]).kind
                    == IdentityKind::Ldap ==> !status.identities@[i].active
                    || !status.identities@[i].provider_enabled
        },
{
}

/// A user is in a group if and only if a membership in it is active and counts: a local one
/// always, one of a directory where a directory knows the user, and another one where none does.
/// The group comes from just those sources.
pub proof fn law_memberships_count_by_their_source(
    identities: Seq<UserIdentity>,
    memberships: Seq<SourcedMembership>,
    group: Uuid,
    kind: MembershipSourceKind,
)
    ensures
        ({
            let known = exists|i: int|
                0 <= i < identities.len() && (#[trigger] identities[i]).kind == IdentityKind::Ldap;
            &&& in_group(identities, memberships, memberships.len() as int, group) <==> exists|
                i: int,
            |
                {
                    &&& 0 <= i < memberships.len()
                    &&& (#[trigger] memberships[i]).active
                    &&& memberships[i].group_id == group
                    &&& memberships[i].source_kind == MembershipSourceKind::Ldap ==> known
                    &&& memberships[i].source_kind == MembershipSourceKind::Oidc ==> !known
                }
            &&& contributed(identities, memberships, memberships.len() as int, group, kind)
                <==> exists|i: int|
                {
                    &&& 0 <= i < memberships.len()
                    &&& (#[trigger] memberships[i]).active
                    &&& memberships[i].group_id == group
                    &&& memberships[i].source_kind == kind
                    &&& kind == MembershipSourceKind::Ldap ==> known
                    &&& kind == MembershipSourceKind::Oidc ==> !known
                }
        }),
{
    let known = exists|i: int|
        0 <= i < identities.len() && (#[trigger] identities[i]).kind == IdentityKind::Ldap;
    assert forall|i: int|
        0 <= i < memberships.len() implies crate::identity::membership_counts(
        identities,
        #[trigger] memberships[i],
    ) == (memberships[i].active && (memberships[i].source_kind == MembershipSourceKind::Ldap
        ==> known) && (memberships[i].source_kind == MembershipSourceKind::Oidc ==> !known)) by {}
}

/// A mail address has one at-sign, something on either side of it, and no blanks.
pub proof fn law_mail_addresses_have_two_sides(s: Seq<char>)
    ensures
        is_email(s) <==> exists|k: int|
            {
                &&& 0 < k < s.len() - 1
                &&& #[trigger] s[k] == '@'
                &&& forall|j: int| 0 <= j < s.len() && j != k ==> #[trigger] s[j] != '@'
                &&& forall|j: int| 0 <= j < s.len() && j != k ==> !whitespace(#[trigger] s[j])
            },
{
    lemma_first_place(s, '@');
    let k = crate::text::first_place(s, '@');
    if s.contains('@') {
        let local = crate::text::before(s, '@');
        let domain = s.skip(k + 1);
        crate::text::lemma_before(s, '@', k);
        assert(local =~= s.take(k));
        if is_email(s) {
            assert forall|j: int| 0 <= j < s.len() && j != k implies #[trigger] s[j] != '@' by {
                if j > k {
                    assert(domain[j - k - 1] == s[j]);
                    assert(!domain.contains('@'));
                    assert(domain.contains(domain[j - k - 1]));
                }
            }
            assert forall|j: int| 0 <= j < s.len() && j != k implies !whitespace(
                #[trigger] s[j],
            ) by {
                if j > k {
                    assert(domain[j - k - 1] == s[j]);
                    assert(!whitespace(domain[j - k - 1]));
                } else {
                    assert(local[j] == s[j]);
                    assert(!whitespace(local[j]));
                }
            }
            assert(0 < k < s.len() - 1 && s[k] == '@');
        }
        if exists|m: int|
            {
                &&& 0 < m < s.len() - 1
                &&& #[trigger] s[m] == '@'
                &&& forall|j: int| 0 <= j < s.len() && j != m ==> #[trigger] s[j] != '@'
                &&& forall|j: int| 0 <= j < s.len() && j != m ==> !whitespace(#[trigger] s[j])
            } {
            let m = choose|m: int|
                {
                    &&& 0 < m < s.len() - 1
                    &&& #[trigger] s[m] == '@'
                    &&& forall|j: int| 0 <= j < s.len() && j != m ==> #[trigger] s[j] != '@'
                    &&& forall|j: int| 0 <= j < s.len() && j != m ==> !whitespace(#[trigger] s[j])
                };
            assert(s[k] == '@');
            assert(m == k);
            assert(!domain.contains('@')) by {
                assert forall|j: int| 0 <= j < domain.len() implies domain[j] != '@' by {
                    assert(domain[j] == s[j + k + 1]);
                }
            }
            assert(!has_whitespace(domain)) by {
                assert forall|j: int| 0 <= j < domain.len() implies !whitespace(domain[j]) by {
                    assert(domain[j] == s[j + k + 1]);
                }
            }
            assert(!has_whitespace(local)) by {
                assert forall|j: int| 0 <= j < local.len() implies !whitespace(local[j]) by {
                    assert(local[j] == s[j]);
                }
            }
        }
    } else {
        if exists|m: int| 0 < m < s.len() - 1 && #[trigger] s[m] == '@' {
            let m = choose|m: int| 0 < m < s.len() - 1 && #[trigger] s[m] == '@';
            assert(s.contains(s[m]));
        }
    }
}

/// A user is created if and only if the mail address is one, without the blanks around it and in
/// small letters, and there is a name.
pub proof fn law_new_users_have_an_address_and_a_name(request: CreateUserRequest)
    ensures
        create_user_fault(request) is None <==> is_email(
            crate::text::lowercased(trimmed(request.email@)),
        ) && trimmed(request.name@).len() > 0,
{
}

/// What has to be acknowledged before something is given up is the revision of each gateway that
/// was rebuilt without it, and nothing counts as acknowledged beforehand.
pub proof fn law_removals_wait_for_every_rebuilt_gateway(
    states: Seq<crate::state::DesiredGatewayState>,
    i: int,
)
    requires
        0 <= i < states.len(),
        states[i].revision <= i64::MAX,
    ensures
        required_acks(states).len() == states.len(),
        required_acks(states)[i].gateway_id == states[i].gateway_id,
        required_acks(states)[i].required_revision == states[i].revision,
        !required_acks(states)[i].acknowledged,
{
}

/// Nothing of a user is left after a purge: the account gets a name and an address of nobody, what
/// belongs to the user's devices goes, and so does every table's row and message of the user.
pub proof fn law_purges_leave_nothing(p: PurgePlan, user_id: Uuid, email: Seq<char>)
    requires
        purges(p, user_id, email),
    ensures
        p.email@ == "purged+"@ + crate::ids::uuid_text(user_id) + "@invalid"@,
        p.name@ == "Purged user"@,
        p.title@.len() == 0,
        p.manual_disabled,
        p.device_limit_override is None,
        p.released_email@ == email,
        p.device_records@.contains(DeviceRecord::LeaseAcknowledgements),
        p.device_records@.contains(DeviceRecord::Leases),
        p.device_records@.contains(DeviceRecord::KeyAcknowledgements),
        p.device_records@.contains(DeviceRecord::Keys),
        p.device_records@.contains(DeviceRecord::Configurations),
        word_texts(p.tables@).contains("devices"@),
        word_texts(p.tables@).contains("acl_rule_users"@),
        word_texts(p.tables@).contains("group_memberships"@),
        word_texts(p.tables@).contains("local_passwords"@),
        word_texts(p.tables@).contains("passkeys"@),
        word_texts(p.tables@).contains("one_time_tokens"@),
        word_texts(p.tables@).contains("sessions"@),
        word_texts(p.tables@).contains("user_identities"@),
        word_texts(p.tables@).contains("user_deletion_gateway_acks"@),
        word_texts(p.dropped_messages@).contains("pending"@),
        word_texts(p.dropped_messages@).contains("sending"@),
        word_texts(p.dropped_messages@).contains("failed"@),
        !word_texts(p.dropped_messages@).contains("sent"@),
{
    reveal_strlit("");
    let d = p.device_records@;
    assert(d.contains(d[0]) && d.contains(d[1]) && d.contains(d[2]) && d.contains(d[3])
        && d.contains(d[4]));
    let t = word_texts(p.tables@);
    assert(t.contains(t[0]) && t.contains(t[1]) && t.contains(t[2]) && t.contains(t[3])
        && t.contains(t[4]) && t.contains(t[5]) && t.contains(t[6]) && t.contains(t[7])
        && t.contains(t[8]));
    let m = word_texts(p.dropped_messages@);
    assert(m.contains(m[0]) && m.contains(m[1]) && m.contains(m[2]));
    reveal_strlit("sent");
    reveal_strlit("pending");
    reveal_strlit("sending");
    reveal_strlit("failed");
    assert("sent"@.len() == 4 && "pending"@.len() == 7 && "sending"@.len() == 7 && "failed"@.len()
        == 6);
    assert forall|i: int| 0 <= i < m.len() implies m[i] != "sent"@ by {
        assert(m[i] == m[0] || m[i] == m[1] || m[i] == m[2]);
    }
}

/// A membership is told with where it comes from: from here, or from a provider, by its name where
/// it has one.
pub proof fn law_memberships_are_told_with_their_source(
    kind: Seq<char>,
    source_id: Seq<char>,
    name: Seq<char>,
)
    ensures
        source_label("local"@, source_id, Some(name)) == "local"@,
        source_label("local"@, source_id, None) == "local"@,
        kind != "local"@ ==> source_label(kind, source_id, Some(name)) == kind + ":"@ + name,
        kind != "local"@ ==> source_label(kind, source_id, None) == kind + ":"@ + source_id,
{
}

/// Every source of a member that is told is one that was found for them.
pub proof fn law_members_have_no_other_sources(rows: Seq<MemberRow>, a: int, k: int)
    requires
        0 <= a < listed_members(rows).len(),
        0 <= k < listed_members(rows)[a].sources.len(),
    ensures
        exists|i: int|
            0 <= i < rows.len() && row_user(#[trigger] rows[i]) == listed_members(rows)[a].user_id
                && row_source(rows[i]) == listed_members(rows)[a].sources[k],
    decreases rows.len(),
{
    if rows.len() > 0 {
        let less = rows.drop_last();
        let row = rows.last();
        let some = listed_members(less);
        let all = listed_members(rows);
        assert(rows[rows.len() - 1] == row);
        let is_old = a < some.len() && k < some[a].sources.len() && all[a].user_id
            == some[a].user_id && all[a].sources[k] == some[a].sources[k];
        if is_old {
            law_members_have_no_other_sources(less, a, k);
            let i = choose|i: int|
                0 <= i < less.len() && row_user(#[trigger] less[i]) == some[a].user_id
                    && row_source(less[i]) == some[a].sources[k];
            assert(rows[i] == less[i]);
        } else {
            assert(row_user(row) == all[a].user_id && row_source(row) == all[a].sources[k]);
        }
    }
}
} // verus!
