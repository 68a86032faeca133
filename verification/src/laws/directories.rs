//! What taking over directories promises.

use vstd::prelude::*;

use crate::identity::{is_email, normalized};
use crate::ids::{uuid_parsed, Uuid};
use crate::lines::sorted_unique;
use crate::json::json_members;
use crate::models::{
    CreateProviderRequest, LdapSnapshotEntry, LdapSyncSnapshot, OidcClaims, ProviderKind,
    ProviderResponse,
};
use crate::providers::{
    active_after, config_text, create_provider_fault, first_entry_fault, group_fault, is_group_step,
    is_link_step, is_new_provider, is_normal_entry, kept_out, kept_out_among, ldap_config_fault,
    link_fault, normal_groups, oidc_config_fault, oidc_fault, snapshot_fault, tells_provider,
    EmailRow, GroupStep, LdapLinkRow, LinkRow, LinkStep, NewProvider, ProviderRow,
};
use crate::sort::{lemma_stable_sorted, lemma_without_repeats, stable_sorted, without_repeats};
use crate::text::{texts, trimmed};

verus! {

/// After a directory was taken over, a person of its provider is active if and only if an entry of
/// the directory has their identifier and is active: whom the directory does not list, or lists as
/// inactive in every entry, is not.
pub proof fn law_directories_decide_who_is_active(
    row: LinkRow,
    provider_id: Uuid,
    entries: Seq<LdapSnapshotEntry>,
)
    requires
        row.provider_id == provider_id,
    ensures
        active_after(row, provider_id, entries) ==> exists|i: int|
            0 <= i < entries.len() && (#[trigger] entries[i]).external_id@ == row.external_id@
                && entries[i].active == true,
        (forall|i: int|
            0 <= i < entries.len() && (#[trigger] entries[i]).external_id@ == row.external_id@
                ==> entries[i].active == false) ==> !active_after(row, provider_id, entries),
        forall|i: int|
            0 <= i < entries.len() && (#[trigger] entries[i]).external_id@ == row.external_id@
                && entries[i].active ==> active_after(row, provider_id, entries),
{
}

/// Whether the groups of something that is taken over all have a name.
pub open spec fn groups_are_named(groups: Seq<String>) -> bool {
    forall|i: int|
        0 <= i < groups.len() ==> crate::text::lowercased(trimmed((#[trigger] groups[i])@)).len() > 0
}

/// Whether an entry of a directory can be taken over by itself.
pub open spec fn entry_is_complete(e: LdapSnapshotEntry) -> bool {
    &&& trimmed(e.external_id@).len() > 0
    &&& is_email(crate::text::lowercased(trimmed(e.email@)))
    &&& trimmed(e.name@).len() > 0
    &&& groups_are_named(e.groups@)
}

proof fn lemma_groups_named(groups: Seq<String>)
    ensures
        crate::providers::groups_fault(texts(groups)) is None <==> groups_are_named(groups),
{
    let all = texts(groups);
    if groups_are_named(groups) {
        assert forall|i: int| 0 <= i < all.len() implies normalized(#[trigger] all[i]).len() > 0 by {
            assert(all[i] == groups[i]@);
        }
    }
    if crate::providers::groups_fault(all) is None {
        assert forall|i: int| 0 <= i < groups.len() implies crate::text::lowercased(
            trimmed((#[trigger] groups[i])@),
        ).len() > 0 by {
            assert(all[i] == groups[i]@);
            assert(normalized(all[i]).len() > 0);
        }
    }
}

proof fn lemma_entries(entries: Seq<LdapSnapshotEntry>)
    ensures
        first_entry_fault(entries) is None <==> {
            &&& forall|i: int|
                0 <= i < entries.len() ==> entry_is_complete(#[trigger] entries[i])
            &&& forall|i: int, j: int|
                0 <= i < j < entries.len() ==> trimmed((#[trigger] entries[i]).external_id@)
                    != trimmed((#[trigger] entries[j]).external_id@)
        },
    decreases entries.len(),
{
    if entries.len() > 0 {
        let less = entries.drop_last();
        let last = entries.last();
        lemma_entries(less);
        lemma_groups_named(last.groups@);
        assert(entries[entries.len() - 1] == last);
        assert(forall|i: int| 0 <= i < less.len() ==> less[i] == entries[i]);
        if first_entry_fault(entries) is None {
            assert forall|i: int| 0 <= i < entries.len() implies entry_is_complete(
                #[trigger] entries[i],
            ) by {
                if i < less.len() {
                    assert(entry_is_complete(less[i]));
                }
            }
            assert forall|i: int, j: int| 0 <= i < j < entries.len() implies trimmed(
                (#[trigger] entries[i]).external_id@,
            ) != trimmed((#[trigger] entries[j]).external_id@) by {
                assert(less[i] == entries[i]);
                if j < less.len() {
                    assert(less[j] == entries[j]);
                }
            }
        }
        if {
            &&& forall|i: int|
                0 <= i < entries.len() ==> entry_is_complete(#[trigger] entries[i])
            &&& forall|i: int, j: int|
                0 <= i < j < entries.len() ==> trimmed((#[trigger] entries[i]).external_id@)
                    != trimmed((#[trigger] entries[j]).external_id@)
        } {
            assert forall|i: int| 0 <= i < less.len() implies entry_is_complete(
                #[trigger] less[i],
            ) by {
                assert(entry_is_complete(entries[i]));
            }
            assert forall|i: int, j: int| 0 <= i < j < less.len() implies trimmed(
                (#[trigger] less[i]).external_id@,
            ) != trimmed((#[trigger] less[j]).external_id@) by {
                assert(trimmed(entries[i].external_id@) != trimmed(entries[j].external_id@));
            }
            assert(entry_is_complete(entries[entries.len() - 1]));
            assert forall|k: int| 0 <= k < less.len() implies trimmed(
                (#[trigger] less[k]).external_id@,
            ) != trimmed(last.external_id@) by {
                assert(trimmed(entries[k].external_id@) != trimmed(
                    entries[entries.len() - 1].external_id@,
                ));
            }
        }
    }
}

/// A directory is taken over if and only if it is one, was read to the end, has no more than ten
/// thousand entries, every entry has an identifier of its own, a mail address and a name, and
/// every group a name. What was read only in part changes nothing.
pub proof fn law_directories_are_taken_over_whole(kind: ProviderKind, snapshot: LdapSyncSnapshot)
    ensures
        snapshot_fault(kind, snapshot) is None <==> {
            &&& kind == ProviderKind::Ldap
            &&& snapshot.complete
            &&& snapshot.entries@.len() <= 10000
            &&& forall|i: int|
                0 <= i < snapshot.entries@.len() ==> entry_is_complete(
                    #[trigger] snapshot.entries@[i],
                )
            &&& forall|i: int, j: int|
                0 <= i < j < snapshot.entries@.len() ==> trimmed(
                    (#[trigger] snapshot.entries@[i]).external_id@,
                ) != trimmed((#[trigger] snapshot.entries@[j]).external_id@)
        },
{
    lemma_entries(snapshot.entries@);
}

/// Texts that are sorted and listed once are the same texts.
pub proof fn lemma_sorted_unique_members(s: Seq<Seq<char>>, y: Seq<char>)
    ensures
        sorted_unique(s).contains(y) <==> s.contains(y),
        sorted_unique(s).no_duplicates(),
{
    broadcast use vstd::seq_lib::group_to_multiset_ensures;

    let sorted = stable_sorted(s);
    lemma_stable_sorted(s);
    assert forall|a: Seq<char>, b: Seq<char>|
        crate::sort::Ranked::no_later(a, b) && crate::sort::Ranked::no_later(b, a) implies a
        == b by {
        crate::text::lemma_text_order_antisymmetric(a, b);
    }
    lemma_without_repeats(sorted);
    assert(sorted.to_multiset().count(y) == s.to_multiset().count(y));
    assert(without_repeats(sorted).to_set().contains(y) == sorted.to_set().contains(y));
}

/// An entry is taken over with its identifier and address in their normal form, its name, and its
/// groups in their normal form, each once; whoever is active in the directory is, and nobody else.
pub proof fn law_entries_are_taken_over_as_they_are(
    n: LdapSnapshotEntry,
    e: LdapSnapshotEntry,
    group: Seq<char>,
)
    requires
        is_normal_entry(n, e),
    ensures
        n.active == e.active,
        n.external_id@ == trimmed(e.external_id@),
        n.email@ == crate::text::lowercased(trimmed(e.email@)),
        n.name@ == e.name@,
        n.title@ == e.title@,
        texts(n.groups@).no_duplicates(),
        texts(n.groups@).contains(group) <==> exists|i: int|
            0 <= i < e.groups@.len() && group == crate::text::lowercased(
                trimmed((#[trigger] e.groups@[i])@),
            ),
{
    let all = texts(e.groups@);
    let normal = normal_groups(all);
    lemma_sorted_unique_members(normal, group);
    if normal.contains(group) {
        let i = choose|i: int| 0 <= i < normal.len() && normal[i] == group;
        assert(all[i] == e.groups@[i]@);
    }
    if exists|i: int|
        0 <= i < e.groups@.len() && group == crate::text::lowercased(
            trimmed((#[trigger] e.groups@[i])@),
        ) {
        let i = choose|i: int|
            0 <= i < e.groups@.len() && group == crate::text::lowercased(
                trimmed((#[trigger] e.groups@[i])@),
            );
        assert(normal[i] == group);
    }
}

/// A person whom the provider has sent before is the user that was linked then. Another one is
/// linked to the user with the same mail address, unless that user was deleted; where there is
/// none, a user is created only if the provider may, and then there is a name.
pub proof fn law_people_are_linked_by_their_addresses(
    step: LinkStep,
    known: Option<Seq<char>>,
    email: Seq<char>,
    user: Option<EmailRow>,
    name: Seq<char>,
    title: Seq<char>,
    may_create: bool,
    new_id: Uuid,
)
    requires
        link_fault(known, email, user, name, may_create) is None,
        is_link_step(step, known, email, user, name, title, new_id),
    ensures
        step is Known <==> known is Some,
        step is Link <==> known is None && user is Some,
        step is Create <==> known is None && user is None,
        step matches LinkStep::Known { user_id } ==> uuid_parsed(known->0) == Ok::<Uuid, Seq<char>>(
            user_id,
        ),
        step matches LinkStep::Link { user_id, email: e } ==> user->0.soft_deleted_at is None
            && uuid_parsed(user->0.id@) == Ok::<Uuid, Seq<char>>(user_id) && is_email(e@) && e@
            == crate::text::lowercased(trimmed(email)),
        step matches LinkStep::Create { user_id, email: e, name: n, title: t } ==> may_create
            && user_id == new_id && is_email(e@) && e@ == crate::text::lowercased(trimmed(email))
            && n@.len() > 0 && n@ == trimmed(name) && t@ == trimmed(title),
{
}

/// Nobody is linked to a user who was deleted, and a provider that may only link creates nobody.
pub proof fn law_links_are_refused(email: Seq<char>, user: EmailRow, name: Seq<char>)
    ensures
        user.soft_deleted_at is Some ==> link_fault(None, email, Some(user), name, true) is Some,
        link_fault(None, email, None, name, false) is Some,
        trimmed(name).len() == 0 ==> link_fault(None, email, None, name, true) is Some,
        !is_email(normalized(email)) ==> link_fault(None, email, Some(user), name, true) is Some,
{
}

/// The claims of a provider count if and only if the provider is an enabled one of OpenID Connect,
/// has verified the mail address, and names a subject, an address and groups with names.
pub proof fn law_claims_count_when_verified(claims: OidcClaims, kind: ProviderKind, enabled: bool)
    ensures
        oidc_fault(claims, kind, enabled) is None <==> {
            &&& claims.email_verified
            &&& trimmed(claims.subject@).len() > 0
            &&& kind == ProviderKind::Oidc
            &&& enabled
            &&& is_email(crate::text::lowercased(trimmed(claims.email@)))
            &&& groups_are_named(claims.groups@)
        },
{
    lemma_groups_named(claims.groups@);
}

/// Directories keep a user out if and only if one knows the user, and none that is enabled has the
/// user as active.
pub proof fn law_directories_keep_out(rows: Seq<LdapLinkRow>, user: Seq<char>)
    ensures
        kept_out_among(rows, rows.len()).contains(user) <==> {
            &&& exists|i: int| 0 <= i < rows.len() && (#[trigger] rows[i]).user_id@ == user
            &&& forall|i: int|
                0 <= i < rows.len() && (#[trigger] rows[i]).user_id@ == user ==> !rows[i].active
                    || !rows[i].provider_enabled
        },
{
    crate::providers::law_directories_keep_out_without_live_identity(rows, user);
    if exists|i: int| 0 <= i < rows.len() && (#[trigger] rows[i]).user_id@ == user {
        let i = choose|i: int| 0 <= i < rows.len() && (#[trigger] rows[i]).user_id@ == user;
        assert(crate::providers::links(rows[i], user));
    }
    if kept_out(rows, user) {
        assert forall|i: int|
            0 <= i < rows.len() && (#[trigger] rows[i]).user_id@ == user implies !rows[i].active
            || !rows[i].provider_enabled by {
            assert(crate::providers::links(rows[i], user));
        }
    }
}

/// A directory is read over TLS, and not more often than once a minute; a provider of OpenID
/// Connect is reached over TLS throughout.
pub proof fn law_providers_are_reached_over_tls(
    members: Seq<(Seq<char>, Seq<char>)>,
    interval: Option<u32>,
)
    ensures
        ldap_config_fault(members, interval) is None <==> {
            &&& config_text(members, "url"@) is Some
            &&& "ldaps://"@.is_prefix_of(config_text(members, "url"@)->0) || "ldap://"@.is_prefix_of(
                config_text(members, "url"@)->0,
            ) && crate::json::member_of(members, "start_tls"@) == Some("true"@)
            &&& interval is Some && interval->0 >= 60
            &&& config_text(members, "bind_dn"@) is Some && config_text(members, "bind_dn"@)->0.len()
                > 0
            &&& config_text(members, "bind_password"@) is Some && config_text(
                members,
                "bind_password"@,
            )->0.len() > 0
            &&& config_text(members, "base_dn"@) is Some && config_text(members, "base_dn"@)->0.len()
                > 0
        },
        oidc_config_fault(members) is None <==> {
            &&& config_text(members, "issuer_url"@) is Some && "https://"@.is_prefix_of(
                config_text(members, "issuer_url"@)->0,
            )
            &&& config_text(members, "redirect_url"@) is Some && "https://"@.is_prefix_of(
                config_text(members, "redirect_url"@)->0,
            )
            &&& config_text(members, "userinfo_url"@) is Some && "https://"@.is_prefix_of(
                config_text(members, "userinfo_url"@)->0,
            )
            &&& config_text(members, "client_id"@) is Some && config_text(
                members,
                "client_id"@,
            )->0.len() > 0
            &&& config_text(members, "client_secret"@) is Some && config_text(
                members,
                "client_secret"@,
            )->0.len() > 0
        },
{
    reveal_strlit("https://");
}

/// A provider is taken up where its settings are an object that is right for its sort, and its name
/// is neither empty nor longer than 128 bytes.
pub proof fn law_providers_need_settings_and_a_name(request: CreateProviderRequest)
    ensures
        create_provider_fault(request) is None <==> {
            &&& json_members(request.config@) is Some
            &&& request.kind == ProviderKind::Oidc ==> oidc_config_fault(
                json_members(request.config@)->0,
            ) is None
            &&& request.kind == ProviderKind::Ldap ==> ldap_config_fault(
                json_members(request.config@)->0,
                request.sync_interval_seconds,
            ) is None
            &&& trimmed(request.name@).len() > 0
            &&& crate::text::byte_count(trimmed(request.name@)) <= 128
        },
{
}

/// A provider is kept as it was asked for, enabled, and its settings only in sealed form.
pub proof fn law_providers_are_kept_as_asked(
    p: NewProvider,
    key: Seq<u8>,
    id: Uuid,
    request: CreateProviderRequest,
)
    requires
        is_new_provider(p, key, id, request),
    ensures
        p.id == id,
        p.kind == request.kind,
        p.name@ == trimmed(request.name@),
        p.enabled,
        p.priority == 100,
        p.trusted_create == request.trusted_create,
        p.sync_interval_seconds is Some <==> request.sync_interval_seconds is Some,
        request.sync_interval_seconds is Some ==> p.sync_interval_seconds->0
            == request.sync_interval_seconds->0,
        crate::secrets::is_envelope(
            key,
            "identity-provider:"@ + crate::ids::uuid_text(id),
            vstd::utf8::encode_utf8(request.config@),
            p.config_envelope@,
        ),
{
}

/// A provider is told as it is kept.
pub proof fn law_providers_are_told_as_they_are(p: ProviderResponse, row: ProviderRow)
    requires
        tells_provider(p, row),
    ensures
        uuid_parsed(row.id@) == Ok::<Uuid, Seq<char>>(p.id),
        p.kind == ProviderKind::Oidc ==> row.kind@ == "oidc"@,
        p.kind == ProviderKind::Ldap ==> row.kind@ == "ldap"@,
        p.name@ == row.name@,
        p.enabled == row.enabled,
        p.trusted_create == row.trusted_create,
        p.sync_interval_seconds is Some <==> row.sync_interval_seconds is Some,
        row.sync_interval_seconds is Some && 0 <= row.sync_interval_seconds->0 <= u32::MAX
            ==> p.sync_interval_seconds->0 == row.sync_interval_seconds->0,
        p.last_successful_sync_at is Some <==> row.last_successful_sync_at is Some,
        row.last_successful_sync_at is Some ==> p.last_successful_sync_at->0@
            == row.last_successful_sync_at->0@,
{
}

/// A group of a provider needs a name; one that is known is that group, and another one is created
/// under its normal form.
pub proof fn law_groups_of_providers_are_known_or_created(
    step: GroupStep,
    name: Seq<char>,
    known: Option<Seq<char>>,
    new_id: Uuid,
)
    requires
        is_group_step(step, name, known, new_id),
    ensures
        group_fault(name, known) is None <==> crate::text::lowercased(trimmed(name)).len() > 0 && (
        known is Some ==> uuid_parsed(known->0) is Ok),
        step is Known <==> known is Some,
        step matches GroupStep::Known { id } ==> uuid_parsed(known->0) == Ok::<Uuid, Seq<char>>(id),
        step matches GroupStep::Create { id, normalized_name, display_name } ==> id == new_id
            && normalized_name@ == crate::text::lowercased(trimmed(name)) && display_name@
            == trimmed(name),
{
}

/// A person is turned away only for an address that is none, for a deleted user, for a provider
/// that may not create users, for want of a name, or for what cannot be read.
pub proof fn law_links_are_made_when_they_can_be(
    known: Option<Seq<char>>,
    email: Seq<char>,
    user: Option<EmailRow>,
    name: Seq<char>,
    may_create: bool,
)
    ensures
        link_fault(known, email, user, name, may_create) is None <==> {
            ||| known is Some && uuid_parsed(known->0) is Ok
            ||| known is None && is_email(crate::text::lowercased(trimmed(email))) && user is Some
                && user->0.soft_deleted_at is None && uuid_parsed(user->0.id@) is Ok
            ||| known is None && is_email(crate::text::lowercased(trimmed(email))) && user is None
                && may_create && trimmed(name).len() > 0
        },
{
}

} // verus!
