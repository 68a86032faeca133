//! Users, their identities and their group memberships.

use std::collections::BTreeMap;

use vstd::prelude::*;
use vstd::string::*;
use vstd::utf8::is_ascii_chars;

use crate::ids::Uuid;
use crate::sets::{get_for_id, put_for_id};
use crate::text::{
    any_whitespace, ascii_lower, ascii_lowered, contains_char, has_whitespace, lemma_before,
    lemma_trimmed, lemma_trimmed_is_fixed, lowercased, split_first, split_once, to_lowercase, trim,
    trimmed, trimmed_end, trimmed_start, whitespace,
};

verus! {

/// Where an identity comes from.
#[derive(Debug, Clone, Copy, PartialEq, Eq, Structural)]
pub enum IdentityKind {
    Local,
    Oidc,
    Ldap,
}

/// One identity that is linked to a user.
#[derive(Debug, Clone, PartialEq, Eq)]
pub struct UserIdentity {
    pub id: Uuid,
    pub provider_id: Option<Uuid>,
    pub kind: IdentityKind,
    pub external_id: String,
    pub current_email: String,
    pub active: bool,
    pub provider_enabled: bool,
}

/// What decides whether a user is disabled.
#[derive(Debug, Clone, PartialEq, Eq)]
pub struct UserStatus {
    pub manual_disabled: bool,
    pub soft_deleted: bool,
    pub identities: Vec<UserIdentity>,
}

/// Whether some identity comes from LDAP.
pub open spec fn has_ldap_identity(identities: Seq<UserIdentity>) -> bool {
    exists|i: int| 0 <= i < identities.len() && (#[trigger] identities[i]).kind == IdentityKind::Ldap
}

/// Whether some LDAP identity is active with an enabled provider.
pub open spec fn has_live_ldap_identity(identities: Seq<UserIdentity>) -> bool {
    exists|i: int|
        0 <= i < identities.len() && (#[trigger] identities[i]).kind == IdentityKind::Ldap
            && identities[i].active && identities[i].provider_enabled
}

impl UserStatus {
    /// The user has LDAP identities, and none of them is live.
    pub open spec fn disabled_by_ldap(self) -> bool {
        has_ldap_identity(self.identities@) && !has_live_ldap_identity(self.identities@)
    }

    /// Whether the directory disables the user: there are LDAP identities, and none of them is
    /// active with an enabled provider.
    pub fn ldap_disabled(&self) -> (r: bool)
        ensures
            r == self.disabled_by_ldap(),
    {
        let mut any: bool = false;
        let mut i: usize = 0;
        while i < self.identities.len()
            invariant
                i <= self.identities@.len(),
                any == (exists|k: int|
                    0 <= k < i && (#[trigger] self.identities@[k]).kind == IdentityKind::Ldap),
                forall|k: int|
                    0 <= k < i && (#[trigger] self.identities@[k]).kind == IdentityKind::Ldap
                        ==> !(self.identities@[k].active && self.identities@[k].provider_enabled),
            decreases self.identities@.len() - i,
        {
            let identity = &self.identities[i];
            if identity.kind == IdentityKind::Ldap {
                any = true;
                if identity.active && identity.provider_enabled {
                    assert(has_live_ldap_identity(self.identities@));
                    return false;
                }
            }
            i = i + 1;
        }
        any
    }

    /// Whether the user may not use the network.
    pub fn disabled(&self) -> (r: bool)
        ensures
            r == (self.soft_deleted || self.manual_disabled || self.disabled_by_ldap()),
    {
        self.soft_deleted || self.manual_disabled || self.ldap_disabled()
    }
}

/// Where a group membership comes from.
#[derive(Debug, Clone, Copy, PartialEq, Eq, Structural)]
pub enum MembershipSourceKind {
    Local,
    Oidc,
    Ldap,
}

/// One source's word that a user is in a group.
#[derive(Debug, Clone, PartialEq, Eq)]
pub struct SourcedMembership {
    pub group_id: Uuid,
    pub group_name: String,
    pub source_kind: MembershipSourceKind,
    pub source_id: Option<Uuid>,
    pub active: bool,
}

/// The kinds of source that contribute a membership.
#[derive(Debug, Clone, Copy, PartialEq, Eq, Structural)]
pub struct SourceKinds {
    pub local: bool,
    pub oidc: bool,
    pub ldap: bool,
}

impl SourceKinds {
    /// Whether a kind is among them.
    pub open spec fn includes(self, kind: MembershipSourceKind) -> bool {
        match kind {
            MembershipSourceKind::Local => self.local,
            MembershipSourceKind::Oidc => self.oidc,
            MembershipSourceKind::Ldap => self.ldap,
        }
    }

    /// Whether a kind is among them.
    pub fn contains(&self, kind: MembershipSourceKind) -> (r: bool)
        ensures
            r == self.includes(kind),
    {
        match kind {
            MembershipSourceKind::Local => self.local,
            MembershipSourceKind::Oidc => self.oidc,
            MembershipSourceKind::Ldap => self.ldap,
        }
    }

    fn with(self, kind: MembershipSourceKind) -> (r: Self)
        ensures
            forall|k: MembershipSourceKind| #[trigger]
                r.includes(k) == (k == kind || self.includes(k)),
    {
        match kind {
            MembershipSourceKind::Local => SourceKinds { local: true, ..self },
            MembershipSourceKind::Oidc => SourceKinds { oidc: true, ..self },
            MembershipSourceKind::Ldap => SourceKinds { ldap: true, ..self },
        }
    }
}

/// Whether a membership counts for a user with some identities.
pub open spec fn membership_counts(
    identities: Seq<UserIdentity>,
    membership: SourcedMembership,
) -> bool {
    membership.active && match membership.source_kind {
        MembershipSourceKind::Local => true,
        MembershipSourceKind::Ldap => has_ldap_identity(identities),
        MembershipSourceKind::Oidc => !has_ldap_identity(identities),
    }
}

/// Whether one of the first `n` memberships puts the user into a group from a kind of source.
pub open spec fn contributed(
    identities: Seq<UserIdentity>,
    memberships: Seq<SourcedMembership>,
    n: int,
    group: Uuid,
    kind: MembershipSourceKind,
) -> bool {
    exists|i: int|
        0 <= i < n && membership_counts(identities, #[trigger] memberships[i])
            && memberships[i].group_id == group && memberships[i].source_kind == kind
}

/// Whether one of the first `n` memberships puts the user into a group.
pub open spec fn in_group(
    identities: Seq<UserIdentity>,
    memberships: Seq<SourcedMembership>,
    n: int,
    group: Uuid,
) -> bool {
    exists|i: int|
        0 <= i < n && membership_counts(identities, #[trigger] memberships[i])
            && memberships[i].group_id == group
}

fn any_ldap(identities: &[UserIdentity]) -> (r: bool)
    ensures
        r == has_ldap_identity(identities@),
{
    let mut i: usize = 0;
    while i < identities.len()
        invariant
            i <= identities@.len(),
            forall|k: int| 0 <= k < i ==> (#[trigger] identities@[k]).kind != IdentityKind::Ldap,
        decreases identities@.len() - i,
    {
        if identities[i].kind == IdentityKind::Ldap {
            assert(identities@[i as int].kind == IdentityKind::Ldap);
            return true;
        }
        i = i + 1;
    }
    false
}

/// Returns group IDs and their contributing provenance.
///
/// Local membership is always effective. If the user has any LDAP identity, only active LDAP
/// memberships are considered external. Otherwise OIDC is used. This is deliberately based on
/// identity linkage, not provider health.
pub fn effective_groups(identities: &[UserIdentity], memberships: &[SourcedMembership]) -> (r:
    BTreeMap<Uuid, SourceKinds>)
    ensures
        forall|g: Uuid| #[trigger]
            r@.contains_key(g) <==> in_group(
                identities@,
                memberships@,
                memberships@.len() as int,
                g,
            ),
        forall|g: Uuid, kind: MembershipSourceKind|
            r@.contains_key(g) ==> (#[trigger] r@[g].includes(kind) <==> contributed(
                identities@,
                memberships@,
                memberships@.len() as int,
                g,
                kind,
            )),
{
    let has_ldap = any_ldap(identities);
    let mut result: BTreeMap<Uuid, SourceKinds> = BTreeMap::new();
    let mut i: usize = 0;
    while i < memberships.len()
        invariant
            i <= memberships@.len(),
            has_ldap == has_ldap_identity(identities@),
            forall|g: Uuid| #[trigger]
                result@.contains_key(g) <==> in_group(identities@, memberships@, i as int, g),
            forall|g: Uuid, kind: MembershipSourceKind|
                result@.contains_key(g) ==> (#[trigger] result@[g].includes(kind) <==> contributed(
                    identities@,
                    memberships@,
                    i as int,
                    g,
                    kind,
                )),
        decreases memberships@.len() - i,
    {
        let membership = &memberships[i];
        let effective = membership.active && match membership.source_kind {
            MembershipSourceKind::Local => true,
            MembershipSourceKind::Ldap => has_ldap,
            MembershipSourceKind::Oidc => !has_ldap,
        };
        assert(effective == membership_counts(identities@, memberships@[i as int]));
        let ghost before = result@;
        if effective {
            let kinds = match get_for_id(&result, membership.group_id) {
                Some(kinds) => *kinds,
                None => SourceKinds { local: false, oidc: false, ldap: false },
            };
            put_for_id(
                &mut result,
                membership.group_id,
                kinds.with(membership.source_kind),
            );
        }
        proof {
            lemma_one_more_membership(identities@, memberships@, i as int);
            let g0 = memberships@[i as int].group_id;
            assert forall|g: Uuid, kind: MembershipSourceKind|
                result@.contains_key(g) implies (#[trigger] result@[g].includes(kind)
                <==> contributed(identities@, memberships@, i + 1, g, kind)) by {
                if effective && g == g0 {
                    if before.contains_key(g) {
                        assert(before[g].includes(kind) == contributed(
                            identities@,
                            memberships@,
                            i as int,
                            g,
                            kind,
                        ));
                    } else {
                        assert(!in_group(identities@, memberships@, i as int, g));
                        assert(!contributed(identities@, memberships@, i as int, g, kind));
                    }
                } else {
                    assert(before[g].includes(kind) == contributed(
                        identities@,
                        memberships@,
                        i as int,
                        g,
                        kind,
                    ));
                }
            }
        }
        i = i + 1;
    }
    result
}

proof fn lemma_one_more_membership(
    identities: Seq<UserIdentity>,
    memberships: Seq<SourcedMembership>,
    i: int,
)
    requires
        0 <= i < memberships.len(),
    ensures
        forall|g: Uuid| #[trigger]
            in_group(identities, memberships, i + 1, g) <==> (in_group(identities, memberships, i, g)
                || (membership_counts(identities, memberships[i]) && memberships[i].group_id == g)),
        forall|g: Uuid, kind: MembershipSourceKind| #[trigger]
            contributed(identities, memberships, i + 1, g, kind) <==> (contributed(
                identities,
                memberships,
                i,
                g,
                kind,
            ) || (membership_counts(identities, memberships[i]) && memberships[i].group_id == g
                && memberships[i].source_kind == kind)),
{
}

/// Why an email address or a group name is refused.
#[derive(Debug, Clone, Copy, PartialEq, Eq, Structural)]
pub enum IdentityError {
    EmptyEmail,
    InvalidEmail,
    EmptyGroup,
}

impl IdentityError {
    /// What the error says.
    pub open spec fn text(self) -> Seq<char> {
        match self {
            IdentityError::EmptyEmail => "email is empty"@,
            IdentityError::InvalidEmail => "email must contain one local part and one domain"@,
            IdentityError::EmptyGroup => "group name is empty"@,
        }
    }

    /// What the error says.
    pub fn message(&self) -> (r: String)
        ensures
            r@ == self.text(),
    {
        match self {
            IdentityError::EmptyEmail => String::from_str("email is empty"),
            IdentityError::InvalidEmail => String::from_str(
                "email must contain one local part and one domain",
            ),
            IdentityError::EmptyGroup => String::from_str("group name is empty"),
        }
    }
}

/// A text without outer whitespace, in lower case.
pub open spec fn normalized(value: Seq<char>) -> Seq<char> {
    lowercased(trimmed(value))
}

/// Whether a text has one non-empty local part and one non-empty domain around a single `@`,
/// without whitespace in either.
pub open spec fn is_email(s: Seq<char>) -> bool {
    match split_first(s, '@') {
        None => false,
        Some((local, domain)) => {
            &&& local.len() > 0
            &&& domain.len() > 0
            &&& !domain.contains('@')
            &&& !has_whitespace(local)
            &&& !has_whitespace(domain)
        },
    }
}

/// Product-level normalization used for unique account linking.
pub fn normalize_email(value: &str) -> (r: Result<String, IdentityError>)
    ensures
        r is Ok <==> is_email(normalized(value@)),
        r matches Ok(email) ==> email@ == normalized(value@),
        r matches Err(error) ==> error == IdentityError::InvalidEmail,
{
    let trimmed_value = trim(value);
    let normalized_value = to_lowercase(trimmed_value.as_str());
    let parts = split_once(normalized_value.as_str(), '@');
    match parts {
        None => Err(IdentityError::InvalidEmail),
        Some((local, domain)) => {
            if local.as_str().is_empty() || domain.as_str().is_empty() || contains_char(
                domain.as_str(),
                '@',
            ) || any_whitespace(local.as_str()) || any_whitespace(domain.as_str()) {
                return Err(IdentityError::InvalidEmail);
            }
            Ok(normalized_value)
        },
    }
}

/// The normalized name of a group.
pub fn normalize_group_name(value: &str) -> (r: Result<String, IdentityError>)
    ensures
        r is Ok <==> normalized(value@).len() > 0,
        r matches Ok(name) ==> name@ == normalized(value@),
        r matches Err(error) ==> error == IdentityError::EmptyGroup,
{
    let trimmed_value = trim(value);
    let normalized_value = to_lowercase(trimmed_value.as_str());
    if normalized_value.as_str().is_empty() {
        Err(IdentityError::EmptyGroup)
    } else {
        Ok(normalized_value)
    }
}

/// The normal form of an ASCII text is its own normal form, so a normal address is accepted as it
/// is; and texts that differ in the case of letters and in outer whitespace alone have the same
/// normal form.
pub proof fn law_normalizing_is_idempotent(value: Seq<char>, other: Seq<char>)
    requires
        is_ascii_chars(value),
        is_ascii_chars(other),
    ensures
        normalized(normalized(value)) == normalized(value),
        is_email(normalized(value)) ==> is_email(normalized(normalized(value))),
        ascii_lowered(trimmed(value)) == ascii_lowered(trimmed(other)) ==> normalized(value)
            == normalized(other),
{
    let inner = trimmed(value);
    let n = ascii_lowered(inner);
    lemma_trimmed(value);
    lemma_trimmed(other);
    assert forall|i: int| 0 <= i < n.len() implies '\0' <= #[trigger] n[i] <= '\u{7f}' && ascii_lower(n[i])
        == n[i] && whitespace(n[i]) == whitespace(inner[i]) by {
        assert('\0' <= inner[i] <= '\u{7f}');
        assert(n[i] == ascii_lower(inner[i]));
        lemma_ascii_lower(inner[i]);
    }
    lemma_trimmed_is_fixed(n);
    assert(ascii_lowered(n) =~= n);
}

proof fn lemma_ascii_lower(c: char)
    requires
        c <= '\u{7f}',
    ensures
        ascii_lower(c) <= '\u{7f}',
        ascii_lower(ascii_lower(c)) == ascii_lower(c),
        whitespace(ascii_lower(c)) == whitespace(c),
{
}

/// An address that is one and that lower-casing leaves alone is its own normal form.
pub proof fn law_normal_email_is_stable(email: Seq<char>)
    requires
        is_email(email),
        lowercased(email) == email,
    ensures
        normalized(email) == email,
{
    let (local, domain) = split_first(email, '@')->0;
    let n = local.len() as int;
    lemma_split_shape(email, '@');
    assert(email[0] == local[0]);
    assert(email.last() == domain.last());
    assert(!whitespace(local[0]));
    assert(!whitespace(domain[domain.len() - 1]));
    assert(trimmed_start(email) == email);
    assert(trimmed_end(email) == email);
}

proof fn lemma_split_shape(s: Seq<char>, c: char)
    requires
        s.contains(c),
    ensures
        split_first(s, c) is Some,
        split_first(s, c) matches Some(parts) ==> s == parts.0 + seq![c] + parts.1,
{
    let i = crate::text::first_place(s, c);
    crate::text::lemma_first_place(s, c);
    lemma_before(s, c, i);
    assert(s =~= s.take(i) + seq![c] + s.skip(i + 1));
}

/// A manual disable or a deletion wins over every identity.
pub proof fn law_manual_disable_wins(status: UserStatus)
    requires
        status.manual_disabled || status.soft_deleted,
    ensures
        status.soft_deleted || status.manual_disabled || status.disabled_by_ldap(),
{
}

/// The directory disables a user only when every LDAP identity is inactive or belongs to a
/// disabled provider, and there is at least one.
pub proof fn law_ldap_disables_only_without_live_identity(status: UserStatus)
    ensures
        status.disabled_by_ldap() <==> has_ldap_identity(status.identities@) && (forall|i: int|
            0 <= i < status.identities@.len() && (#[trigger] status.identities@[i]).kind
                == IdentityKind::Ldap ==> !(status.identities@[i].active
                && status.identities@[i].provider_enabled)),
{
}

/// A linked LDAP identity suppresses OIDC groups, its absence suppresses LDAP groups, and an
/// active local membership always counts.
pub proof fn law_linkage_decides_external_groups(
    identities: Seq<UserIdentity>,
    membership: SourcedMembership,
)
    ensures
        membership.source_kind == MembershipSourceKind::Local ==> membership_counts(
            identities,
            membership,
        ) == membership.active,
        has_ldap_identity(identities) && membership.source_kind == MembershipSourceKind::Oidc
            ==> !membership_counts(identities, membership),
        !has_ldap_identity(identities) && membership.source_kind == MembershipSourceKind::Ldap
            ==> !membership_counts(identities, membership),
{
}

} // verus!
