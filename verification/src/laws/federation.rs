//! What signing in through directories and providers promises.

use vstd::prelude::*;
use vstd::utf8::encode_utf8;

use crate::crypto::sha256;
use crate::federated::{
    are_claims, claim_texts, filter_char, filter_literal, first_bytes, is_graph_of, is_person,
    keeps_state, ldap_answer_fault, ldap_credentials_fault, ldap_identity_fault, ldap_login_fault,
    listed_member, listed_name, person_active, person_fault, person_filter_of, person_id_of,
    person_in_group, scopes_of, state_fault, string_items, sync_config_fault, sync_fault,
    sync_is_due, LdapConfig, LdapIdentityRow, NewOidcState, OidcConfig, OidcStateRow,
};
use crate::groups::{
    first_of, name_in_dn, normal_dn, unescaped, values_of, DirectoryEntry, GroupGraph,
};
use crate::identity::is_email;
use crate::ids::{uuid_parsed, Uuid};
use crate::json::{json_items, json_members, json_unquoted, member_of, string_member_of};
use crate::lines::is_suffix;
use crate::models::{LdapSnapshotEntry, OidcClaims, ProviderKind};
use crate::text::{ascii_lowered, text_no_later, texts, trimmed};
use crate::time::{later_text, timestamp_in, Timestamp};

verus! {

/// Somebody can sign in through a directory if and only if a password and a mail address are
/// given, and the provider is a directory and enabled. An empty password is never tried.
pub proof fn law_directory_logins_need_a_password(
    email: Seq<char>,
    password: Seq<char>,
    kind: ProviderKind,
    enabled: bool,
)
    ensures
        ldap_login_fault(email, password, kind, enabled) is None <==> {
            &&& password.len() > 0
            &&& is_email(crate::text::lowercased(trimmed(email)))
            &&& kind == ProviderKind::Ldap
            &&& enabled
        },
        ldap_credentials_fault(email, password) is None <==> password.len() > 0 && is_email(
            crate::text::lowercased(trimmed(email)),
        ),
{
}

/// A directory's answer names a person if and only if it is one entry with an identifier.
pub proof fn law_answers_name_one_person(config: LdapConfig, entries: Seq<DirectoryEntry>)
    ensures
        ldap_answer_fault(config, entries) is None <==> entries.len() == 1 && values_of(
            entries[0].attrs@,
            config.id_attribute@,
        ).len() > 0,
{
}

/// A person of a directory is let in if and only if the person is known, active in an enabled
/// directory, and the user is neither disabled by hand nor by a directory nor deleted.
pub proof fn law_directories_let_active_people_in(row: LdapIdentityRow)
    ensures
        ldap_identity_fault(None) is Some,
        ldap_identity_fault(Some(row)) is None <==> {
            &&& row.active
            &&& row.provider_enabled
            &&& !row.manual_disabled
            &&& !row.ldap_disabled
            &&& row.soft_deleted_at is None
            &&& uuid_parsed(row.user_id@) is Ok
        },
{
}

/// A directory is due to be read if it has an interval, and was never read or as long ago as the
/// interval; it is read only while it is enabled, in pages of a size that makes sense.
pub proof fn law_directories_are_read_at_intervals(
    last: Option<Seq<char>>,
    interval: Option<i64>,
    now: Timestamp,
    kind: ProviderKind,
    enabled: bool,
    config: LdapConfig,
)
    ensures
        sync_is_due(last, interval, now) <==> interval is Some && (last is None || (timestamp_in(
            last->0,
        ) is Some && (now.secs - timestamp_in(last->0)->0.secs > interval->0 || now.secs
            - timestamp_in(last->0)->0.secs == interval->0 && timestamp_in(last->0)->0.nanos
            <= now.nanos))),
        sync_fault(kind, enabled) is None <==> enabled && kind == ProviderKind::Ldap,
        sync_config_fault(config) is None <==> 1 <= config.page_size && config.page_size <= 5000
            && config.nested_group_depth <= 32,
{
}

/// What somebody types into a search has no meaning of its own there: brackets, asterisks and
/// zeros do not come through, and other characters than these and backslashes stay as they are.
pub proof fn law_searches_are_escaped(s: Seq<char>)
    ensures
        forall|i: int|
            0 <= i < filter_literal(s).len() ==> (#[trigger] filter_literal(s)[i]) != '*'
                && filter_literal(s)[i] != '(' && filter_literal(s)[i] != ')'
                && filter_literal(s)[i] != '\0',
        (forall|i: int|
            0 <= i < s.len() ==> (#[trigger] s[i]) != '*' && s[i] != '(' && s[i] != ')' && s[i]
                != '\0' && s[i] != '\\') ==> filter_literal(s) == s,
    decreases s.len(),
{
    reveal_strlit("\\5c");
    reveal_strlit("\\2a");
    reveal_strlit("\\28");
    reveal_strlit("\\29");
    reveal_strlit("\\00");
    if s.len() > 0 {
        let less = s.drop_last();
        law_searches_are_escaped(less);
        let start = filter_literal(less);
        let end = filter_char(s.last());
        let all = filter_literal(s);
        assert(all == start + end);
        assert forall|i: int| 0 <= i < all.len() implies (#[trigger] all[i]) != '*' && all[i] != '('
            && all[i] != ')' && all[i] != '\0' by {
            if i < start.len() {
                assert(all[i] == start[i]);
            } else {
                assert(all[i] == end[i - start.len()]);
            }
        }
        if forall|i: int|
            0 <= i < s.len() ==> (#[trigger] s[i]) != '*' && s[i] != '(' && s[i] != ')' && s[i]
                != '\0' && s[i] != '\\' {
            assert forall|i: int| 0 <= i < less.len() implies (#[trigger] less[i]) != '*' && less[i]
                != '(' && less[i] != ')' && less[i] != '\0' && less[i] != '\\' by {
                assert(less[i] == s[i]);
            }
            assert(s[s.len() - 1] == s.last());
            assert(all =~= s);
        }
    }
}

/// The values of an attribute are those of the first one of its name.
pub proof fn law_attributes_are_found_by_name(
    attrs: Seq<(String, Vec<String>)>,
    name: Seq<char>,
    i: int,
)
    requires
        0 <= i < attrs.len(),
        attrs[i].0@ == name,
        forall|k: int| 0 <= k < i ==> (#[trigger] attrs[k]).0@ != name,
    ensures
        values_of(attrs, name) == texts(attrs[i].1@),
        attrs[i].1@.len() > 0 ==> first_of(attrs, name) == Some(attrs[i].1@[0]@),
    decreases i,
{
    if i > 0 {
        assert(attrs[0].0@ != name);
        let rest = attrs.drop_first();
        assert forall|k: int| 0 <= k < i - 1 implies (#[trigger] rest[k]).0@ != name by {
            assert(rest[k] == attrs[k + 1]);
        }
        law_attributes_are_found_by_name(rest, name, i - 1);
    }
}

/// A directory has somebody as inactive if and only if an attribute tells so, and one of its
/// values is one of those that mean so, in small or capital letters.
pub proof fn law_people_are_active_unless_told(config: LdapConfig, entry: DirectoryEntry)
    ensures
        config.disabled_attribute is None ==> person_active(config, entry),
        config.disabled_attribute matches Some(attribute) ==> (!person_active(config, entry)
            <==> exists|k: int, j: int|
            0 <= k < values_of(entry.attrs@, attribute@).len() && 0 <= j
                < config.disabled_values@.len() && ascii_lowered(
                #[trigger] values_of(entry.attrs@, attribute@)[k],
            ) == ascii_lowered((#[trigger] config.disabled_values@[j])@)),
{
    if config.disabled_attribute is Some {
        let values = values_of(entry.attrs@, config.disabled_attribute->0@);
        let meant = crate::federated::lowered(texts(config.disabled_values@));
        if !person_active(config, entry) {
            let k = choose|k: int|
                0 <= k < values.len() && meant.contains(ascii_lowered(#[trigger] values[k]));
            let j = choose|j: int| 0 <= j < meant.len() && meant[j] == ascii_lowered(values[k]);
            assert(ascii_lowered(values[k]) == ascii_lowered(config.disabled_values@[j]@));
        }
        if exists|k: int, j: int|
            0 <= k < values.len() && 0 <= j < config.disabled_values@.len() && ascii_lowered(
                #[trigger] values[k],
            ) == ascii_lowered((#[trigger] config.disabled_values@[j])@) {
            let (k, j) = choose|k: int, j: int|
                0 <= k < values.len() && 0 <= j < config.disabled_values@.len() && ascii_lowered(
                    #[trigger] values[k],
                ) == ascii_lowered((#[trigger] config.disabled_values@[j])@);
            assert(meant[j] == ascii_lowered(values[k]));
            assert(meant.contains(ascii_lowered(values[k])));
        }
    }
}

/// What is read of a person: the address, the name or else the address, the title if there is one,
/// and whether the directory has the person as active.
pub proof fn law_people_are_read_from_their_entries(
    p: LdapSnapshotEntry,
    config: LdapConfig,
    graph: GroupGraph,
    entry: DirectoryEntry,
)
    requires
        is_person(p, config, graph, entry),
    ensures
        first_of(entry.attrs@, config.email_attribute@) == Some(p.email@),
        first_of(entry.attrs@, config.id_attribute@) is Some ==> first_of(
            entry.attrs@,
            config.id_attribute@,
        ) == Some(p.external_id@),
        first_of(entry.attrs@, config.name_attribute@) is Some ==> first_of(
            entry.attrs@,
            config.name_attribute@,
        ) == Some(p.name@),
        first_of(entry.attrs@, config.name_attribute@) is None ==> p.name@ == p.email@,
        first_of(entry.attrs@, config.title_attribute@) is Some ==> first_of(
            entry.attrs@,
            config.title_attribute@,
        ) == Some(p.title@),
        first_of(entry.attrs@, config.title_attribute@) is None ==> p.title@.len() == 0,
        p.active == person_active(config, entry),
{
}

/// Whether a chain leads from a member to a group, each link being a member of the next.
pub open spec fn is_chain(graph: GroupGraph, chain: Seq<Seq<char>>, from: Seq<char>, to: Seq<char>) -> bool {
    &&& chain.len() > 0
    &&& chain[0] == from
    &&& chain.last() == to
    &&& forall|i: int|
        0 <= i < chain.len() - 1 ==> graph.edge(#[trigger] chain[i], chain[i + 1])
}

/// A group is within some steps of a member if and only if a chain of members of members leads to
/// it that is no longer than that.
pub proof fn law_nested_groups_are_followed(
    graph: GroupGraph,
    member: Seq<char>,
    group: Seq<char>,
    steps: nat,
)
    ensures
        graph.within(member, group, steps) <==> exists|chain: Seq<Seq<char>>|
            #[trigger] is_chain(graph, chain, member, group) && chain.len() <= steps + 1,
    decreases steps,
{
    if steps == 0 {
        if group == member {
            let chain = seq![member];
            assert(is_chain(graph, chain, member, group));
        }
    } else {
        let fewer = (steps - 1) as nat;
        law_nested_groups_are_followed(graph, member, group, fewer);
        if graph.within(member, group, steps) && !graph.within(member, group, fewer) {
            let q = choose|q: Seq<char>|
                graph.within(member, q, fewer) && #[trigger] graph.edge(q, group);
            law_nested_groups_are_followed(graph, member, q, fewer);
            let chain = choose|chain: Seq<Seq<char>>|
                #[trigger] is_chain(graph, chain, member, q) && chain.len() <= fewer + 1;
            let longer = chain.push(group);
            assert forall|i: int| 0 <= i < longer.len() - 1 implies graph.edge(
                #[trigger] longer[i],
                longer[i + 1],
            ) by {
                if i < chain.len() - 1 {
                    assert(graph.edge(chain[i], chain[i + 1]));
                }
            }
            assert(is_chain(graph, longer, member, group));
        }
        if exists|chain: Seq<Seq<char>>|
            #[trigger] is_chain(graph, chain, member, group) && chain.len() <= steps + 1 {
            let chain = choose|chain: Seq<Seq<char>>|
                #[trigger] is_chain(graph, chain, member, group) && chain.len() <= steps + 1;
            if chain.len() > steps {
                let shorter = chain.drop_last();
                let q = shorter.last();
                assert forall|i: int| 0 <= i < shorter.len() - 1 implies graph.edge(
                    #[trigger] shorter[i],
                    shorter[i + 1],
                ) by {
                    assert(graph.edge(chain[i], chain[i + 1]));
                }
                assert(is_chain(graph, shorter, member, q));
                law_nested_groups_are_followed(graph, member, q, fewer);
                assert(graph.edge(chain[chain.len() - 2], chain[chain.len() - 1]));
            }
        }
    }
}

/// A provider is asked for the usual scopes and for those that are configured besides, and for no
/// others.
pub proof fn law_scopes_are_asked_for(extra: Seq<Seq<char>>, scope: Seq<char>)
    ensures
        scopes_of(extra).contains(scope) <==> scope == "openid"@ || scope == "email"@ || scope
            == "profile"@ || extra.contains(scope),
    decreases extra.len(),
{
    if extra.len() == 0 {
        let usual = seq!["openid"@, "email"@, "profile"@];
        assert(usual[0] == "openid"@ && usual[1] == "email"@ && usual[2] == "profile"@);
        assert(usual.contains(usual[0]) && usual.contains(usual[1]) && usual.contains(usual[2]));
    } else {
        let less = extra.drop_last();
        law_scopes_are_asked_for(less, scope);
        assert(extra =~= less.push(extra.last()));
        assert(extra.contains(scope) <==> less.contains(scope) || scope == extra.last()) by {
            if less.contains(scope) {
                let k = choose|k: int| 0 <= k < less.len() && less[k] == scope;
                assert(extra[k] == scope);
            }
            assert(extra[extra.len() - 1] == extra.last());
        }
        let before = scopes_of(less);
        if !crate::federated::usual_scope(extra.last()) {
            let all = before.push(extra.last());
            assert(all.contains(scope) <==> before.contains(scope) || scope == extra.last()) by {
                if before.contains(scope) {
                    let k = choose|k: int| 0 <= k < before.len() && before[k] == scope;
                    assert(all[k] == scope);
                }
                assert(all[before.len() as int] == extra.last());
            }
        }
    }
}

/// A login through a provider goes on if and only if it was begun here, was not finished before
/// and has not expired.
pub proof fn law_provider_logins_are_begun_here(row: OidcStateRow, now: Seq<char>)
    ensures
        state_fault(None, now) is Some,
        state_fault(Some(row), now) is None <==> {
            &&& row.consumed_at is None
            &&& !text_no_later(row.expires_at@, now)
            &&& uuid_parsed(row.id@) is Ok
            &&& uuid_parsed(row.provider_id@) is Ok
        },
{
}

/// A login that was begun expires after ten minutes, and is kept by digests of what the provider
/// hands back.
pub proof fn law_provider_logins_expire(
    s: NewOidcState,
    key: Seq<u8>,
    id: Uuid,
    provider_id: Uuid,
    state: Seq<char>,
    nonce: Seq<char>,
    verifier: Seq<char>,
    redirect: Seq<char>,
    now: Timestamp,
)
    requires
        keeps_state(s, key, id, provider_id, state, nonce, verifier, redirect, now),
    ensures
        s.state_hash@ == sha256(encode_utf8(state)),
        s.nonce_hash@ == sha256(encode_utf8(nonce)),
        later_text(now, 600) == Some(s.expires_at@),
        s.provider_id == provider_id,
        s.redirect_uri@ == redirect,
{
}

/// The texts among the items of a claim are all that are texts, and nothing else.
pub proof fn law_claims_are_read_item_by_item(items: Seq<Seq<char>>, text: Seq<char>)
    ensures
        string_items(items).contains(text) <==> exists|i: int|
            0 <= i < items.len() && json_unquoted(#[trigger] items[i]) == Some(text),
    decreases items.len(),
{
    if items.len() > 0 {
        let less = items.drop_last();
        law_claims_are_read_item_by_item(less, text);
        assert(items[items.len() - 1] == items.last());
        let before = string_items(less);
        let all = string_items(items);
        if before.contains(text) {
            let k = choose|k: int| 0 <= k < before.len() && before[k] == text;
            assert(all[k] == text);
            let i = choose|i: int|
                0 <= i < less.len() && json_unquoted(#[trigger] less[i]) == Some(text);
            assert(items[i] == less[i]);
        }
        if json_unquoted(items.last()) is Some {
            assert(all[before.len() as int] == json_unquoted(items.last())->0);
            if all.contains(text) && !before.contains(text) {
                let k = choose|k: int| 0 <= k < all.len() && all[k] == text;
                if k < before.len() {
                    assert(before[k] == text);
                }
            }
        }
        if exists|i: int|
            0 <= i < items.len() && json_unquoted(#[trigger] items[i]) == Some(text) {
            let i = choose|i: int|
                0 <= i < items.len() && json_unquoted(#[trigger] items[i]) == Some(text);
            if i < less.len() {
                assert(less[i] == items[i]);
            }
        }
    }
}

/// The name of a group is what its first part has behind the equals sign, without the blanks around
/// it; a part without one, or with nothing behind it, is no name.
pub proof fn law_groups_are_named_by_their_first_part(
    kind: Seq<char>,
    name: Seq<char>,
    rest: Seq<char>,
)
    requires
        !kind.contains(','),
        !kind.contains('='),
        !name.contains(','),
        !name.contains('\\'),
    ensures
        trimmed(name).len() > 0 ==> name_in_dn(kind + seq!['='] + name + seq![','] + rest) == Some(
            trimmed(name),
        ),
        trimmed(name).len() == 0 ==> name_in_dn(kind + seq!['='] + name + seq![','] + rest) is None,
        name_in_dn(kind + seq![','] + rest) is None,
{
    let first = kind + seq!['='] + name;
    assert(!first.contains(',')) by {
        assert forall|i: int| 0 <= i < first.len() implies first[i] != ',' by {
            if i < kind.len() {
                assert(kind.contains(kind[i]));
            } else if i > kind.len() {
                assert(name.contains(name[i - kind.len() - 1]));
                assert(first[i] == name[i - kind.len() - 1]);
            }
        }
    }
    crate::text::lemma_split_first(first, ',', rest);
    crate::text::lemma_split_first(kind, '=', name);
    crate::text::lemma_split_first(kind, ',', rest);
    lemma_nothing_to_unescape(name);
}

proof fn lemma_nothing_to_unescape(s: Seq<char>)
    requires
        !s.contains('\\'),
    ensures
        unescaped(s) == s,
    decreases s.len(),
{
    if s.len() > 0 {
        let rest = s.skip(1);
        assert(s.contains(s[0]));
        assert(!rest.contains('\\')) by {
            assert forall|i: int| 0 <= i < rest.len() implies rest[i] != '\\' by {
                assert(s.contains(s[i + 1]));
            }
        }
        lemma_nothing_to_unescape(rest);
        assert(seq![s[0]] + rest =~= s);
    }
}

/// An equals sign that was escaped stands for itself; all else stays.
pub proof fn law_escaped_signs_stand_for_themselves(s: Seq<char>, c: char)
    ensures
        unescaped(seq!['\\', '='] + s) == seq!['='] + unescaped(s),
        c != '\\' ==> unescaped(seq![c] + s) == seq![c] + unescaped(s),
        unescaped(Seq::<char>::empty()).len() == 0,
{
    let escaped = seq!['\\', '='] + s;
    assert(escaped[0] == '\\' && escaped[1] == '=');
    assert(escaped.skip(2) =~= s);
    let plain = seq![c] + s;
    assert(plain[0] == c);
    assert(plain.skip(1) =~= s);
}

/// Names of directories are the same without regard to capitals and to the blanks around them.
pub proof fn law_names_of_directories_are_compared_in_small_letters(value: Seq<char>)
    ensures
        normal_dn(value) == crate::text::ascii_lowered(trimmed(value)),
        normal_dn(value).len() == trimmed(value).len(),
{
}

/// The graph of groups has the members that the entries of the groups list, and no others.
pub proof fn law_group_graphs_hold_the_listed_members(
    graph: GroupGraph,
    config: LdapConfig,
    entries: Seq<DirectoryEntry>,
    member: Seq<char>,
    group: Seq<char>,
    i: int,
    j: int,
)
    requires
        is_graph_of(graph, config, entries),
    ensures
        0 <= i < entries.len() && 0 <= j < values_of(
            entries[i].attrs@,
            config.group_member_attribute@,
        ).len() ==> graph.edge(
            ascii_lowered(
                trimmed(values_of(entries[i].attrs@, config.group_member_attribute@)[j]),
            ),
            ascii_lowered(trimmed(entries[i].dn@)),
        ),
        graph.edge(member, group) ==> exists|k: int, l: int|
            0 <= k < entries.len() && 0 <= l < values_of(
                entries[k].attrs@,
                config.group_member_attribute@,
            ).len() && ascii_lowered(trimmed(entries[k].dn@)) == group && ascii_lowered(
                trimmed(
                    #[trigger] values_of(entries[k].attrs@, config.group_member_attribute@)[l],
                ),
            ) == member,
{
    if 0 <= i < entries.len() && 0 <= j < values_of(
        entries[i].attrs@,
        config.group_member_attribute@,
    ).len() {
        let m = normal_dn(values_of(entries[i].attrs@, config.group_member_attribute@)[j]);
        let g = normal_dn(entries[i].dn@);
        assert(listed_member(config, entries, m, g));
        assert(graph.edge(m, g));
    }
    if graph.edge(member, group) {
        assert(listed_member(config, entries, member, group));
    }
}

/// A group is called by the attribute for that, or else by its place in the directory; where
/// several entries name one group, the last of them counts.
pub proof fn law_groups_are_called_by_their_entries(
    config: LdapConfig,
    entries: Seq<DirectoryEntry>,
    entry: DirectoryEntry,
    group: Seq<char>,
)
    ensures
        listed_name(config, Seq::<DirectoryEntry>::empty(), group) is None,
        ascii_lowered(trimmed(entry.dn@)) == group && first_of(
            entry.attrs@,
            config.group_name_attribute@,
        ) is Some ==> listed_name(config, entries.push(entry), group) == first_of(
            entry.attrs@,
            config.group_name_attribute@,
        ),
        ascii_lowered(trimmed(entry.dn@)) == group && first_of(
            entry.attrs@,
            config.group_name_attribute@,
        ) is None && name_in_dn(entry.dn@) is Some ==> listed_name(
            config,
            entries.push(entry),
            group,
        ) == name_in_dn(entry.dn@),
        ascii_lowered(trimmed(entry.dn@)) != group || first_of(
            entry.attrs@,
            config.group_name_attribute@,
        ) is None && name_in_dn(entry.dn@) is None ==> listed_name(
            config,
            entries.push(entry),
            group,
        ) == listed_name(config, entries, group),
{
    assert(entries.push(entry).drop_last() =~= entries);
}

/// A person is in the groups that their own entry refers to, and in those to which a chain of
/// members of members leads that is no longer than allowed; and in no others.
pub proof fn law_people_are_in_the_groups_that_lead_to_them(
    config: LdapConfig,
    graph: GroupGraph,
    entry: DirectoryEntry,
    group: Seq<char>,
)
    ensures
        person_in_group(config, graph, entry, group) <==> {
            ||| exists|k: int|
                0 <= k < values_of(entry.attrs@, config.group_attribute@).len()
                    && refers_to(
                    graph,
                    #[trigger] values_of(entry.attrs@, config.group_attribute@)[k],
                    group,
                )
            ||| exists|q: Seq<char>, p: Seq<char>|
                #[trigger] graph.edge(q, p) && graph.name_of(p) == Some(group) && graph.within(
                    ascii_lowered(trimmed(entry.dn@)),
                    q,
                    config.nested_group_depth as nat,
                )
        },
{
    let values = values_of(entry.attrs@, config.group_attribute@);
    let member = normal_dn(entry.dn@);
    let depth = config.nested_group_depth as nat;
    if exists|k: int|
        0 <= k < values.len() && refers_to(graph, #[trigger] values[k], group) {
        let k = choose|k: int|
            0 <= k < values.len() && refers_to(graph, #[trigger] values[k], group);
        assert(crate::federated::referred_group(graph, values[k]) == Some(group));
    }
    if exists|k: int|
        0 <= k < values.len() && crate::federated::referred_group(graph, #[trigger] values[k])
            == Some(group) {
        let k = choose|k: int|
            0 <= k < values.len() && crate::federated::referred_group(graph, #[trigger] values[k])
                == Some(group);
        assert(refers_to(graph, values[k], group));
    }
    let of = graph.reached(member, depth);
    assert forall|q: Seq<char>| of.contains(q) == graph.within(member, q, depth) by {}
    if graph.names_parent(of, group) {
        let (q, p) = choose|q: Seq<char>, p: Seq<char>|
            of.contains(q) && #[trigger] graph.edge(q, p) && graph.name_of(p) == Some(group);
        assert(graph.edge(q, p) && graph.within(member, q, depth));
    }
    if exists|q: Seq<char>, p: Seq<char>|
        #[trigger] graph.edge(q, p) && graph.name_of(p) == Some(group) && graph.within(
            member,
            q,
            depth,
        ) {
        let (q, p) = choose|q: Seq<char>, p: Seq<char>|
            #[trigger] graph.edge(q, p) && graph.name_of(p) == Some(group) && graph.within(
                member,
                q,
                depth,
            );
        assert(of.contains(q) && graph.edge(q, p));
    }
}

/// Whether a value refers to a group: by the place of one that has the name, or, where none has
/// that place, by a place with the name in it.
pub open spec fn refers_to(graph: GroupGraph, value: Seq<char>, group: Seq<char>) -> bool {
    ||| graph.name_of(ascii_lowered(trimmed(value))) == Some(group)
    ||| graph.name_of(ascii_lowered(trimmed(value))) is None && name_in_dn(value) == Some(group)
}

/// A person is known by the first value of an attribute, or else by the bytes of it in base64;
/// without that, or without an address, a person is not read.
pub proof fn law_people_are_known_by_an_attribute(
    config: LdapConfig,
    entry: DirectoryEntry,
    name: Seq<char>,
    i: int,
)
    ensures
        first_of(entry.attrs@, name) is Some ==> person_id_of(entry, name) == first_of(
            entry.attrs@,
            name,
        ),
        first_of(entry.attrs@, name) is None && 0 <= i < entry.bin_attrs@.len()
            && entry.bin_attrs@[i].0@ == name && entry.bin_attrs@[i].1@.len() > 0 && (forall|k: int|
            0 <= k < i ==> (#[trigger] entry.bin_attrs@[k]).0@ != name) ==> person_id_of(entry, name)
            == Some(crate::crypto::base64_text(entry.bin_attrs@[i].1@[0]@)),
        first_of(entry.attrs@, name) is None && (forall|k: int|
            0 <= k < entry.bin_attrs@.len() ==> (#[trigger] entry.bin_attrs@[k]).0@ != name)
            ==> person_id_of(entry, name) is None,
        person_fault(config, entry) is None <==> person_id_of(entry, config.id_attribute@) is Some
            && first_of(entry.attrs@, config.email_attribute@) is Some,
{
    lemma_first_bytes(entry.bin_attrs@, name, i);
}

proof fn lemma_first_bytes(attrs: Seq<(String, Vec<Vec<u8>>)>, name: Seq<char>, i: int)
    ensures
        0 <= i < attrs.len() && attrs[i].0@ == name && attrs[i].1@.len() > 0 && (forall|k: int|
            0 <= k < i ==> (#[trigger] attrs[k]).0@ != name) ==> first_bytes(attrs, name) == Some(
            attrs[i].1@[0]@,
        ),
        (forall|k: int| 0 <= k < attrs.len() ==> (#[trigger] attrs[k]).0@ != name) ==> first_bytes(
            attrs,
            name,
        ) is None,
    decreases attrs.len(),
{
    if attrs.len() > 0 {
        let rest = attrs.drop_first();
        lemma_first_bytes(rest, name, i - 1);
        if 0 < i < attrs.len() && (forall|k: int| 0 <= k < i ==> (#[trigger] attrs[k]).0@ != name) {
            assert(attrs[0].0@ != name);
            assert forall|k: int| 0 <= k < i - 1 implies (#[trigger] rest[k]).0@ != name by {
                assert(attrs[k + 1].0@ != name);
            }
            assert(rest[i - 1] == attrs[i]);
        }
        if forall|k: int| 0 <= k < attrs.len() ==> (#[trigger] attrs[k]).0@ != name {
            assert(attrs[0].0@ != name);
            assert forall|k: int| 0 <= k < rest.len() implies (#[trigger] rest[k]).0@ != name by {
                assert(attrs[k + 1].0@ != name);
            }
        }
    }
}

/// A person is searched for among the people whom the filter admits, by the address as it is.
pub proof fn law_people_are_searched_by_address(config: LdapConfig, email: Seq<char>)
    ensures
        ("(&"@ + config.user_filter@).is_prefix_of(person_filter_of(config, email)),
        is_suffix(
            "("@ + config.email_attribute@ + "="@ + filter_literal(email) + "))"@,
            person_filter_of(config, email),
        ),
        person_filter_of(config, email).len() == config.user_filter@.len()
            + config.email_attribute@.len() + filter_literal(email).len() + 6,
{
    reveal_strlit("(&");
    reveal_strlit("(");
    reveal_strlit("=");
    reveal_strlit("))");
    let f = person_filter_of(config, email);
    let begin = "(&"@ + config.user_filter@;
    let end = "("@ + config.email_attribute@ + "="@ + filter_literal(email) + "))"@;
    assert(f =~= begin + end);
    assert(f.subrange(0, begin.len() as int) =~= begin);
    assert(f.skip(f.len() - end.len()) =~= end);
}

/// What a provider claims of a person: the name or else the address, the title if there is one, and
/// whether the address was verified.
pub proof fn law_claims_are_read_from_the_answer(
    c: OidcClaims,
    config: OidcConfig,
    subject: Seq<char>,
    email: Seq<char>,
    email_verified: bool,
    userinfo: Seq<char>,
)
    requires
        are_claims(c, config, subject, email, email_verified, userinfo),
    ensures
        c.subject@ == subject,
        c.email@ == email,
        c.email_verified == email_verified,
        string_member_of(userinfo, "name"@) is Some ==> string_member_of(userinfo, "name"@) == Some(
            c.name@,
        ),
        string_member_of(userinfo, "name"@) is None ==> c.name@ == email,
        string_member_of(userinfo, config.title_claim@) is Some ==> string_member_of(
            userinfo,
            config.title_claim@,
        ) == Some(c.title@),
        string_member_of(userinfo, config.title_claim@) is None ==> c.title@.len() == 0,
        texts(c.groups@) == claim_texts(userinfo, config.groups_claim@),
{
}

/// A claim is the texts of a list, each once, or a single text; anything else is none.
pub proof fn law_claims_are_lists_or_texts(value: Seq<char>, claim: Seq<char>, text: Seq<char>)
    ensures
        json_members(value) is None ==> claim_texts(value, claim).len() == 0,
        json_members(value) is Some && member_of(json_members(value)->0, claim) is None
            ==> claim_texts(value, claim).len() == 0,
        json_members(value) is Some && member_of(json_members(value)->0, claim) is Some ==> {
            let member = member_of(json_members(value)->0, claim)->0;
            &&& json_items(member) is Some ==> (claim_texts(value, claim).contains(text)
                <==> exists|i: int|
                0 <= i < json_items(member)->0.len() && json_unquoted(
                    #[trigger] json_items(member)->0[i],
                ) == Some(text))
            &&& json_items(member) is Some ==> claim_texts(value, claim).no_duplicates()
            &&& json_items(member) is None && json_unquoted(member) is Some ==> claim_texts(
                value,
                claim,
            ) == seq![json_unquoted(member)->0]
            &&& json_items(member) is None && json_unquoted(member) is None ==> claim_texts(
                value,
                claim,
            ).len() == 0
        },
{
    if json_members(value) is Some && member_of(json_members(value)->0, claim) is Some {
        let member = member_of(json_members(value)->0, claim)->0;
        if json_items(member) is Some {
            crate::laws::directories::lemma_sorted_unique_members(
                string_items(json_items(member)->0),
                text,
            );
            law_claims_are_read_item_by_item(json_items(member)->0, text);
        }
    }
}
} // verus!
