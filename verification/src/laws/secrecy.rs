//! What the keeping of secrets and of the access to routers promises.

use vstd::prelude::*;
use vstd::utf8::*;

use crate::crypto::{base64_bytes, base64url_bytes};
use crate::ids::{uuid_parsed, uuid_text, Uuid};
use crate::models::{RouterTargetResponse, UpdateRouterTargetRequest};
use crate::agent::GatewayCredential;
use crate::router_target::{
    credential_json, is_next_credential, keeps_credential, payload_of, router_fault, target_fault,
    tells, RouterRow, RouterUpdate,
};
use crate::secrets::{bytes_trimmed_end, bytes_trimmed_start, is_envelope, master_key_bytes, sealed};
use crate::text::{byte_count, occurs_in, trimmed};
use crate::urls::url_parsed;

verus! {

/// An envelope is a version of one, a nonce of 24 bytes and what was sealed with it, under the key
/// and for the context; it is 41 bytes longer than what it holds.
pub proof fn law_envelopes_hold_what_was_sealed(
    key: Seq<u8>,
    context: Seq<char>,
    plaintext: Seq<u8>,
    envelope: Seq<u8>,
)
    requires
        is_envelope(key, context, plaintext, envelope),
    ensures
        envelope.len() == plaintext.len() + 41,
        envelope[0] == 1,
        sealed(key, envelope.subrange(1, 25), plaintext, encode_utf8(context)) == Some(
            envelope.skip(25),
        ),
{
    let (nonce, ciphertext) = choose|nonce: Seq<u8>, ciphertext: Seq<u8>|
        {
            &&& nonce.len() == crate::secrets::NONCE_LENGTH
            &&& crate::secrets::fits(plaintext)
            &&& ciphertext.len() == plaintext.len() + crate::secrets::TAG_LENGTH
            &&& #[trigger] sealed(key, nonce, plaintext, encode_utf8(context)) == Some(ciphertext)
            &&& envelope == #[trigger] crate::secrets::envelope_of(nonce, ciphertext)
        };
    assert(envelope.subrange(1, 25) =~= nonce);
    assert(envelope.skip(25) =~= ciphertext);
}

/// Whether bytes are a blank, a tab, a line feed, a form feed or a carriage return each.
pub open spec fn are_blank(s: Seq<u8>) -> bool {
    forall|i: int|
        0 <= i < s.len() ==> (#[trigger] s[i] == 32 || s[i] == 9 || s[i] == 10 || s[i] == 12 || s[i]
            == 13)
}

proof fn lemma_start(a: Seq<u8>, s: Seq<u8>)
    requires
        are_blank(a),
        s.len() == 0 || !are_blank(s.take(1)),
    ensures
        bytes_trimmed_start(a + s) == s,
    decreases a.len(),
{
    if a.len() == 0 {
        assert(a + s =~= s);
        if s.len() > 0 {
            assert(!are_blank(s.take(1)));
            assert(s.take(1)[0] == s[0]);
        }
    } else {
        let rest = a.drop_first();
        assert((a + s).drop_first() =~= rest + s);
        assert(a[0] == (a + s)[0]);
        assert forall|i: int| 0 <= i < rest.len() implies (#[trigger] rest[i] == 32 || rest[i] == 9
            || rest[i] == 10 || rest[i] == 12 || rest[i] == 13) by {
            assert(rest[i] == a[i + 1]);
        }
        lemma_start(rest, s);
    }
}

proof fn lemma_end(s: Seq<u8>, b: Seq<u8>)
    requires
        are_blank(b),
        s.len() > 0,
        !are_blank(s.skip(s.len() - 1)),
    ensures
        bytes_trimmed_end(s + b) == s,
    decreases b.len(),
{
    if b.len() == 0 {
        assert(s + b =~= s);
        assert(s.skip(s.len() - 1)[0] == s.last());
        assert(s.skip(s.len() - 1).len() == 1);
    } else {
        let rest = b.drop_last();
        assert((s + b).drop_last() =~= s + rest);
        assert((s + b).last() == b[b.len() - 1]);
        assert forall|i: int| 0 <= i < rest.len() implies (#[trigger] rest[i] == 32 || rest[i] == 9
            || rest[i] == 10 || rest[i] == 12 || rest[i] == 13) by {
            assert(rest[i] == b[i]);
        }
        lemma_end(s, rest);
    }
}

/// A master key is 32 bytes as they are; any other number of bytes is the key in base64, of either
/// alphabet, with blanks around it.
pub proof fn law_master_keys_are_read(a: Seq<u8>, core: Seq<u8>, b: Seq<u8>)
    requires
        are_blank(a),
        are_blank(b),
        core.len() > 0,
        !are_blank(core.take(1)),
        !are_blank(core.skip(core.len() - 1)),
    ensures
        (a + core + b).len() == 32 ==> master_key_bytes(a + core + b) == Some(a + core + b),
        (a + core + b).len() != 32 && base64_bytes(core) is Some ==> master_key_bytes(a + core + b)
            == base64_bytes(core),
        (a + core + b).len() != 32 && base64_bytes(core) is None ==> master_key_bytes(a + core + b)
            == base64url_bytes(core),
{
    assert(a + core + b =~= a + (core + b));
    assert((core + b).take(1) =~= core.take(1));
    lemma_start(a, core + b);
    lemma_end(core, b);
}

/// Credentials are for a router that is a MikroTik gateway.
pub proof fn law_credentials_are_for_routers(row: Option<RouterRow>)
    ensures
        router_fault(row) is None <==> row is Some && row->0.kind@ == "mikrotik"@ && uuid_parsed(
            row->0.id@,
        ) is Ok,
{
}

/// The access to a router is told without its secrets.
pub proof fn law_access_to_routers_is_told(
    r: RouterTargetResponse,
    configured: bool,
    c: GatewayCredential,
)
    requires
        tells(r, configured, c),
    ensures
        r.configured == configured,
        r.base_url@ == c.base_url@,
        r.username@ == c.username@,
        r.has_password <==> c.password@.len() > 0,
        r.has_ca_certificate <==> c.ca_certificate_pem@.len() > 0,
{
}

/// A router is reached at an origin over TLS that names nobody, by a user with a name of at most
/// 128 bytes, with a password and a certificate; what is not given anew stays as it was.
pub proof fn law_access_to_routers_is_checked(
    request: UpdateRouterTargetRequest,
    old: Option<GatewayCredential>,
)
    ensures
        target_fault(request, old) is None <==> {
            let password = if request.password is Some {
                request.password->0@
            } else if old is Some {
                old->0.password@
            } else {
                Seq::empty()
            };
            let certificate = if request.ca_certificate_pem is Some {
                request.ca_certificate_pem->0@
            } else if old is Some {
                old->0.ca_certificate_pem@
            } else {
                Seq::empty()
            };
            let url = url_parsed(trimmed(request.base_url@));
            &&& url is Ok
            &&& url->Ok_0.scheme == "https"@
            &&& url->Ok_0.has_host
            &&& url->Ok_0.path.len() == 0 || url->Ok_0.path == "/"@
            &&& url->Ok_0.query is None
            &&& url->Ok_0.fragment is None
            &&& url->Ok_0.username.len() == 0
            &&& url->Ok_0.password is None
            &&& trimmed(request.username@).len() > 0
            &&& byte_count(trimmed(request.username@)) <= 128
            &&& password.len() > 0
            &&& trimmed(certificate).len() > 0
            &&& byte_count(certificate) <= 262144
            &&& occurs_in("-----BEGIN CERTIFICATE-----"@, certificate)
        },
{
}

/// The access to a router is kept as it was asked for; what is not given anew stays as it was.
pub proof fn law_access_to_routers_is_kept(
    c: GatewayCredential,
    request: UpdateRouterTargetRequest,
    old: GatewayCredential,
)
    requires
        is_next_credential(c, request, Some(old)),
    ensures
        c.backend@ == "mikrotik"@,
        c.username@ == trimmed(request.username@),
        request.password is Some ==> c.password@ == request.password->0@,
        request.password is None ==> c.password@ == old.password@,
        request.ca_certificate_pem is Some ==> c.ca_certificate_pem@
            == request.ca_certificate_pem->0@,
        request.ca_certificate_pem is None ==> c.ca_certificate_pem@ == old.ca_certificate_pem@,
{
}

/// The access to a router is stored only in an envelope for its gateway.
pub proof fn law_access_to_routers_is_sealed(
    u: RouterUpdate,
    key: Seq<u8>,
    actor: Uuid,
    gateway_id: Uuid,
    c: GatewayCredential,
)
    requires
        keeps_credential(u, key, actor, gateway_id, c),
    ensures
        u.gateway_id == gateway_id,
        u.router_url@ == c.base_url@,
        is_envelope(
            key,
            "router-gateway:"@ + uuid_text(gateway_id),
            encode_utf8(credential_json(c)),
            u.envelope@,
        ),
        u.audit.actor_user_id == Some(actor),
        u.audit.object_id == Some(gateway_id),
        u.response.configured,
{
}

/// An agent is sent the access to its gateway if that is a router and there is one, and nothing
/// otherwise.
pub proof fn law_access_is_sent_to_routers(
    kind: Option<Seq<char>>,
    credential: Option<GatewayCredential>,
)
    ensures
        payload_of(kind, credential) is Err <==> kind is None,
        kind is Some && kind->0 == "mikrotik"@ && credential is Some ==> payload_of(
            kind,
            credential,
        )->Ok_0 == Some(credential_json(credential->0)),
        kind is Some && (kind->0 != "mikrotik"@ || credential is None) ==> payload_of(
            kind,
            credential,
        )->Ok_0 is None,
{
}

} // verus!
