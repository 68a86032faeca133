//! WireGuard key pairs.

use vstd::prelude::*;
use vstd::string::*;
use vstd::utf8::*;

use crate::config::is_public_key;
use crate::crypto::{
    base64_bytes, base64_decode, base64_encode, base64_text, has_graphic_ends, random_bytes, wipe,
};
use crate::text::{lemma_trimmed_is_fixed, trim, trimmed};

verus! {

/// The X25519 public key of a private key.
pub uninterp spec fn x25519_public(private_key: Seq<u8>) -> Seq<u8>;

/// Calls `x25519_dalek` to compute a public key: [`x25519_public`] of the private key, 32 bytes
/// long.
#[verifier::external_body]
fn public_of(private_key: &[u8]) -> (r: Vec<u8>)
    requires
        private_key@.len() == 32,
    ensures
        r@ == x25519_public(private_key@),
        r@.len() == 32,
{
    let mut bytes = [0u8; 32];
    bytes.copy_from_slice(private_key);
    let secret = x25519_dalek::StaticSecret::from(bytes);
    x25519_dalek::PublicKey::from(&secret).as_bytes().to_vec()
}

/// A private key and its public key, both in base64.
pub struct WireGuardKeyPair {
    private_key: String,
    public_key: String,
}

/// Why a private key is refused.
#[derive(Debug, Clone, Copy, PartialEq, Eq, Structural)]
pub enum KeyError {
    NotBase64,
    WrongLength,
}

impl KeyError {
    /// What the error says.
    pub open spec fn text(self) -> Seq<char> {
        match self {
            KeyError::NotBase64 => "private key is not valid base64"@,
            KeyError::WrongLength => "private key must contain 32 bytes"@,
        }
    }

    /// What the error says.
    pub fn message(&self) -> (r: String)
        ensures
            r@ == self.text(),
    {
        match self {
            KeyError::NotBase64 => String::from_str("private key is not valid base64"),
            KeyError::WrongLength => String::from_str("private key must contain 32 bytes"),
        }
    }
}

impl WireGuardKeyPair {
    /// The private key's text.
    pub closed spec fn private_text(self) -> Seq<char> {
        self.private_key@
    }

    /// The public key's text.
    pub closed spec fn public_text(self) -> Seq<char> {
        self.public_key@
    }

    /// The two keys belong together, each the base64 text of 32 bytes.
    pub open spec fn wf(self) -> bool {
        &&& exists|k: Seq<u8>| #[trigger]
            base64_text(k) == self.private_text() && k.len() == 32 && self.public_text()
                == base64_text(x25519_public(k)) && x25519_public(k).len() == 32
        &&& is_public_key(self.public_text())
    }

    /// The private key.
    pub fn private_key(&self) -> (r: String)
        ensures
            r@ == self.private_text(),
    {
        self.private_key.clone()
    }

    /// The public key.
    pub fn public_key(&self) -> (r: String)
        ensures
            r@ == self.public_text(),
    {
        self.public_key.clone()
    }
}

/// The key pair of 32 bytes.
pub fn pair_of(mut private_key: Vec<u8>) -> (r: WireGuardKeyPair)
    requires
        private_key@.len() == 32,
    ensures
        r.private_text() == base64_text(private_key@),
        r.public_text() == base64_text(x25519_public(private_key@)),
        has_graphic_ends(r.private_text()),
        r.wf(),
{
    let ghost k = private_key@;
    let public = public_of(private_key.as_slice());
    let r = WireGuardKeyPair {
        private_key: base64_encode(private_key.as_slice()),
        public_key: base64_encode(public.as_slice()),
    };
    wipe(&mut private_key);
    assert(base64_text(k) == r.private_text());
    r
}

/// A new key pair.
pub fn generate_keypair() -> (r: WireGuardKeyPair)
    ensures
        r.wf(),
        has_graphic_ends(r.private_text()),
{
    pair_of(random_bytes(32))
}

/// What a private key's text decodes to, without outer whitespace.
pub open spec fn decoded_key(private_key: Seq<char>) -> Option<Seq<u8>> {
    base64_bytes(encode_utf8(trimmed(private_key)))
}

/// The public key of a private key. From the text of a private key that was made here comes the
/// text of its public key, whatever whitespace stands around it.
pub fn derive_public_key(private_key: &str) -> (r: Result<String, KeyError>)
    ensures
        match decoded_key(private_key@) {
            None => r == Err::<String, KeyError>(KeyError::NotBase64),
            Some(bytes) => if bytes.len() == 32 {
                r matches Ok(public) && public@ == base64_text(x25519_public(bytes))
            } else {
                r == Err::<String, KeyError>(KeyError::WrongLength)
            },
        },
        forall|k: Seq<u8>|
            k.len() == 32 && trimmed(private_key@) == #[trigger] base64_text(k) ==> r is Ok
                && r->Ok_0@ == base64_text(x25519_public(k)),
        has_graphic_ends(private_key@) ==> trimmed(private_key@) == private_key@,
        r matches Ok(public) ==> is_public_key(public@),
{
    let text = trim(private_key);
    proof {
        if has_graphic_ends(private_key@) {
            lemma_trimmed_is_fixed(private_key@);
        }
    }
    match base64_decode(text.as_str().as_bytes()) {
        None => Err(KeyError::NotBase64),
        Some(mut bytes) => {
            if bytes.len() != 32 {
                wipe(&mut bytes);
                return Err(KeyError::WrongLength);
            }
            let public = public_of(bytes.as_slice());
            wipe(&mut bytes);
            Ok(base64_encode(public.as_slice()))
        },
    }
}

} // verus!
