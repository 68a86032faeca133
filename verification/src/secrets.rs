//! Secrets at rest: encrypted envelopes that are bound to what they belong to.

use chacha20poly1305::aead::{Aead, Payload};
use chacha20poly1305::KeyInit;
use vstd::prelude::*;
use vstd::string::*;
use vstd::utf8::*;

use crate::crypto::{
    base64_bytes, base64_decode, base64_encode, base64_text, base64url_bytes, base64url_decode,
    opt_bytes, random_bytes, wipe,
};
use crate::error::{internal, internal_error, ApiError, ErrorView};
use crate::rows::unless;

verus! {

/// The first byte of every envelope.
pub const ENVELOPE_VERSION: u8 = 1;

/// How many bytes of an envelope are its nonce.
pub const NONCE_LENGTH: usize = 24;

/// How many bytes the cipher adds to a message.
pub const TAG_LENGTH: usize = 16;

/// How many bytes a message has at most: the cipher counts blocks of 64 bytes in 32 bits, and
/// neither the first number nor the last is for the message.
pub const MAXIMUM_MESSAGE: u64 = 0x3f_ffff_ff80;

/// Whether a message fits the cipher.
pub open spec fn fits(message: Seq<u8>) -> bool {
    message.len() <= MAXIMUM_MESSAGE
}

/// The XChaCha20-Poly1305 ciphertext of a message with associated data, tag included; none
/// where the message is too long for the cipher.
pub uninterp spec fn sealed(
    key: Seq<u8>,
    nonce: Seq<u8>,
    message: Seq<u8>,
    associated: Seq<u8>,
) -> Option<Seq<u8>>;

/// The message of an XChaCha20-Poly1305 ciphertext with associated data, where its tag is
/// right.
pub uninterp spec fn opened(
    key: Seq<u8>,
    nonce: Seq<u8>,
    ciphertext: Seq<u8>,
    associated: Seq<u8>,
) -> Option<Seq<u8>>;

/// Calls `chacha20poly1305::XChaCha20Poly1305` to encrypt: every message that fits the cipher is
/// sealed, the result is [`sealed`] of the arguments, and it is 16 bytes longer than the message.
#[verifier::external_body]
fn seal(key: &[u8], nonce: &[u8], message: &[u8], associated: &[u8]) -> (r: Option<Vec<u8>>)
    requires
        key@.len() == 32,
        nonce@.len() == 24,
        fits(message@),
    ensures
        opt_bytes(r) == sealed(key@, nonce@, message@, associated@),
        r is Some,
        r->0@.len() == message@.len() + TAG_LENGTH,
{
    let cipher = chacha20poly1305::XChaCha20Poly1305::new_from_slice(key).ok()?;
    let nonce = chacha20poly1305::XNonce::from_slice(nonce);
    cipher.encrypt(nonce, Payload { msg: message, aad: associated }).ok()
}

/// Calls `chacha20poly1305::XChaCha20Poly1305` to decrypt: its result is [`opened`] of the
/// arguments, and what was sealed with the same key, nonce and associated data is opened to the
/// message. That other associated data or an altered ciphertext is refused holds but for
/// guesses of the tag, and is not stated.
#[verifier::external_body]
fn unseal(key: &[u8], nonce: &[u8], ciphertext: &[u8], associated: &[u8]) -> (r: Option<Vec<u8>>)
    requires
        key@.len() == 32,
        nonce@.len() == 24,
        ciphertext@.len() <= MAXIMUM_MESSAGE + TAG_LENGTH,
    ensures
        opt_bytes(r) == opened(key@, nonce@, ciphertext@, associated@),
        forall|message: Seq<u8>| #[trigger]
            sealed(key@, nonce@, message, associated@) == Some(ciphertext@) ==> opt_bytes(r)
                == Some(message),
{
    let cipher = chacha20poly1305::XChaCha20Poly1305::new_from_slice(key).ok()?;
    let nonce = chacha20poly1305::XNonce::from_slice(nonce);
    cipher.decrypt(nonce, Payload { msg: ciphertext, aad: associated }).ok()
}

/// Why a secret could not be kept or read.
#[derive(Debug, Clone, PartialEq, Eq)]
pub enum SecretError {
    InvalidMasterKey,
    InvalidEnvelope,
    Authentication,
    Encode(String),
    Read(String),
}

impl SecretError {
    /// What the error says.
    pub open spec fn text(self) -> Seq<char> {
        match self {
            SecretError::InvalidMasterKey =>
                "master key must be exactly 32 raw bytes or base64-encoded 32 bytes"@,
            SecretError::InvalidEnvelope =>
                "secret envelope is malformed or has an unsupported version"@,
            SecretError::Authentication => "secret envelope authentication failed"@,
            SecretError::Encode(m) => "secret value could not be encoded: "@ + m@,
            SecretError::Read(m) => "read master key: "@ + m@,
        }
    }

    /// What the error says.
    pub fn message(&self) -> (r: String)
        ensures
            r@ == self.text(),
    {
        match self {
            SecretError::InvalidMasterKey => String::from_str(
                "master key must be exactly 32 raw bytes or base64-encoded 32 bytes",
            ),
            SecretError::InvalidEnvelope => String::from_str(
                "secret envelope is malformed or has an unsupported version",
            ),
            SecretError::Authentication => String::from_str(
                "secret envelope authentication failed",
            ),
            SecretError::Encode(m) => String::from_str("secret value could not be encoded: ").concat(
                m.as_str(),
            ),
            SecretError::Read(m) => String::from_str("read master key: ").concat(m.as_str()),
        }
    }
}

/// Whether a byte is ASCII whitespace.
pub open spec fn is_ascii_space(b: u8) -> bool {
    b == 0x20 || b == 0x09 || b == 0x0a || b == 0x0c || b == 0x0d
}

/// Bytes without leading ASCII whitespace.
pub open spec fn bytes_trimmed_start(s: Seq<u8>) -> Seq<u8>
    decreases s.len(),
{
    if s.len() > 0 && is_ascii_space(s[0]) {
        bytes_trimmed_start(s.drop_first())
    } else {
        s
    }
}

/// Bytes without trailing ASCII whitespace.
pub open spec fn bytes_trimmed_end(s: Seq<u8>) -> Seq<u8>
    decreases s.len(),
{
    if s.len() > 0 && is_ascii_space(s.last()) {
        bytes_trimmed_end(s.drop_last())
    } else {
        s
    }
}

fn is_space(b: u8) -> (r: bool)
    ensures
        r == is_ascii_space(b),
{
    b == 0x20 || b == 0x09 || b == 0x0a || b == 0x0c || b == 0x0d
}

fn copy_bytes(bytes: &[u8], from: usize, to: usize) -> (r: Vec<u8>)
    requires
        from <= to <= bytes@.len(),
    ensures
        r@ == bytes@.subrange(from as int, to as int),
{
    let mut out: Vec<u8> = Vec::new();
    let mut i: usize = from;
    while i < to
        invariant
            from <= i <= to <= bytes@.len(),
            out@ =~= bytes@.subrange(from as int, i as int),
        decreases to - i,
    {
        out.push(bytes[i]);
        i = i + 1;
    }
    out
}

/// Bytes without the ASCII whitespace at either end.
pub fn trim_ascii(bytes: &[u8]) -> (r: Vec<u8>)
    ensures
        r@ == bytes_trimmed_end(bytes_trimmed_start(bytes@)),
{
    let mut from: usize = 0;
    assert(bytes@.skip(0) =~= bytes@);
    while from < bytes.len() && is_space(bytes[from])
        invariant
            from <= bytes@.len(),
            bytes_trimmed_start(bytes@.skip(from as int)) == bytes_trimmed_start(bytes@),
        decreases bytes@.len() - from,
    {
        assert(bytes@.skip(from as int).drop_first() =~= bytes@.skip(from + 1));
        from = from + 1;
    }
    let ghost start = bytes@.skip(from as int);
    assert(start == bytes_trimmed_start(bytes@)) by {
        if from < bytes@.len() {
            assert(start[0] == bytes@[from as int]);
        }
    }
    let mut to: usize = bytes.len();
    assert(bytes@.subrange(from as int, to as int) =~= start);
    while to > from && is_space(bytes[to - 1])
        invariant
            from <= to <= bytes@.len(),
            bytes_trimmed_end(bytes@.subrange(from as int, to as int)) == bytes_trimmed_end(start),
        decreases to - from,
    {
        assert(bytes@.subrange(from as int, to as int).drop_last() =~= bytes@.subrange(
            from as int,
            to - 1,
        ));
        to = to - 1;
    }
    proof {
        if to > from {
            assert(bytes@.subrange(from as int, to as int).last() == bytes@[to - 1]);
        }
    }
    copy_bytes(bytes, from, to)
}

/// What a master key file holds: 32 raw bytes, or the base64 form of some in either alphabet.
pub open spec fn master_key_bytes(bytes: Seq<u8>) -> Option<Seq<u8>> {
    if bytes.len() == 32 {
        Some(bytes)
    } else {
        let inner = bytes_trimmed_end(bytes_trimmed_start(bytes));
        match base64_bytes(inner) {
            Some(key) => Some(key),
            None => base64url_bytes(inner),
        }
    }
}

/// Bytes that are overwritten when they are dropped.
pub struct KeptBytes {
    bytes: Vec<u8>,
}

impl Drop for KeptBytes {
    fn drop(&mut self)
        opens_invariants none
        no_unwind
    {
        wipe(&mut self.bytes);
    }
}

/// The master key, with which secrets are kept.
pub struct SecretBox {
    key: KeptBytes,
}

impl SecretBox {
    #[verifier::type_invariant]
    spec fn key_fits(self) -> bool {
        self.key.bytes@.len() == 32
    }

    /// The master key.
    pub closed spec fn master_key(self) -> Seq<u8> {
        self.key.bytes@
    }

    /// The master key that a file holds.
    pub fn from_bytes(bytes: &[u8]) -> (r: Result<Self, SecretError>)
        ensures
            match master_key_bytes(bytes@) {
                Some(key) => if key.len() == 32 {
                    r matches Ok(b) && b.master_key() == key
                } else {
                    r matches Err(SecretError::InvalidMasterKey)
                },
                None => r matches Err(SecretError::InvalidMasterKey),
            },
    {
        let decoded = if bytes.len() == 32 {
            let raw = copy_bytes(bytes, 0, 32);
            assert(raw@ =~= bytes@);
            Some(raw)
        } else {
            let mut inner = trim_ascii(bytes);
            let decoded = match base64_decode(inner.as_slice()) {
                Some(key) => Some(key),
                None => base64url_decode(inner.as_slice()),
            };
            wipe(&mut inner);
            decoded
        };
        match decoded {
            Some(mut key) => if key.len() == 32 {
                Ok(SecretBox { key: KeptBytes { bytes: key } })
            } else {
                wipe(&mut key);
                Err(SecretError::InvalidMasterKey)
            },
            None => Err(SecretError::InvalidMasterKey),
        }
    }

    /// The envelope of a secret with a given nonce. Every secret that fits the cipher has one.
    pub fn encrypt_with_nonce(&self, context: &str, plaintext: &[u8], nonce: &[u8]) -> (r: Result<
        Vec<u8>,
        SecretError,
    >)
        requires
            nonce@.len() == NONCE_LENGTH,
        ensures
            if fits(plaintext@) {
                &&& sealed(
                    self.master_key(),
                    nonce@,
                    plaintext@,
                    encode_utf8(context@),
                ) matches Some(ciphertext)
                &&& ciphertext.len() == plaintext@.len() + TAG_LENGTH
                &&& r matches Ok(e)
                &&& e@ == envelope_of(nonce@, ciphertext)
            } else {
                r matches Err(SecretError::Authentication)
            },
    {
        proof {
            use_type_invariant(self);
        }
        if plaintext.len() as u64 > MAXIMUM_MESSAGE {
            return Err(SecretError::Authentication);
        }
        match seal(self.key.bytes.as_slice(), nonce, plaintext, context.as_bytes()) {
            Some(mut ciphertext) => {
                let ghost sealed_bytes = ciphertext@;
                let mut envelope: Vec<u8> = Vec::new();
                envelope.push(ENVELOPE_VERSION);
                let mut prefix = copy_bytes(nonce, 0, nonce.len());
                assert(prefix@ =~= nonce@);
                envelope.append(&mut prefix);
                envelope.append(&mut ciphertext);
                assert(envelope@ =~= envelope_of(nonce@, sealed_bytes));
                Ok(envelope)
            },
            None => Err(SecretError::Authentication),
        }
    }

    /// The envelope of a secret, bound to what it belongs to. Its nonce is random: whatever it
    /// is, the envelope is the one of that nonce. Every secret that fits the cipher has one.
    pub fn encrypt(&self, context: &str, plaintext: &[u8]) -> (r: Result<Vec<u8>, SecretError>)
        ensures
            if fits(plaintext@) {
                r matches Ok(e) && is_envelope(self.master_key(), context@, plaintext@, e@)
            } else {
                r matches Err(SecretError::Authentication)
            },
    {
        let nonce = random_bytes(NONCE_LENGTH);
        let r = self.encrypt_with_nonce(context, plaintext, nonce.as_slice());
        let ghost named = sealed(
            self.master_key(),
            nonce@,
            plaintext@,
            encode_utf8(context@),
        );
        r
    }

    /// The secret in an envelope that belongs to `context`. What was encrypted for that context
    /// is decrypted to what it was.
    pub fn decrypt(&self, context: &str, envelope: &[u8]) -> (r: Result<Vec<u8>, SecretError>)
        ensures
            envelope@.len() <= 1 + NONCE_LENGTH || envelope@[0] != ENVELOPE_VERSION ==> r matches
                Err(SecretError::InvalidEnvelope),
            envelope@.len() > 1 + NONCE_LENGTH && envelope@[0] == ENVELOPE_VERSION ==> {
                if envelope@.len() > 1 + NONCE_LENGTH + MAXIMUM_MESSAGE + TAG_LENGTH {
                    r matches Err(SecretError::Authentication)
                } else {
                    match opened(
                        self.master_key(),
                        envelope@.subrange(1, 1 + NONCE_LENGTH),
                        envelope@.skip(1 + NONCE_LENGTH),
                        encode_utf8(context@),
                    ) {
                        Some(plaintext) => r matches Ok(p) && p@ == plaintext,
                        None => r matches Err(SecretError::Authentication),
                    }
                }
            },
            forall|plaintext: Seq<u8>| #[trigger]
                is_envelope(self.master_key(), context@, plaintext, envelope@) ==> r is Ok
                    && r->Ok_0@ == plaintext,
    {
        proof {
            use_type_invariant(self);
            assert forall|nonce: Seq<u8>, ciphertext: Seq<u8>|
                nonce.len() == NONCE_LENGTH && ciphertext.len() > 0 && envelope@
                    == #[trigger] envelope_of(nonce, ciphertext) implies envelope@.len() > 1
                + NONCE_LENGTH && envelope@[0] == ENVELOPE_VERSION && envelope@.subrange(
                1,
                1 + NONCE_LENGTH,
            ) == nonce && envelope@.skip(1 + NONCE_LENGTH) == ciphertext by {
                assert(envelope@.subrange(1, 1 + NONCE_LENGTH) =~= nonce);
                assert(envelope@.skip(1 + NONCE_LENGTH) =~= ciphertext);
            }
        }
        if envelope.len() <= 1 + NONCE_LENGTH || envelope[0] != ENVELOPE_VERSION {
            return Err(SecretError::InvalidEnvelope);
        }
        if (envelope.len() - 1 - NONCE_LENGTH) as u64 > MAXIMUM_MESSAGE + TAG_LENGTH as u64 {
            return Err(SecretError::Authentication);
        }
        let nonce = copy_bytes(envelope, 1, 1 + NONCE_LENGTH);
        let ciphertext = copy_bytes(envelope, 1 + NONCE_LENGTH, envelope.len());
        assert(ciphertext@ =~= envelope@.skip(1 + NONCE_LENGTH));
        match unseal(
            self.key.bytes.as_slice(),
            nonce.as_slice(),
            ciphertext.as_slice(),
            context.as_bytes(),
        ) {
            Some(plaintext) => Ok(plaintext),
            None => Err(SecretError::Authentication),
        }
    }
}

/// The bytes of an envelope: the version, the nonce and the ciphertext.
pub open spec fn envelope_of(nonce: Seq<u8>, ciphertext: Seq<u8>) -> Seq<u8> {
    seq![ENVELOPE_VERSION] + nonce + ciphertext
}

/// Whether an envelope holds a plaintext that was sealed for a context, whatever nonce was drawn.
pub open spec fn is_envelope(
    key: Seq<u8>,
    context: Seq<char>,
    plaintext: Seq<u8>,
    envelope: Seq<u8>,
) -> bool {
    exists|nonce: Seq<u8>, ciphertext: Seq<u8>|
        {
            &&& nonce.len() == NONCE_LENGTH
            &&& fits(plaintext)
            &&& ciphertext.len() == plaintext.len() + TAG_LENGTH
            &&& #[trigger] sealed(key, nonce, plaintext, encode_utf8(context)) == Some(ciphertext)
            &&& envelope == #[trigger] envelope_of(nonce, ciphertext)
        }
}

/// Why a text cannot be sealed: it is too long for the cipher.
pub open spec fn seal_fault(text: Seq<char>) -> Option<ErrorView> {
    unless(fits(encode_utf8(text)), internal("secret envelope authentication failed"@))
}

/// The envelope of a text, bound to what it belongs to.
pub fn seal_text(secrets: &SecretBox, context: &str, text: &str) -> (r: Result<Vec<u8>, ApiError>)
    ensures
        match r {
            Ok(e) => seal_fault(text@) is None && is_envelope(
                secrets.master_key(),
                context@,
                encode_utf8(text@),
                e@,
            ),
            Err(e) => seal_fault(text@) == Some(e@),
        },
{
    match secrets.encrypt(context, text.as_bytes()) {
        Ok(envelope) => Ok(envelope),
        Err(error) => Err(internal_error(error.message().as_str())),
    }
}

/// A new master key, in base64.
pub fn generate_master_key() -> (r: String)
    ensures
        exists|key: Seq<u8>| key.len() == 32 && r@ == #[trigger] base64_text(key),
        r@.len() == 44,
{
    let mut key = random_bytes(32);
    let ghost drawn = key@;
    let text = base64_encode(key.as_slice());
    wipe(&mut key);
    assert(text@ == base64_text(drawn));
    text
}

} // verus!
