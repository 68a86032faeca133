//! Digests and encodings of bytes.

use base64::Engine;
use rand::RngCore;
use sha2::Digest;
use vstd::prelude::*;
use vstd::string::*;
use vstd::utf8::*;

use crate::text::{hex, hex_text, is_graphic};

verus! {

/// The standard base64 text of some bytes, with padding.
pub uninterp spec fn base64_text(bytes: Seq<u8>) -> Seq<char>;

/// The bytes that the UTF-8 form of a standard base64 text with padding stands for.
pub uninterp spec fn base64_bytes(encoded: Seq<u8>) -> Option<Seq<u8>>;

/// The bytes that the UTF-8 form of a URL-safe base64 text without padding stands for.
pub uninterp spec fn base64url_bytes(encoded: Seq<u8>) -> Option<Seq<u8>>;

/// The URL-safe base64 text of some bytes, without padding.
pub uninterp spec fn base64url_text(bytes: Seq<u8>) -> Seq<char>;

/// The SHA-256 digest of some bytes.
pub uninterp spec fn sha256(bytes: Seq<u8>) -> Seq<u8>;

/// The bytes in an optional vector.
pub open spec fn opt_bytes(v: Option<Vec<u8>>) -> Option<Seq<u8>> {
    match v {
        Some(bytes) => Some(bytes@),
        None => None,
    }
}

/// Whether a text begins and ends with a printable ASCII character other than a space.
pub open spec fn has_graphic_ends(s: Seq<char>) -> bool {
    s.len() > 0 && is_graphic(s[0]) && is_graphic(s.last())
}

/// Calls `base64`'s standard engine to encode: its result is [`base64_text`] of the bytes, four
/// characters for every three bytes begun, none of them whitespace, and it is decoded to the
/// bytes again.
#[verifier::external_body]
pub(crate) fn base64_encode(bytes: &[u8]) -> (r: String)
    requires
        (bytes@.len() + 2) / 3 * 4 <= usize::MAX / 2,
    ensures
        r@ == base64_text(bytes@),
        base64_bytes(encode_utf8(r@)) == Some(bytes@),
        r@.len() == (bytes@.len() + 2) / 3 * 4,
        forall|i: int| 0 <= i < r@.len() ==> is_graphic(#[trigger] r@[i]),
{
    base64::engine::general_purpose::STANDARD.encode(bytes)
}

/// Calls `base64`'s standard engine to decode: its result is [`base64_bytes`] of the encoded
/// bytes, and the base64 text of some bytes is decoded to those bytes.
#[verifier::external_body]
pub(crate) fn base64_decode(encoded: &[u8]) -> (r: Option<Vec<u8>>)
    ensures
        opt_bytes(r) == base64_bytes(encoded@),
        forall|bytes: Seq<u8>|
            encoded@ == encode_utf8(#[trigger] base64_text(bytes)) ==> opt_bytes(r) == Some(bytes),
{
    base64::engine::general_purpose::STANDARD.decode(encoded).ok()
}

/// Calls `base64`'s URL-safe engine without padding to decode: its result is
/// [`base64url_bytes`] of the encoded bytes.
#[verifier::external_body]
pub(crate) fn base64url_decode(encoded: &[u8]) -> (r: Option<Vec<u8>>)
    ensures
        opt_bytes(r) == base64url_bytes(encoded@),
{
    base64::engine::general_purpose::URL_SAFE_NO_PAD.decode(encoded).ok()
}

/// Calls `base64`'s URL-safe engine without padding to encode: its result is
/// [`base64url_text`] of the bytes, with no character for padding.
#[verifier::external_body]
pub(crate) fn base64url_encode(bytes: &[u8]) -> (r: String)
    requires
        bytes@.len() <= 0x1000_0000,
    ensures
        r@ == base64url_text(bytes@),
        r@.len() == (bytes@.len() * 4 + 2) / 3,
{
    base64::engine::general_purpose::URL_SAFE_NO_PAD.encode(bytes)
}

/// Calls `rand`'s operating-system generator to fill a buffer: that many bytes. Nothing is said
/// of their values. It panics where the operating system has no randomness to give.
#[verifier::external_body]
pub(crate) fn random_bytes(count: usize) -> (r: Vec<u8>)
    requires
        count <= 0x1000_0000,
    ensures
        r@.len() == count,
{
    let mut bytes = vec![0u8; count];
    rand::rngs::OsRng.fill_bytes(&mut bytes);
    bytes
}

/// Calls `zeroize` on a vector: its bytes are overwritten and it is left empty.
#[verifier::external_body]
pub(crate) fn wipe(bytes: &mut Vec<u8>)
    ensures
        final(bytes)@.len() == 0,
    opens_invariants none
    no_unwind
{
    zeroize::Zeroize::zeroize(bytes)
}

/// Calls `zeroize` on a string: its bytes are overwritten and it is left empty.
#[verifier::external_body]
pub(crate) fn wipe_text(text: &mut String)
    ensures
        final(text)@.len() == 0,
{
    zeroize::Zeroize::zeroize(text)
}

/// Calls `sha2::Sha256::digest`: its result is [`sha256`] of the bytes, 32 bytes long.
#[verifier::external_body]
pub(crate) fn sha256_digest(bytes: &[u8]) -> (r: Vec<u8>)
    ensures
        r@ == sha256(bytes@),
        r@.len() == 32,
{
    sha2::Sha256::digest(bytes).to_vec()
}

/// The SHA-256 digest of a text's bytes, in hexadecimal.
pub open spec fn text_fingerprint(s: Seq<char>) -> Seq<char> {
    hex(sha256(encode_utf8(s)))
}

/// The SHA-256 digest of a text's bytes, in hexadecimal.
pub fn fingerprint_text(s: &str) -> (r: String)
    ensures
        r@ == text_fingerprint(s@),
        r@.len() == 64,
{
    let digest = sha256_digest(s.as_bytes());
    hex_text(digest.as_slice())
}

} // verus!
