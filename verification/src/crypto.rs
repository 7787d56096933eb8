//! The outside primitives the tape format rests on: BLAKE3 digests,
//! lowercase hex text and Ed25519 signatures.  Every item here that is marked
//! `external_body` is trusted: its contract is what the crate's source and
//! documentation say, and nothing here is proved.

use ed25519_dalek::{Signer, Verifier};
use vstd::prelude::*;

verus! {

// ---------------------------------------------------------------------------
// BLAKE3
// ---------------------------------------------------------------------------

/// The BLAKE3 digest of `data` (32 bytes).
pub uninterp spec fn blake3_digest(data: Seq<u8>) -> Seq<u8>;

/// Calls `blake3::hash` on `data` and returns the 32 bytes of the digest.
/// The contract claims that the result depends on `data` alone (it is
/// `blake3_digest(data)`) and that it is 32 bytes long, as `blake3::OUT_LEN`
/// and `Hash::as_bytes` document.
#[verifier::external_body]
pub(crate) fn blake3_hash(data: &[u8]) -> (digest: Vec<u8>)
    ensures
        digest@ == blake3_digest(data@),
        digest@.len() == 32,
{
    blake3::hash(data).as_bytes().to_vec()
}

// ---------------------------------------------------------------------------
// Hex text
// ---------------------------------------------------------------------------

/// The lowercase hex digit for `n < 16`.
pub open spec fn hex_digit(n: int) -> char {
    if n < 10 {
        (48 + n) as char
    } else {
        (87 + n) as char
    }
}

/// Lowercase hex text of `bytes`: two digits per byte, high nibble first.
pub open spec fn hex_text(bytes: Seq<u8>) -> Seq<char> {
    Seq::new(
        2 * bytes.len(),
        |i: int|
            if i % 2 == 0 {
                hex_digit(bytes[i / 2] as int / 16)
            } else {
                hex_digit(bytes[i / 2] as int % 16)
            },
    )
}

/// Every character of `s` is a lowercase hex digit.
pub open spec fn is_lower_hex(s: Seq<char>) -> bool {
    forall|i: int| 0 <= i < s.len() ==> ('0' <= #[trigger] s[i] && s[i] <= '9') || ('a' <= s[i] && s[i] <= 'f')
}

/// Hex text has two lowercase digits per byte.
pub proof fn lemma_hex_text_shape(bytes: Seq<u8>)
    ensures
        hex_text(bytes).len() == 2 * bytes.len(),
        is_lower_hex(hex_text(bytes)),
{
    let t = hex_text(bytes);
    assert forall|i: int| 0 <= i < t.len() implies ('0' <= #[trigger] t[i] && t[i] <= '9') || ('a' <= t[i]
        && t[i] <= 'f') by {
        let n = if i % 2 == 0 { bytes[i / 2] as int / 16 } else { bytes[i / 2] as int % 16 };
        assert(0 <= n < 16);
        assert(t[i] == hex_digit(n));
    }
}

/// The value of a hex digit of either case, or -1 for any other character.
pub open spec fn hex_value(c: char) -> int {
    if '0' <= c && c <= '9' {
        c as int - 48
    } else if 'a' <= c && c <= 'f' {
        c as int - 87
    } else if 'A' <= c && c <= 'F' {
        c as int - 55
    } else {
        -1
    }
}

/// `s` is an even number of hex digits.
pub open spec fn is_hex(s: Seq<char>) -> bool {
    s.len() % 2 == 0 && forall|i: int| 0 <= i < s.len() ==> 0 <= #[trigger] hex_value(s[i])
}

/// The bytes that the hex digits `s` stand for.
pub open spec fn hex_bytes(s: Seq<char>) -> Seq<u8> {
    Seq::new(s.len() / 2, |i: int| (16 * hex_value(s[2 * i]) + hex_value(s[2 * i + 1])) as u8)
}

/// Calls `hex::encode`, which the hex crate documents as lowercase hex with
/// two digits per input byte; the contract states exactly that text.
#[verifier::external_body]
pub(crate) fn hex_encode(data: &[u8]) -> (text: String)
    ensures
        text@ == hex_text(data@),
{
    hex::encode(data)
}

/// Calls `hex::decode`.  Its source accepts an even number of hex digits of
/// either case and fails on anything else; the contract states when it
/// succeeds and which bytes it returns.
#[verifier::external_body]
pub(crate) fn hex_decode(text: &str) -> (bytes: Option<Vec<u8>>)
    ensures
        bytes is Some <==> is_hex(text@),
        bytes matches Some(b) ==> b@ == hex_bytes(text@),
{
    hex::decode(text).ok()
}

// ---------------------------------------------------------------------------
// Ed25519
// ---------------------------------------------------------------------------

/// The Ed25519 public key (32 bytes) of the secret key `secret`.
pub uninterp spec fn ed25519_public_key(secret: Seq<u8>) -> Seq<u8>;

/// The Ed25519 signature (64 bytes) of `message` under the secret key `secret`.
pub uninterp spec fn ed25519_signature(secret: Seq<u8>, message: Seq<u8>) -> Seq<u8>;

/// Whether `signature` is a valid Ed25519 signature of `message` under the
/// public key `public`.
pub uninterp spec fn ed25519_accepts(public: Seq<u8>, message: Seq<u8>, signature: Seq<u8>) -> bool;

/// Calls `SigningKey::from_bytes(secret).verifying_key().to_bytes()`.  The
/// contract claims only that the result is a function of `secret`.
#[verifier::external_body]
pub(crate) fn ed25519_public_key_of(secret: &[u8; 32]) -> (public: [u8; 32])
    ensures
        public@ == ed25519_public_key(secret@),
{
    ed25519_dalek::SigningKey::from_bytes(secret).verifying_key().to_bytes()
}

/// Calls `Signer::sign` of `ed25519_dalek::SigningKey` (built from `secret`)
/// on `message` and returns the signature's bytes.  Ed25519 signing is
/// deterministic, so the contract claims the result is a function of the
/// secret key and the message.
#[verifier::external_body]
pub(crate) fn ed25519_sign(secret: &[u8; 32], message: &[u8]) -> (signature: [u8; 64])
    ensures
        signature@ == ed25519_signature(secret@, message@),
{
    ed25519_dalek::SigningKey::from_bytes(secret).sign(message).to_bytes()
}

/// Calls `VerifyingKey::from_bytes(public)` and, when that yields a key,
/// `Verifier::verify` on `message` and the signature `signature`; returns
/// whether both succeeded.  The contract claims that the answer depends on
/// the three arguments alone, and that a signature made with a secret key
/// is accepted under that key's own public key, which is what Ed25519
/// guarantees of an honest signer.
#[verifier::external_body]
pub(crate) fn ed25519_verify(public: &[u8; 32], message: &[u8], signature: &[u8; 64]) -> (ok: bool)
    ensures
        ok == ed25519_accepts(public@, message@, signature@),
        forall|secret: Seq<u8>|
            secret.len() == 32 && public@ == ed25519_public_key(secret) && signature@
                == #[trigger] ed25519_signature(secret, message@) ==> ok,
{
    match ed25519_dalek::VerifyingKey::from_bytes(public) {
        Ok(key) => key.verify(message, &ed25519_dalek::Signature::from_bytes(signature)).is_ok(),
        Err(_) => false,
    }
}

/// Calls `SigningKey::generate` with the operating system's random number
/// generator and returns the new secret key's bytes.  Nothing is claimed of
/// them: they are random.
#[verifier::external_body]
pub(crate) fn ed25519_generate_secret() -> (secret: [u8; 32]) {
    ed25519_dalek::SigningKey::generate(&mut rand::rngs::OsRng).to_bytes()
}

} // verus!
