//! Calls into code that is not verified here. Each item states what the
//! called function is taken to do; nothing in this file is proved.

use vstd::prelude::*;
use crate::text::decimal;
use base64::Engine;
use ed25519_dalek::{Signer, Verifier};
use std::time::Duration;

verus! {

/// What `serde_json::to_string` gives for a string: the text between double
/// quotes, with the characters that JSON cannot hold as they are escaped.
pub uninterp spec fn json_string_text(s: Seq<char>) -> Seq<char>;

/// What the standard base64 alphabet with padding decodes `text` to, or
/// `None` where `text` is not valid in it.
pub uninterp spec fn base64_decoding(text: Seq<char>) -> Option<Seq<u8>>;

/// Whether `public_key` and `signature` have the form of an Ed25519 key and
/// signature, and the key accepts the signature for `message`.
pub uninterp spec fn ed25519_verifies(public_key: Seq<u8>, message: Seq<u8>, signature: Seq<u8>) -> bool;

/// The Ed25519 signature that the secret key `secret` makes for `message`;
/// `None` where `secret` is not a key, which is 32 bytes.
pub uninterp spec fn ed25519_signature(secret: Seq<u8>, message: Seq<u8>) -> Option<Seq<u8>>;

/// The Ed25519 public key of the secret key `secret`; `None` where `secret`
/// is not a key, which is 32 bytes.
pub uninterp spec fn ed25519_public_key(secret: Seq<u8>) -> Option<Seq<u8>>;

/// `VerifyingKey::verify` of `ed25519_dalek`, on a key made by
/// `VerifyingKey::try_from` and a signature made by `Signature::from_slice`.
/// The claim is that the outcome depends on the three byte strings alone.
#[verifier::external_body]
pub(crate) fn ed25519_verify(public_key: &Vec<u8>, message: &Vec<u8>, signature: &Vec<u8>) -> (r: bool)
    ensures
        r == ed25519_verifies(public_key@, message@, signature@),
{
    let key = match ed25519_dalek::VerifyingKey::try_from(public_key.as_slice()) {
        Ok(key) => key,
        Err(_) => return false,
    };
    let signature = match ed25519_dalek::Signature::from_slice(signature.as_slice()) {
        Ok(signature) => signature,
        Err(_) => return false,
    };
    key.verify(message.as_slice(), &signature).is_ok()
}

/// `Signer::sign` of `ed25519_dalek`, on a key made by
/// `SigningKey::from_bytes`. Signing is deterministic: the claim is that the
/// signature depends on the key and the message alone, that there is one
/// exactly where the key has 32 bytes, and that it has 64 bytes.
#[verifier::external_body]
pub(crate) fn ed25519_sign(secret: &Vec<u8>, message: &Vec<u8>) -> (r: Option<Vec<u8>>)
    ensures
        r is Some <==> secret@.len() == 32,
        r is Some ==> r.unwrap()@.len() == 64,
        match r {
            Some(signature) => ed25519_signature(secret@, message@) == Some(signature@),
            None => ed25519_signature(secret@, message@).is_none(),
        },
{
    let bytes: [u8; 32] = match secret.as_slice().try_into() {
        Ok(bytes) => bytes,
        Err(_) => return None,
    };
    Some(ed25519_dalek::SigningKey::from_bytes(&bytes).sign(message.as_slice()).to_vec())
}

/// `SigningKey::verifying_key` of `ed25519_dalek`, on a key made by
/// `SigningKey::from_bytes`. The claim is that the public key depends on the
/// secret key alone, that there is one exactly where the secret key has 32
/// bytes, and that it has 32 bytes.
#[verifier::external_body]
pub(crate) fn ed25519_public(secret: &Vec<u8>) -> (r: Option<Vec<u8>>)
    ensures
        r is Some <==> secret@.len() == 32,
        r is Some ==> r.unwrap()@.len() == 32,
        match r {
            Some(key) => ed25519_public_key(secret@) == Some(key@),
            None => ed25519_public_key(secret@).is_none(),
        },
{
    let bytes: [u8; 32] = match secret.as_slice().try_into() {
        Ok(bytes) => bytes,
        Err(_) => return None,
    };
    Some(ed25519_dalek::SigningKey::from_bytes(&bytes).verifying_key().to_bytes().to_vec())
}

/// What `str::to_uppercase` gives for `text`: its uppercase form by the
/// rules of Unicode.
pub uninterp spec fn uppercase_of(text: Seq<char>) -> Seq<char>;

/// `str::to_uppercase`. The claim is that the result depends on the
/// characters of `text` alone.
#[verifier::external_body]
pub(crate) fn to_uppercase(text: &str) -> (r: String)
    ensures
        r@ == uppercase_of(text@),
{
    text.to_uppercase()
}

/// `SystemTime::elapsed` on the Unix epoch: the time since the epoch by the
/// system clock, or `None` where the clock stands before it. Nothing is
/// claimed about the value.
#[verifier::external_body]
pub(crate) fn since_unix_epoch() -> Option<Duration> {
    match std::time::UNIX_EPOCH.elapsed() {
        Ok(d) => Some(d),
        Err(_) => None,
    }
}

/// `Duration::as_secs`: the whole seconds of `d`. Nothing is claimed about
/// the value.
#[verifier::external_body]
pub(crate) fn whole_seconds(d: &Duration) -> u64 {
    d.as_secs()
}

/// `uuid::Uuid::new_v4`, in the hyphenated form that its `Display` writes.
/// The identifier is random: the only claim is its length, the 36
/// characters of the hyphenated form.
#[verifier::external_body]
pub(crate) fn random_uuid() -> (r: String)
    ensures
        r@.len() == 36,
{
    uuid::Uuid::new_v4().to_string()
}

/// `rand::random::<u64>`. Nothing is claimed about the value.
#[verifier::external_body]
pub(crate) fn random_u64() -> u64 {
    rand::random::<u64>()
}

/// `serde_json::to_string` on an unsigned integer. The serializer writes the
/// integer through `itoa`, as a plain decimal numeral, into a byte vector,
/// which cannot fail: the claim is that the call succeeds with that numeral.
#[verifier::external_body]
pub(crate) fn json_number(n: u64) -> (r: Option<String>)
    ensures
        r is Some,
        r.unwrap()@ == decimal(n as nat),
{
    serde_json::to_string(&n).ok()
}

/// `serde_json::to_string` on a string. The serializer writes the quoted and
/// escaped text into a byte vector, which cannot fail: the claim is that the
/// call succeeds, and that the result depends on the characters alone.
#[verifier::external_body]
pub(crate) fn json_string(s: &str) -> (r: Option<String>)
    ensures
        r is Some,
        r.unwrap()@ == json_string_text(s@),
{
    serde_json::to_string(s).ok()
}

/// `Engine::decode` of `base64::engine::general_purpose::STANDARD`. The claim
/// is that the outcome depends on the characters of `text` alone.
#[verifier::external_body]
pub(crate) fn base64_decode(text: &str) -> (r: Option<Vec<u8>>)
    ensures
        match r {
            Some(bytes) => base64_decoding(text@) == Some(bytes@),
            None => base64_decoding(text@).is_none(),
        },
{
    base64::engine::general_purpose::STANDARD.decode(text).ok()
}

} // verus!
