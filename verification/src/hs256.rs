//! The signature primitive behind the tokens: HMAC-SHA256 through the
//! `jsonwebtoken` crate, taken on trust. `hs256_sig_of` names the base64url
//! text of the tag; it is a function of the message and the secret alone.

use vstd::prelude::*;

verus! {

/// The base64url text of the HMAC-SHA256 tag of `message` under `secret`:
/// what `jsonwebtoken::crypto::sign` returns for the HS256 algorithm.
pub uninterp spec fn hs256_sig_of(message: Seq<u8>, secret: Seq<u8>) -> Seq<u8>;

/// Relies on `jsonwebtoken::crypto::sign` with `Algorithm::HS256` and a key
/// from `EncodingKey::from_secret`: it returns the base64url-encoded
/// HMAC-SHA256 tag of the message, a deterministic function of message and
/// secret, and its HMAC path has no failure case (the signer accepts any
/// secret length and HMAC signing itself is infallible).
#[verifier::external_body]
pub(crate) fn hs256_sign(message: &Vec<u8>, secret: &Vec<u8>) -> (sig: Vec<u8>)
    ensures
        sig@ == hs256_sig_of(message@, secret@),
{
    jsonwebtoken::crypto::sign(
        message.as_slice(),
        &jsonwebtoken::EncodingKey::from_secret(secret.as_slice()),
        jsonwebtoken::Algorithm::HS256,
    ).expect("HMAC signing has no failure path").into_bytes()
}

/// Relies on `jsonwebtoken::crypto::verify` with `Algorithm::HS256`: it
/// base64url-decodes `signature` (strictly: no padding, no stray trailing
/// bits, so decoding succeeds exactly on the canonical encoding of the tag
/// bytes) and compares with the recomputed tag in constant time. It
/// therefore returns `Ok(true)` exactly when `signature` is the base64url
/// text of the tag; a decoding failure, a non-UTF-8 signature, or an
/// `Ok(false)` all mean the signature is some other byte string.
#[verifier::external_body]
pub(crate) fn hs256_check(signature: &Vec<u8>, message: &Vec<u8>, secret: &Vec<u8>) -> (r: bool)
    ensures
        r == (signature@ == hs256_sig_of(message@, secret@)),
{
    match std::str::from_utf8(signature.as_slice()) {
        Ok(s) => jsonwebtoken::crypto::verify(
            s,
            message.as_slice(),
            &jsonwebtoken::DecodingKey::from_secret(secret.as_slice()),
            jsonwebtoken::Algorithm::HS256,
        ).unwrap_or(false),
        Err(_) => false,
    }
}

} // verus!
