//! The credential verifier: a slow, salted, one-way hash at registration
//! and a recompute-and-compare check at login, through the `bcrypt` crate,
//! taken on trust. Two names pin the check down: `bcrypt_matches` is its
//! verdict, a function of the password and the stored hash; `bcrypt_answers`
//! is whether it reaches a verdict at all, a function of the stored hash
//! alone — so a mismatch is provably an answer (`false`), never an error.

use vstd::prelude::*;

use crate::types::AuthError;

verus! {

/// Whether `password` verifies against the stored `hash`: what
/// `bcrypt::verify` answers. The hash string embeds its own salt and cost,
/// so the verdict depends on these two values alone.
pub uninterp spec fn bcrypt_matches(password: Seq<char>, hash: Seq<char>) -> bool;

/// Whether `bcrypt::verify` answers for this stored hash at all — that is,
/// whether the hash is a well-formed bcrypt string (the 60-byte form with
/// an in-range cost). Verification first parses the hash and then always
/// reaches a verdict, so this depends on the hash alone, not the password.
pub uninterp spec fn bcrypt_answers(hash: Seq<char>) -> bool;

/// Relies on `bcrypt::hash` with the crate's default cost: it salts from
/// the operating system's randomness and fails only when that randomness
/// does (or on an out-of-range cost, which the default is not). Whatever
/// hash comes back is a canonical 60-byte bcrypt string, so `bcrypt::verify`
/// answers for it, and answers true for the same password, since it
/// re-derives the digest from the salt and cost embedded in the hash.
#[verifier::external_body]
fn bcrypt_hash(password: &str) -> (r: Option<String>)
    ensures
        r matches Some(h) ==> bcrypt_matches(password@, h@) && bcrypt_answers(h@),
{
    bcrypt::hash(password, bcrypt::DEFAULT_COST).ok()
}

/// Relies on `bcrypt::verify`: deterministic in the password and the hash
/// string, constant-time on the digest comparison. It errs exactly when the
/// stored hash does not parse as a bcrypt string (or embeds an out-of-range
/// cost) — a condition of the hash alone — and otherwise always reaches a
/// verdict, for any password.
#[verifier::external_body]
fn bcrypt_verify(password: &str, hash: &str) -> (r: Option<bool>)
    ensures
        r is Some <==> bcrypt_answers(hash@),
        r matches Some(b) ==> b == bcrypt_matches(password@, hash@),
{
    bcrypt::verify(password, hash).ok()
}

/// Hashes a plaintext password for storage. The output embeds salt and
/// cost, so later verification needs no side channel and is owed an answer;
/// an internal randomness failure is the one error.
pub fn hash_password(password: &str) -> (r: Result<String, AuthError>)
    ensures
        r matches Ok(h) ==> bcrypt_matches(password@, h@) && bcrypt_answers(h@),
        r matches Err(e) ==> e == AuthError::InternalError,
{
    match bcrypt_hash(password) {
        Some(h) => Ok(h),
        None => Err(AuthError::InternalError),
    }
}

/// Compares a plaintext password against a stored hash. On a well-formed
/// stored hash — every hash this library produces is one — it always
/// answers, and a mismatch is the answer `false`, not an error; a malformed
/// stored hash is an internal error, distinguished from "wrong password".
pub fn verify_password(password: &str, hash: &str) -> (r: Result<bool, AuthError>)
    ensures
        r is Ok <==> bcrypt_answers(hash@),
        r matches Ok(b) ==> b == bcrypt_matches(password@, hash@),
        r matches Err(e) ==> e == AuthError::InternalError,
{
    match bcrypt_verify(password, hash) {
        Some(b) => Ok(b),
        None => Err(AuthError::InternalError),
    }
}

} // verus!
