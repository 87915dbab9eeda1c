//! Salted, memory-hard hashing of secrets and its matching verification.
//!
//! The hashing itself is done by the `argon2` crate; this module states what
//! the library relies on: a hash produced for a secret verifies against that
//! secret, and verification is a pure function of the secret and the hash
//! string.

use vstd::prelude::*;

use argon2::{Argon2, PasswordHasher, PasswordVerifier};

verus! {

/// What argon2's verification returns for a secret and a self-describing
/// hash string. Verification re-derives the digest from the parameters and
/// salt carried by the hash string, so the outcome depends on these two
/// arguments alone.
pub uninterp spec fn argon2_verifies(secret: Seq<u8>, hash: Seq<char>) -> bool;

#[verifier::external_type_specification]
#[verifier::external_body]
pub struct ExPasswordHashError(argon2::password_hash::Error);

/// Relies on `Argon2::hash_password` (with a fresh random salt) and on the
/// documented round trip of the `argon2` crate: a produced hash string
/// verifies against the hashed secret.
#[verifier::external_body]
pub(crate) fn hash_secret(secret: &[u8]) -> (r: Result<
    String,
    argon2::password_hash::Error,
>)
    ensures
        r matches Ok(hash) ==> argon2_verifies(secret@, hash@),
{
    match Argon2::default().hash_password(secret) {
        Ok(hash) => Ok(hash.to_string()),
        Err(e) => Err(e),
    }
}

/// Relies on `Argon2::verify_password` for `&str` hashes: a malformed hash
/// string or a mismatched secret both yield a uniform failure, and the
/// outcome is a function of the secret and the hash string alone.
#[verifier::external_body]
pub(crate) fn verify_secret(secret: &[u8], hash: &str) -> (ok: bool)
    ensures
        ok == argon2_verifies(secret@, hash@),
{
    Argon2::default().verify_password(secret, hash).is_ok()
}

/// Relies on `getrandom::fill`: fills the buffer from the operating
/// system's secure random source. Nothing is promised of the drawn bytes
/// beyond their number.
#[verifier::external_body]
pub(crate) fn random_secret() -> (r: Option<Vec<u8>>)
    ensures
        r matches Some(bytes) ==> bytes@.len() == 32,
{
    let mut buf = vec![0u8; 32];
    match getrandom::fill(&mut buf) {
        Ok(()) => Some(buf),
        Err(_) => None,
    }
}

} // verus!
