//! Credential hashing and verification, through the external
//! password-hashing collaborator.
//!
//! The relay treats the hashing primitive as opaque: all it needs is
//! "verify(password, stored hash) holds or does not", written here as the
//! uninterpreted relation [`verifies`].
use vstd::prelude::*;

use argon2::{Argon2, PasswordHasher, PasswordVerifier};

use crate::error::OpenReverbError;

verus! {

/// A username with the PHC-format hash of its secret.
#[derive(Debug)]
pub struct Credentials {
    pub username: String,
    pub password_hash: String,
}

/// Whether `password` verifies against the PHC hash string `hash`. This is
/// what argon2's password verification computes; it depends on the two
/// strings alone.
pub uninterp spec fn verifies(password: Seq<char>, hash: Seq<char>) -> bool;

/// Whether `hash` is a well-formed PHC string that the hash parser accepts;
/// it depends on the string alone.
pub uninterp spec fn phc_parses(hash: Seq<char>) -> bool;

/// Relies on argon2's `PasswordHasher::hash_password`: it hashes the
/// password under a fresh random salt and returns the PHC string, which
/// parses and verifies against the same password.
#[verifier::external_body]
fn argon2_hash(password: &str) -> (r: Option<String>)
    ensures
        r matches Some(h) ==> phc_parses(h@) && verifies(password@, h@),
{
    match Argon2::default().hash_password(password.as_bytes()) {
        Ok(h) => Some(h.to_string()),
        Err(_) => None,
    }
}

/// Relies on `phc::PasswordHash::new`: whether a hash string parses depends
/// on the string alone.
#[verifier::external_body]
fn argon2_parses(hash: &str) -> (r: bool)
    ensures
        r == phc_parses(hash@),
{
    argon2::PasswordHash::new(hash).is_ok()
}

/// Relies on argon2's `PasswordVerifier::verify_password`: it recomputes
/// the hash under the parameters and salt carried by the PHC string and
/// compares, so the outcome depends on the two strings alone.
#[verifier::external_body]
fn argon2_verify(password: &str, hash: &str) -> (r: bool)
    requires
        phc_parses(hash@),
    ensures
        r == verifies(password@, hash@),
{
    match argon2::PasswordHash::new(hash) {
        Ok(parsed) => Argon2::default().verify_password(password.as_bytes(), &parsed).is_ok(),
        Err(_) => false,
    }
}

/// Hashes a password for storage. On success the returned PHC string
/// verifies against the same password.
pub fn hash_password(password: &str) -> (r: Result<String, OpenReverbError>)
    ensures
        r matches Ok(h) ==> phc_parses(h@) && verifies(password@, h@),
{
    match argon2_hash(password) {
        Some(h) => Ok(h),
        None => Err(OpenReverbError::AuthError("password hashing failed".to_owned())),
    }
}

/// Verifies a password against a stored PHC hash string. A hash that does
/// not parse is an error; otherwise the answer is exactly whether the
/// password verifies.
pub fn verify_password(password: &str, password_hash: &str) -> (r: Result<
    bool,
    OpenReverbError,
>)
    ensures
        phc_parses(password_hash@) ==> (r matches Ok(b) && b == verifies(
            password@,
            password_hash@,
        )),
        !phc_parses(password_hash@) ==> r is Err,
{
    if argon2_parses(password_hash) {
        Ok(argon2_verify(password, password_hash))
    } else {
        Err(OpenReverbError::AuthError("malformed password hash".to_owned()))
    }
}

} // verus!
