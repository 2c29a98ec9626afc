//! One-way salted hashing of passwords and session secrets.
use vstd::prelude::*;
use crate::errors::ServerError;

verus! {

/// What `pwhash::bcrypt::verify` decides for a password held against a
/// digest; a pure function of the two strings.
pub uninterp spec fn bcrypt_matches(password: Seq<char>, digest: Seq<char>) -> bool;

/// Relies on `pwhash::bcrypt::hash`: a freshly salted digest that verifies
/// against the hashed password; it fails only when no randomness is
/// available.
#[verifier::external_body]
pub(crate) fn bcrypt_hash(password: &str) -> (r: Result<String, ServerError>)
    ensures
        r is Ok ==> bcrypt_matches(password@, r.unwrap()@),
{
    match pwhash::bcrypt::hash(password) {
        Ok(s) => Ok(s),
        Err(_) => Err(ServerError::new()),
    }
}

/// Relies on `pwhash::bcrypt::verify`: deterministic in the password and the
/// digest, and never fails.
#[verifier::external_body]
pub(crate) fn bcrypt_verify(password: &str, digest: &str) -> (r: bool)
    ensures
        r == bcrypt_matches(password@, digest@),
{
    pwhash::bcrypt::verify(password, digest)
}

/// The credential hasher handed to the user and session services.
pub struct HashServiceImpl {}

impl HashServiceImpl {
    pub fn new() -> HashServiceImpl {
        HashServiceImpl {}
    }

    /// Hashes a password or session secret. A failure here is internal, not
    /// a validation outcome.
    pub fn hash_pw(&self, password: &str) -> (r: Result<String, ServerError>)
        ensures
            r is Ok ==> bcrypt_matches(password@, r.unwrap()@),
    {
        bcrypt_hash(password)
    }

    /// Holds a candidate password or secret against a stored digest.
    pub fn verify_pw(&self, password: &str, digest: &str) -> (r: bool)
        ensures
            r == bcrypt_matches(password@, digest@),
    {
        bcrypt_verify(password, digest)
    }
}

} // verus!
