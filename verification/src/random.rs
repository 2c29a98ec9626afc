//! Fresh random identifiers and secrets.
use vstd::prelude::*;
use rand::distr::{Alphanumeric, SampleString};

verus! {

/// An ASCII letter or digit, the alphabet session secrets are drawn from.
pub open spec fn is_alnum_char(c: char) -> bool {
    ('0' <= c && c <= '9') || ('A' <= c && c <= 'Z') || ('a' <= c && c <= 'z')
}

/// Relies on `uuid::Uuid::new_v4`: a random version-4 UUID in the canonical
/// hyphenated form, 36 characters long.
#[verifier::external_body]
pub fn new_uuid_string() -> (r: String)
    ensures
        r@.len() == 36,
{
    uuid::Uuid::new_v4().hyphenated().to_string()
}

/// Relies on rand's `Alphanumeric` distribution: a fresh random string of
/// the requested length, every character an ASCII letter or digit.
#[verifier::external_body]
pub fn random_alphanumeric(len: usize) -> (r: String)
    ensures
        r@.len() == len as int,
        forall|k: int| 0 <= k < r@.len() ==> is_alnum_char(#[trigger] r@[k]),
{
    Alphanumeric.sample_string(&mut rand::rng(), len)
}

} // verus!
