//! Salted password hashes.

use vstd::prelude::*;
use rand::Rng;

verus! {

/// A password hash and the salt it was made with.
pub struct SecureHash {
    pub hash: String,
    pub salt: String,
}

/// An ASCII letter or digit.
pub open spec fn is_alphanumeric(c: char) -> bool {
    ('A' <= c <= 'Z') || ('a' <= c <= 'z') || ('0' <= c <= '9')
}

/// Draws `len` characters from `rand::distributions::Alphanumeric` with the thread's
/// generator. The contract claims what holds of every draw: the length, and that each
/// character is one of the 62 ASCII letters and digits that the distribution picks from.
#[verifier::external_body]
pub(crate) fn random_alphanumeric(len: usize) -> (r: String)
    ensures
        r@.len() == len,
        forall|i: int| 0 <= i < len ==> is_alphanumeric(#[trigger] r@[i]),
{
    rand::thread_rng().sample_iter(rand::distributions::Alphanumeric).take(len).collect()
}

/// A fresh salt for a password hash: twelve random ASCII letters and digits.
pub fn new_salt() -> (r: String)
    ensures
        r@.len() == 12,
        forall|i: int| 0 <= i < 12 ==> is_alphanumeric(#[trigger] r@[i]),
{
    random_alphanumeric(12)
}

} // verus!
