//! Fresh random values: generated passwords, salts and invite identifiers.
use vstd::prelude::*;
use rand::{Rng, SeedableRng};

verus! {

/// Length of a generated password.
pub const GENERATED_PASSWORD_LEN: usize = 20;

/// Length of a password salt.
pub const SALT_LEN: usize = 16;

/// Whether `c` is an ASCII letter or digit.
pub open spec fn is_ascii_alphanumeric(c: char) -> bool {
    ('a' <= c && c <= 'z') || ('A' <= c && c <= 'Z') || ('0' <= c && c <= '9')
}

/// Relies on rand's `Alphanumeric` distribution drawn from `StdRng::from_entropy`:
/// `len` characters, each an ASCII letter or digit. Panics only if the operating
/// system has no entropy to give.
#[verifier::external_body]
fn random_alphanumeric(len: usize) -> (r: String)
    ensures
        r@.len() == len,
        forall|i: int| 0 <= i < r@.len() ==> is_ascii_alphanumeric(#[trigger] r@[i]),
{
    rand::rngs::StdRng::from_entropy()
        .sample_iter(&rand::distributions::Alphanumeric)
        .take(len)
        .map(char::from)
        .collect()
}

/// Relies on uuid::Uuid::new_v4 and its `Display`: a random UUID in its
/// hyphenated form, 36 characters.
#[verifier::external_body]
fn uuid_v4_string() -> (r: String)
    ensures
        r@.len() == 36,
{
    uuid::Uuid::new_v4().to_string()
}

/// A random password for an account that never logs in with one.
pub fn new_random_password() -> (r: String)
    ensures
        r@.len() == GENERATED_PASSWORD_LEN,
        forall|i: int| 0 <= i < r@.len() ==> is_ascii_alphanumeric(#[trigger] r@[i]),
{
    random_alphanumeric(GENERATED_PASSWORD_LEN)
}

/// A random salt for a new credential.
pub fn new_salt() -> (r: String)
    ensures
        r@.len() == SALT_LEN,
        forall|i: int| 0 <= i < r@.len() ==> is_ascii_alphanumeric(#[trigger] r@[i]),
{
    random_alphanumeric(SALT_LEN)
}

/// A random identifier for a new invite.
pub fn new_invite_id() -> (r: String)
    ensures
        r@.len() == 36,
{
    uuid_v4_string()
}

} // verus!
