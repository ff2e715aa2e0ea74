//! Password credentials: salted PBKDF2-HMAC-SHA256 hashes, and checking a
//! candidate password against one.
use vstd::prelude::*;
use vstd::utf8::encode_utf8;

verus! {

/// Iteration count of the key derivation.
pub const PBKDF2_ROUNDS: u32 = 100000;

/// A stored password: the salt it was hashed with and the derived key.
pub struct Credential {
    pub salt: String,
    pub hash: Vec<u8>,
}

/// Name for the 32-byte PBKDF2-HMAC-SHA256 key of `password` under `salt`.
pub uninterp spec fn pbkdf2_sha256_of(password: Seq<u8>, salt: Seq<u8>, rounds: u32) -> Seq<u8>;

/// Relies on pbkdf2::pbkdf2_hmac_array::<sha2::Sha256, 32>: the key depends on
/// password, salt and round count alone; it never panics (HMAC takes keys of any length).
#[verifier::external_body]
fn pbkdf2_sha256(password: &[u8], salt: &[u8], rounds: u32) -> (r: Vec<u8>)
    ensures
        r@ == pbkdf2_sha256_of(password@, salt@, rounds),
{
    pbkdf2::pbkdf2_hmac_array::<sha2::Sha256, 32>(password, salt, rounds).to_vec()
}

/// The derived key of `password` under `salt`, with both taken as UTF-8.
pub open spec fn derived_key(password: Seq<char>, salt: Seq<char>) -> Seq<u8> {
    pbkdf2_sha256_of(encode_utf8(password), encode_utf8(salt), PBKDF2_ROUNDS)
}

/// Whether `candidate` is the password that `c` was made from.
pub open spec fn credential_matches(c: Credential, candidate: Seq<char>) -> bool {
    c.hash@ == derived_key(candidate, c.salt@)
}

/// Hashes `password` under `salt` into a credential to store.
pub fn hash_password(password: &String, salt: String) -> (c: Credential)
    ensures
        c.salt@ == salt@,
        c.hash@ == derived_key(password@, salt@),
        credential_matches(c, password@),
{
    let hash = pbkdf2_sha256(password.as_str().as_bytes(), salt.as_str().as_bytes(), PBKDF2_ROUNDS);
    Credential { salt, hash }
}

/// Checks `candidate` against the stored credential.
pub fn verify(stored: &Credential, candidate: &String) -> (r: bool)
    ensures
        r == credential_matches(*stored, candidate@),
{
    let key = pbkdf2_sha256(
        candidate.as_str().as_bytes(),
        stored.salt.as_str().as_bytes(),
        PBKDF2_ROUNDS,
    );
    if key.len() != stored.hash.len() {
        return false;
    }
    // Every byte is compared, so the time taken does not depend on where they differ.
    let mut diff: bool = false;
    let mut i: usize = 0;
    while i < key.len()
        invariant
            key@.len() == stored.hash@.len(),
            0 <= i <= key@.len(),
            diff <==> exists|j: int| 0 <= j < i && key@[j] != stored.hash@[j],
        decreases key@.len() - i,
    {
        if key[i] != stored.hash[i] {
            diff = true;
        }
        i = i + 1;
    }
    if !diff {
        assert(key@ =~= stored.hash@);
    }
    !diff
}

} // verus!
