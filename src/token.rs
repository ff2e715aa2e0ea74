//! Signed, time-bound session tokens: issuing them and recovering their claims.
use vstd::prelude::*;
use vstd::utf8::encode_utf8;
use hmac::Mac;
use crate::error::DimError;
use crate::role::{has_role, Role};

verus! {

/// How long an issued token stays valid, in seconds (one week).
pub const TOKEN_LIFETIME_SECS: u64 = 604800;

/// What a verified token says: who it was issued to, their roles, and until when it holds.
pub struct Claims {
    pub username: String,
    pub roles: Vec<Role>,
    pub exp: u64,
}

/// A self-contained session credential: the claims and a tag over them.
pub struct Token {
    pub username: String,
    pub roles: Vec<Role>,
    pub exp: u64,
    pub signature: Vec<u8>,
}

impl Claims {
    /// Whether the claims grant `role`.
    pub fn has_role(&self, role: Role) -> (r: bool)
        ensures
            r == self.roles@.contains(role),
    {
        has_role(&self.roles, role)
    }

    /// The name of the user the claims belong to.
    pub fn get_user(&self) -> (r: String)
        ensures
            r@ == self.username@,
    {
        self.username.clone()
    }

    /// A copy of the role set of the claims.
    pub fn clone_roles(&self) -> (r: Vec<Role>)
        ensures
            r@ == self.roles@,
    {
        self.roles.clone()
    }
}

/// Name for the HMAC-SHA256 tag of `msg` under `key`.
pub uninterp spec fn hmac_sha256_of(key: Seq<u8>, msg: Seq<u8>) -> Seq<u8>;

/// Relies on hmac::Hmac<sha2::Sha256>: the tag depends on key and message alone,
/// and is 32 bytes long; a key of any length is accepted.
#[verifier::external_body]
fn hmac_sha256(key: &[u8], msg: &[u8]) -> (r: Vec<u8>)
    ensures
        r@ == hmac_sha256_of(key@, msg@),
        r@.len() == 32,
{
    let mut mac = <hmac::Hmac<sha2::Sha256> as Mac>::new_from_slice(key)
        .expect("HMAC accepts keys of any length");
    mac.update(msg);
    mac.finalize().into_bytes().to_vec()
}

/// The `n` low-order bytes of `x`, least significant first.
pub open spec fn le_bytes(x: nat, n: nat) -> Seq<u8>
    decreases n,
{
    if n == 0 {
        Seq::empty()
    } else {
        seq![(x % 256) as u8] + le_bytes(x / 256, (n - 1) as nat)
    }
}

/// The byte that stands for a role in a signed message.
pub open spec fn role_code(r: Role) -> u8 {
    match r {
        Role::Owner => 1,
        Role::User => 2,
    }
}

/// The bytes that a token's tag covers: the length-prefixed username in UTF-8,
/// the length-prefixed role codes, and the expiry.
pub open spec fn token_message(username: Seq<char>, roles: Seq<Role>, exp: u64) -> Seq<u8> {
    let user = encode_utf8(username);
    le_bytes(user.len(), 8) + user + le_bytes(roles.len(), 8) + roles.map_values(
        |r: Role| role_code(r),
    ) + le_bytes(exp as nat, 8)
}

/// The expiry of a token issued at `now`.
pub open spec fn expiry_after(now: u64) -> u64 {
    if now as int + TOKEN_LIFETIME_SECS as int > u64::MAX as int {
        u64::MAX
    } else {
        (now + TOKEN_LIFETIME_SECS) as u64
    }
}

fn push_le_bytes(out: &mut Vec<u8>, x: u64)
    ensures
        final(out)@ == old(out)@ + le_bytes(x as nat, 8),
{
    let ghost start = out@;
    let mut v: u64 = x;
    let mut i: usize = 0;
    while i < 8
        invariant
            0 <= i <= 8,
            start + le_bytes(x as nat, 8) == out@ + le_bytes(v as nat, (8 - i) as nat),
        decreases 8 - i,
    {
        let ghost before = out@;
        assert(le_bytes(v as nat, (8 - i) as nat) == seq![(v % 256) as u8] + le_bytes(
            (v / 256) as nat,
            (8 - i - 1) as nat,
        ));
        out.push((v % 256) as u8);
        assert(before + (seq![(v % 256) as u8] + le_bytes((v / 256) as nat, (8 - i - 1) as nat))
            == out@ + le_bytes((v / 256) as nat, (8 - i - 1) as nat));
        v = v / 256;
        i = i + 1;
    }
    assert(le_bytes(v as nat, 0) == Seq::<u8>::empty());
    assert(out@ + Seq::<u8>::empty() == out@);
}

/// The message that a token over these claims is tagged with.
fn message_of(username: &String, roles: &Vec<Role>, exp: u64) -> (r: Vec<u8>)
    ensures
        r@ == token_message(username@, roles@, exp),
{
    let user = username.as_str().as_bytes();
    let mut out: Vec<u8> = Vec::new();
    push_le_bytes(&mut out, user.len() as u64);
    let mut i: usize = 0;
    while i < user.len()
        invariant
            0 <= i <= user@.len(),
            user@ == encode_utf8(username@),
            out@ == le_bytes(user@.len(), 8) + user@.subrange(0, i as int),
        decreases user@.len() - i,
    {
        out.push(user[i]);
        assert(user@.subrange(0, i + 1) == user@.subrange(0, i as int).push(user@[i as int]));
        i = i + 1;
    }
    assert(user@.subrange(0, user@.len() as int) == user@);
    push_le_bytes(&mut out, roles.len() as u64);
    let ghost mid = out@;
    let ghost codes = roles@.map_values(|r: Role| role_code(r));
    let mut j: usize = 0;
    while j < roles.len()
        invariant
            0 <= j <= roles@.len(),
            codes == roles@.map_values(|r: Role| role_code(r)),
            out@ == mid + codes.subrange(0, j as int),
        decreases roles@.len() - j,
    {
        let code: u8 = match roles[j] {
            Role::Owner => 1,
            Role::User => 2,
        };
        out.push(code);
        assert(codes.subrange(0, j + 1) == codes.subrange(0, j as int).push(codes[j as int]));
        j = j + 1;
    }
    assert(codes.subrange(0, roles@.len() as int) == codes);
    push_le_bytes(&mut out, exp);
    assert(out@ =~= token_message(username@, roles@, exp));
    out
}

/// `t` is the token issued under `secret` at `now` for `username` with `roles`.
pub open spec fn issued_for(t: Token, secret: Seq<u8>, username: Seq<char>, roles: Seq<Role>, now: u64) -> bool {
    &&& t.username@ == username
    &&& t.roles@ == roles
    &&& t.exp == expiry_after(now)
    &&& t.signature@ == hmac_sha256_of(secret, token_message(username, roles, t.exp))
}

/// Issues a token for `username` with `roles` at time `now`, signed with `secret`.
pub fn issue_token(secret: &Vec<u8>, username: &String, roles: &Vec<Role>, now: u64) -> (t: Token)
    ensures
        issued_for(t, secret@, username@, roles@, now),
{
    let exp: u64 = now.saturating_add(TOKEN_LIFETIME_SECS);
    let msg = message_of(username, roles, exp);
    let signature = hmac_sha256(secret.as_slice(), msg.as_slice());
    Token { username: username.clone(), roles: roles.clone(), exp, signature }
}

/// Whether `t` carries a correct tag under `secret` and has not expired at `now`.
pub open spec fn token_valid(secret: Seq<u8>, t: Token, now: u64) -> bool {
    &&& t.signature@ == hmac_sha256_of(secret, token_message(t.username@, t.roles@, t.exp))
    &&& now < t.exp
}

fn bytes_equal(a: &Vec<u8>, b: &Vec<u8>) -> (r: bool)
    ensures
        r == (a@ == b@),
{
    if a.len() != b.len() {
        return false;
    }
    let mut i: usize = 0;
    while i < a.len()
        invariant
            a@.len() == b@.len(),
            0 <= i <= a@.len(),
            forall|j: int| 0 <= j < i ==> a@[j] == b@[j],
        decreases a@.len() - i,
    {
        if a[i] != b[i] {
            return false;
        }
        i = i + 1;
    }
    assert(a@ =~= b@);
    true
}

/// Recovers the claims of `t`: fails with `Unauthenticated` on a wrong tag or
/// an expiry that is not in the future.
pub fn verify_token(secret: &Vec<u8>, t: &Token, now: u64) -> (r: Result<Claims, DimError>)
    ensures
        token_valid(secret@, *t, now) <==> r.is_ok(),
        r.is_err() ==> r == Err::<Claims, DimError>(DimError::Unauthenticated),
        r matches Ok(c) ==> c.username@ == t.username@ && c.roles@ == t.roles@ && c.exp == t.exp,
{
    let msg = message_of(&t.username, &t.roles, t.exp);
    let expected = hmac_sha256(secret.as_slice(), msg.as_slice());
    if !bytes_equal(&expected, &t.signature) || now >= t.exp {
        return Err(DimError::Unauthenticated);
    }
    Ok(Claims { username: t.username.clone(), roles: t.roles.clone(), exp: t.exp })
}

/// Issuing then verifying gives back the claims: a token issued for a username
/// and role set verifies, at any time before its expiry, to exactly that
/// username and role set; at or after its expiry it fails.
pub proof fn lemma_issue_then_verify(secret: Seq<u8>, t: Token, username: Seq<char>, roles: Seq<Role>, now: u64, later: u64)
    requires
        issued_for(t, secret, username, roles, now),
    ensures
        later < t.exp <==> token_valid(secret, t, later),
        now < u64::MAX ==> now < t.exp,
{
}

} // verus!
