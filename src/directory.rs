//! The accounts and invites that one write transaction sees, and every
//! decision that reads or changes them: registration (bootstrap or invite-gated),
//! forwarded-user login, invite management and self-service account changes.
use vstd::prelude::*;
use crate::credential::{credential_matches, hash_password, verify, Credential};
use crate::error::{DimError, ForwardAuthError, HeadersLoginError};
use crate::role::Role;
use crate::token::{issue_token, issued_for, Claims, Token};

verus! {

/// An account.
pub struct User {
    /// Unique name of the account.
    pub username: String,
    /// The stored password credential.
    pub password: Credential,
    /// Non-empty set of roles.
    pub roles: Vec<Role>,
    /// The invite this account consumed (bootstrap accounts consume a synthesized one).
    pub claimed_invite: String,
    /// Stored file name of the profile picture, if one was uploaded.
    pub picture: Option<String>,
}

/// A one-time capability that gates registration.
pub struct Invite {
    /// Unique random identifier, the token handed to the invitee.
    pub id: String,
    /// Creation time, seconds since the epoch.
    pub created: u64,
}

/// One line of the invite listing.
pub struct InviteRow {
    pub id: String,
    pub created: u64,
    /// Name of the account that claimed the invite, if any.
    pub claimed_by: Option<String>,
}

/// The users and invites tables.
pub struct Directory {
    pub users: Vec<User>,
    /// Kept ordered by creation time.
    pub invites: Vec<Invite>,
}

/// `new` is `old` with `inv` put in at one position.
pub open spec fn inserted_once(old: Seq<Invite>, new: Seq<Invite>, inv: Invite) -> bool {
    exists|pos: int| 0 <= pos <= old.len() && new == old.insert(pos, inv)
}

impl Directory {
    /// Whether an account named `name` exists.
    pub open spec fn has_user(self, name: Seq<char>) -> bool {
        exists|i: int| 0 <= i < self.users@.len() && (#[trigger] self.users@[i]).username@ == name
    }

    /// Whether an invite with identifier `id` exists.
    pub open spec fn has_invite(self, id: Seq<char>) -> bool {
        exists|i: int| 0 <= i < self.invites@.len() && (#[trigger] self.invites@[i]).id@ == id
    }

    /// Whether some account has consumed the invite `id`.
    pub open spec fn is_claimed(self, id: Seq<char>) -> bool {
        exists|i: int|
            0 <= i < self.users@.len() && (#[trigger] self.users@[i]).claimed_invite@ == id
    }

    /// Whether `id` names an invite that no account has consumed.
    pub open spec fn valid_unclaimed(self, id: Seq<char>) -> bool {
        self.has_invite(id) && !self.is_claimed(id)
    }

    /// The tables' invariant: unique usernames, unique invite ids, every account
    /// consumed an existing invite that no other account consumed, role sets are
    /// non-empty, and invites are ordered by creation time.
    pub open spec fn wf(self) -> bool {
        &&& forall|i: int, j: int|
            0 <= i < j < self.users@.len() ==> (#[trigger] self.users@[i]).username@
                != (#[trigger] self.users@[j]).username@
        &&& forall|i: int, j: int|
            0 <= i < j < self.users@.len() ==> (#[trigger] self.users@[i]).claimed_invite@
                != (#[trigger] self.users@[j]).claimed_invite@
        &&& forall|i: int|
            0 <= i < self.users@.len() ==> self.has_invite((#[trigger] self.users@[i]).claimed_invite@)
        &&& forall|i: int| 0 <= i < self.users@.len() ==> (#[trigger] self.users@[i]).roles@.len() > 0
        &&& forall|i: int, j: int|
            0 <= i < j < self.invites@.len() ==> (#[trigger] self.invites@[i]).id@
                != (#[trigger] self.invites@[j]).id@
        &&& forall|i: int, j: int|
            0 <= i < j < self.invites@.len() ==> (#[trigger] self.invites@[i]).created
                <= (#[trigger] self.invites@[j]).created
    }

    /// Empty tables.
    pub fn new() -> (d: Directory)
        ensures
            d.wf(),
            d.users@.len() == 0,
            d.invites@.len() == 0,
    {
        Directory { users: Vec::new(), invites: Vec::new() }
    }

    /// Whether any account exists yet.
    pub fn admin_exists(&self) -> (r: bool)
        ensures
            r == (self.users@.len() > 0),
    {
        self.users.len() > 0
    }

    /// Position of the account named `name`.
    pub fn find_user(&self, name: &String) -> (r: Option<usize>)
        ensures
            match r {
                Some(i) => i < self.users@.len() && self.users@[i as int].username@ == name@,
                None => !self.has_user(name@),
            },
    {
        let mut i: usize = 0;
        while i < self.users.len()
            invariant
                0 <= i <= self.users@.len(),
                forall|j: int| 0 <= j < i ==> (#[trigger] self.users@[j]).username@ != name@,
            decreases self.users@.len() - i,
        {
            if self.users[i].username == *name {
                return Some(i);
            }
            i = i + 1;
        }
        None
    }

    /// Position of the invite `id`.
    pub fn find_invite(&self, id: &String) -> (r: Option<usize>)
        ensures
            match r {
                Some(i) => i < self.invites@.len() && self.invites@[i as int].id@ == id@,
                None => !self.has_invite(id@),
            },
    {
        let mut i: usize = 0;
        while i < self.invites.len()
            invariant
                0 <= i <= self.invites@.len(),
                forall|j: int| 0 <= j < i ==> (#[trigger] self.invites@[j]).id@ != id@,
            decreases self.invites@.len() - i,
        {
            if self.invites[i].id == *id {
                return Some(i);
            }
            i = i + 1;
        }
        None
    }

    /// Position of the account that consumed the invite `id`.
    pub fn find_claimant(&self, id: &String) -> (r: Option<usize>)
        ensures
            match r {
                Some(i) => i < self.users@.len() && self.users@[i as int].claimed_invite@ == id@,
                None => !self.is_claimed(id@),
            },
    {
        let mut i: usize = 0;
        while i < self.users.len()
            invariant
                0 <= i <= self.users@.len(),
                forall|j: int| 0 <= j < i ==> (#[trigger] self.users@[j]).claimed_invite@ != id@,
            decreases self.users@.len() - i,
        {
            if self.users[i].claimed_invite == *id {
                return Some(i);
            }
            i = i + 1;
        }
        None
    }

    /// Whether `token` names an invite that exists and is not yet consumed.
    pub fn invite_token_valid(&self, token: &String) -> (r: bool)
        ensures
            r == self.valid_unclaimed(token@),
    {
        match self.find_invite(token) {
            None => false,
            Some(_) => self.find_claimant(token).is_none(),
        }
    }
    /// Adds the invite `id`, created at `now`, keeping the creation-time order;
    /// fails with `DuplicateKey`, changing nothing, when the id is taken.
    pub fn new_invite(&mut self, id: String, now: u64) -> (r: Result<String, DimError>)
        requires
            old(self).wf(),
        ensures
            final(self).wf(),
            old(self).has_invite(id@) ==> r == Err::<String, DimError>(DimError::DuplicateKey)
                && *final(self) == *old(self),
            !old(self).has_invite(id@) ==> r == Ok::<String, DimError>(id) && final(self).users
                == old(self).users && inserted_once(
                old(self).invites@,
                final(self).invites@,
                Invite { id, created: now },
            ),
    {
        if self.find_invite(&id).is_some() {
            return Err(DimError::DuplicateKey);
        }
        let ret = id.clone();
        let ghost old_inv = self.invites@;
        let mut i: usize = 0;
        while i < self.invites.len() && self.invites[i].created <= now
            invariant
                0 <= i <= self.invites@.len(),
                forall|j: int| 0 <= j < i ==> (#[trigger] self.invites@[j]).created <= now,
            decreases self.invites@.len() - i,
        {
            i = i + 1;
        }
        let inv = Invite { id, created: now };
        self.invites.insert(i, inv);
        proof {
            let new_inv = self.invites@;
            assert(new_inv == old_inv.insert(i as int, inv));
            assert forall|k: int| i <= k < old_inv.len() implies now < (#[trigger] old_inv[k]).created by {
                if k > i {
                    assert(old_inv[i as int].created <= old_inv[k].created);
                }
            }
            assert forall|u: int| 0 <= u < self.users@.len() implies self.has_invite((#[trigger] self.users@[u]).claimed_invite@) by {
                let c = self.users@[u].claimed_invite@;
                let k = choose|k: int| 0 <= k < old_inv.len() && (#[trigger] old_inv[k]).id@ == c;
                if k < i {
                    assert(new_inv[k] == old_inv[k]);
                } else {
                    assert(new_inv[k + 1] == old_inv[k]);
                }
            }
            assert forall|a: int, b: int| 0 <= a < b < new_inv.len() implies (#[trigger] new_inv[a]).id@ != (#[trigger] new_inv[b]).id@ && new_inv[a].created <= new_inv[b].created by {
                if a < i && b < i {
                } else if a < i && b == i {
                } else if a < i {
                    assert(new_inv[b] == old_inv[b - 1]);
                } else if a == i {
                    assert(new_inv[b] == old_inv[b - 1]);
                } else {
                    assert(new_inv[a] == old_inv[a - 1]);
                    assert(new_inv[b] == old_inv[b - 1]);
                }
            }
        }
        Ok(ret)
    }
    /// Whether no account exists yet, so the next registration bootstraps the owner.
    pub open spec fn bootstrap(self) -> bool {
        self.users@.len() == 0
    }

    /// Why a registration of `username` with `token` would fail, if it would;
    /// `fresh` is the identifier drawn for a synthesized invite.
    pub open spec fn register_error(self, username: Seq<char>, token: Option<String>, fresh: Seq<char>) -> Option<DimError> {
        if !self.bootstrap() && (match token {
            None => true,
            Some(t) => !self.valid_unclaimed(t@),
        }) {
            Some(DimError::NoToken)
        } else if self.has_user(username) {
            Some(DimError::UsernameNotAvailable)
        } else if self.bootstrap() && self.has_invite(fresh) {
            Some(DimError::DuplicateKey)
        } else {
            None
        }
    }

    /// The role set that a registration receives.
    pub open spec fn register_roles(self) -> Seq<Role> {
        if self.bootstrap() {
            seq![Role::Owner]
        } else {
            seq![Role::User]
        }
    }

    /// The invite that a successful registration consumes.
    pub open spec fn register_claim(self, token: Option<String>, fresh: Seq<char>) -> Seq<char> {
        if self.bootstrap() {
            fresh
        } else {
            match token {
                Some(t) => t@,
                None => fresh,
            }
        }
    }

    /// `new` is `old` with one account appended: named `username`, holding `roles`,
    /// having consumed `claimed`, with a credential for `password` under `salt`.
    pub open spec fn added_user(
        self,
        new: Directory,
        username: String,
        password: Seq<char>,
        salt: Seq<char>,
        roles: Seq<Role>,
        claimed: Seq<char>,
    ) -> bool {
        let u = new.users@.last();
        &&& new.users@.len() == self.users@.len() + 1
        &&& new.users@.drop_last() == self.users@
        &&& u.username == username
        &&& u.roles@ == roles
        &&& u.claimed_invite@ == claimed
        &&& u.password.salt@ == salt
        &&& credential_matches(u.password, password)
        &&& u.picture is None
    }

    /// Appends `user`, who must have a fresh name, a non-empty role set and an
    /// existing, unconsumed invite.
    fn add_user(&mut self, user: User)
        requires
            old(self).wf(),
            !old(self).has_user(user.username@),
            old(self).valid_unclaimed(user.claimed_invite@),
            user.roles@.len() > 0,
        ensures
            final(self).wf(),
            final(self).users@ == old(self).users@.push(user),
            final(self).invites == old(self).invites,
    {
        let ghost old_users = self.users@;
        let ghost added = user;
        self.users.push(user);
        proof {
            let us = self.users@;
            assert forall|a: int, b: int| 0 <= a < b < us.len() implies (#[trigger] us[a]).username@ != (#[trigger] us[b]).username@ && us[a].claimed_invite@ != us[b].claimed_invite@ by {
                if b == old_users.len() {
                    assert(old_users[a] == us[a]);
                } else {
                    assert(old_users[a] == us[a]);
                    assert(old_users[b] == us[b]);
                }
            }
            assert forall|a: int| 0 <= a < us.len() implies self.has_invite((#[trigger] us[a]).claimed_invite@) && us[a].roles@.len() > 0 by {
                let c = us[a].claimed_invite@;
                if a < old_users.len() {
                    assert(old_users[a] == us[a]);
                } else {
                    assert(us[a] == added);
                }
                assert(old(self).has_invite(c));
                let k = choose|k: int| 0 <= k < old(self).invites@.len() && (#[trigger] old(self).invites@[k]).id@ == c;
                assert(self.invites@[k].id@ == c);
            }
        }
    }

    /// What a registration does, as a relation between the tables before
    /// (`self`) and after (`new`) and its result `r`.
    pub open spec fn register_effect(
        self,
        new: Directory,
        username: String,
        password: Seq<char>,
        token: Option<String>,
        fresh_invite: String,
        salt: Seq<char>,
        now: u64,
        r: Result<String, DimError>,
    ) -> bool {
        match self.register_error(username@, token, fresh_invite@) {
            Some(e) => r == Err::<String, DimError>(e) && new == self,
            None => {
                &&& r == Ok::<String, DimError>(username)
                &&& self.added_user(
                    new,
                    username,
                    password,
                    salt,
                    self.register_roles(),
                    self.register_claim(token, fresh_invite@),
                )
                &&& self.bootstrap() ==> inserted_once(
                    self.invites@,
                    new.invites@,
                    Invite { id: fresh_invite, created: now },
                )
                &&& !self.bootstrap() ==> new.invites == self.invites
            },
        }
    }

    /// Registers `username` with `password`. With no account yet, the invite token
    /// is ignored, an invite `fresh_invite` is created at `now` and consumed, and
    /// the account becomes the owner. Otherwise `invite_token` must name an
    /// unconsumed invite (else `NoToken`), which the new ordinary account consumes.
    /// A taken name fails with `UsernameNotAvailable`. On failure nothing changes.
    pub fn register(
        &mut self,
        username: String,
        password: String,
        invite_token: Option<String>,
        fresh_invite: String,
        salt: String,
        now: u64,
    ) -> (r: Result<String, DimError>)
        requires
            old(self).wf(),
        ensures
            final(self).wf(),
            old(self).register_effect(
                *final(self),
                username,
                password@,
                invite_token,
                fresh_invite,
                salt@,
                now,
                r,
            ),
    {
        let users_empty = self.users.len() == 0;
        let claimed: String;
        if !users_empty {
            match &invite_token {
                None => {
                    return Err(DimError::NoToken);
                },
                Some(t) => {
                    if !self.invite_token_valid(t) {
                        return Err(DimError::NoToken);
                    }
                    claimed = t.clone();
                },
            }
        } else {
            claimed = fresh_invite.clone();
        }
        if self.find_user(&username).is_some() {
            return Err(DimError::UsernameNotAvailable);
        }
        let mut roles: Vec<Role> = Vec::new();
        if users_empty {
            if self.find_invite(&fresh_invite).is_some() {
                return Err(DimError::DuplicateKey);
            }
            let _ = self.new_invite(fresh_invite, now);
            roles.push(Role::Owner);
        } else {
            roles.push(Role::User);
        }
        proof {
            if users_empty {
                let pos = choose|pos: int| 0 <= pos <= old(self).invites@.len() && self.invites@ == old(self).invites@.insert(pos, Invite { id: fresh_invite, created: now });
                assert(self.invites@[pos].id@ == claimed@);
            }
        }
        let ret = username.clone();
        let credential = hash_password(&password, salt);
        let user = User {
            username,
            password: credential,
            roles,
            claimed_invite: claimed,
            picture: None,
        };
        self.add_user(user);
        proof {
            assert(self.users@.drop_last() =~= old(self).users@);
        }
        Ok(ret)
    }
    /// Whether an account named `username` exists and `password` is its password.
    pub open spec fn login_ok(self, username: Seq<char>, password: Seq<char>) -> bool {
        exists|i: int|
            0 <= i < self.users@.len() && (#[trigger] self.users@[i]).username@ == username
                && credential_matches(self.users@[i].password, password)
    }

    /// `t` is a token issued under `secret` at `now` to the account named `username`.
    pub open spec fn token_for_account(self, t: Token, secret: Seq<u8>, username: Seq<char>, now: u64) -> bool {
        exists|i: int|
            0 <= i < self.users@.len() && (#[trigger] self.users@[i]).username@ == username
                && issued_for(t, secret, username, self.users@[i].roles@, now)
    }

    /// Logs in with a username and password: a token for the account, or
    /// `InvalidCredentials` for an unknown name or a wrong password.
    pub fn login(&self, username: &String, password: &String, secret: &Vec<u8>, now: u64) -> (r: Result<Token, DimError>)
        requires
            self.wf(),
        ensures
            r.is_ok() <==> self.login_ok(username@, password@),
            r.is_err() ==> r == Err::<Token, DimError>(DimError::InvalidCredentials),
            r matches Ok(t) ==> self.token_for_account(t, secret@, username@, now),
    {
        match self.find_user(username) {
            None => Err(DimError::InvalidCredentials),
            Some(i) => {
                let user = &self.users[i];
                if verify(&user.password, password) {
                    let t = issue_token(secret, &user.username, &user.roles, now);
                    assert(self.users@[i as int] == *user);
                    Ok(t)
                } else {
                    proof {
                        assert forall|j: int| 0 <= j < self.users@.len() && (#[trigger] self.users@[j]).username@ == username@
                            implies !credential_matches(self.users@[j].password, password@) by {
                            if j != i {
                                if j < i {
                                    assert(self.users@[j].username@ != self.users@[i as int].username@);
                                } else {
                                    assert(self.users@[i as int].username@ != self.users@[j].username@);
                                }
                            }
                        }
                    }
                    Err(DimError::InvalidCredentials)
                }
            },
        }
    }
    /// What a forwarded-user login of `username` does, as a relation between the
    /// tables before (`self`) and after (`new`) and its result `r`.
    pub open spec fn headers_login_effect(
        self,
        new: Directory,
        enabled: bool,
        username: String,
        secret: Seq<u8>,
        now: u64,
        password: Seq<char>,
        salt: Seq<char>,
        fresh_invite: String,
        r: Result<Token, HeadersLoginError>,
    ) -> bool {
        if !enabled {
            &&& r == Err::<Token, HeadersLoginError>(
                HeadersLoginError::ForwardAuthError(ForwardAuthError::ForwardAuthDisabled),
            )
            &&& new == self
        } else if self.has_user(username@) {
            &&& new == self
            &&& r matches Ok(t) && self.token_for_account(t, secret, username@, now)
        } else if self.has_invite(fresh_invite@) {
            &&& r == Err::<Token, HeadersLoginError>(
                HeadersLoginError::DimError(DimError::DuplicateKey),
            )
            &&& new == self
        } else {
            &&& r matches Ok(t) && issued_for(t, secret, username@, seq![Role::User], now)
            &&& self.added_user(new, username, password, salt, seq![Role::User], fresh_invite@)
            &&& inserted_once(self.invites@, new.invites@, Invite { id: fresh_invite, created: now })
        }
    }

    /// Logs in the user that a trusted reverse proxy asserts, when `enabled`.
    /// An existing account gets a token with no password check. An unknown name
    /// is provisioned first: an ordinary account with the generated `password`
    /// (hashed under `salt`) that consumes a new invite `fresh_invite`.
    pub fn headers_login(
        &mut self,
        enabled: bool,
        username: String,
        secret: &Vec<u8>,
        now: u64,
        password: String,
        salt: String,
        fresh_invite: String,
    ) -> (r: Result<Token, HeadersLoginError>)
        requires
            old(self).wf(),
        ensures
            final(self).wf(),
            old(self).headers_login_effect(
                *final(self),
                enabled,
                username,
                secret@,
                now,
                password@,
                salt@,
                fresh_invite,
                r,
            ),
    {
        if !enabled {
            return Err(HeadersLoginError::from(ForwardAuthError::ForwardAuthDisabled));
        }
        match self.find_user(&username) {
            Some(i) => {
                let user = &self.users[i];
                let t = issue_token(secret, &user.username, &user.roles, now);
                assert(self.users@[i as int] == *user);
                Ok(t)
            },
            None => {
                if self.find_invite(&fresh_invite).is_some() {
                    return Err(HeadersLoginError::from(DimError::DuplicateKey));
                }
                let claimed = fresh_invite.clone();
                let _ = self.new_invite(fresh_invite, now);
                proof {
                    let pos = choose|pos: int| 0 <= pos <= old(self).invites@.len() && self.invites@ == old(self).invites@.insert(pos, Invite { id: fresh_invite, created: now });
                    assert(self.invites@[pos].id@ == claimed@);
                }
                let mut roles: Vec<Role> = Vec::new();
                roles.push(Role::User);
                let t = issue_token(secret, &username, &roles, now);
                let credential = hash_password(&password, salt);
                let user = User {
                    username,
                    password: credential,
                    roles,
                    claimed_invite: claimed,
                    picture: None,
                };
                self.add_user(user);
                proof {
                    assert(self.users@.drop_last() =~= old(self).users@);
                    assert(roles@ =~= seq![Role::User]);
                }
                Ok(t)
            },
        }
    }
    /// Changes the password of the account in `claims`, after checking
    /// `old_password` against it; the new one is hashed under `salt`.
    pub fn user_change_password(
        &mut self,
        claims: &Claims,
        old_password: &String,
        new_password: &String,
        salt: String,
    ) -> (r: Result<(), DimError>)
        requires
            old(self).wf(),
        ensures
            final(self).wf(),
            !old(self).login_ok(claims.username@, old_password@) ==> r == Err::<(), DimError>(
                DimError::InvalidCredentials,
            ) && *final(self) == *old(self),
            old(self).login_ok(claims.username@, old_password@) ==> {
                &&& r == Ok::<(), DimError>(())
                &&& final(self).invites == old(self).invites
                &&& exists|i: int|
                    0 <= i < old(self).users@.len() && (#[trigger] old(self).users@[i]).username@
                        == claims.username@ && final(self).users@ == old(self).users@.update(
                        i,
                        User { password: final(self).users@[i].password, ..old(self).users@[i] },
                    ) && final(self).users@[i].password.salt@ == salt@ && credential_matches(
                        final(self).users@[i].password,
                        new_password@,
                    )
            },
    {
        match self.find_user(&claims.username) {
            None => Err(DimError::InvalidCredentials),
            Some(i) => {
                if !verify(&self.users[i].password, old_password) {
                    proof { self.lemma_only_account(i as int, claims.username@, old_password@); }
                    return Err(DimError::InvalidCredentials);
                }
                let credential = hash_password(new_password, salt);
                let ghost before = self.users@[i as int];
                self.users[i].password = credential;
                proof {
                    assert(self.users@ =~= old(self).users@.update(i as int, User { password: self.users@[i as int].password, ..before }));
                    lemma_same_keys(*old(self), *self);
                }
                Ok(())
            },
        }
    }

    /// A wrong password is refused: with unique names, the account at `i` is the
    /// only one named `name`, so if `password` is not its password, re-verifying
    /// `name` with it fails, and a delete (or password change) made with it
    /// returns `InvalidCredentials` and leaves the account in place.
    pub proof fn lemma_only_account(self, i: int, name: Seq<char>, password: Seq<char>)
        requires
            self.wf(),
            0 <= i < self.users@.len(),
            self.users@[i].username@ == name,
            !credential_matches(self.users@[i].password, password),
        ensures
            !self.login_ok(name, password),
    {
        assert forall|j: int| 0 <= j < self.users@.len() && (#[trigger] self.users@[j]).username@ == name
            implies !credential_matches(self.users@[j].password, password) by {
            if j < i {
                assert(self.users@[j].username@ != self.users@[i].username@);
            } else if j > i {
                assert(self.users@[i].username@ != self.users@[j].username@);
            }
        }
    }

    /// Deletes the account in `claims`, after checking `password` against it.
    pub fn user_delete_self(&mut self, claims: &Claims, password: &String) -> (r: Result<(), DimError>)
        requires
            old(self).wf(),
        ensures
            final(self).wf(),
            !old(self).login_ok(claims.username@, password@) ==> r == Err::<(), DimError>(
                DimError::InvalidCredentials,
            ) && *final(self) == *old(self),
            old(self).login_ok(claims.username@, password@) ==> {
                &&& r == Ok::<(), DimError>(())
                &&& final(self).invites == old(self).invites
                &&& !final(self).has_user(claims.username@)
                &&& exists|i: int|
                    0 <= i < old(self).users@.len() && (#[trigger] old(self).users@[i]).username@
                        == claims.username@ && final(self).users@ == old(self).users@.remove(i)
            },
    {
        match self.find_user(&claims.username) {
            None => Err(DimError::InvalidCredentials),
            Some(i) => {
                if !verify(&self.users[i].password, password) {
                    proof { self.lemma_only_account(i as int, claims.username@, password@); }
                    return Err(DimError::InvalidCredentials);
                }
                let _ = self.users.remove(i);
                proof {
                    let o = old(self).users@;
                    let n = self.users@;
                    assert(n == o.remove(i as int));
                    assert forall|k: int| 0 <= k < n.len() implies #[trigger] n[k] == o[if k < i { k } else { k + 1 }] by {}
                    assert forall|a: int, b: int| 0 <= a < b < n.len() implies (#[trigger] n[a]).username@ != (#[trigger] n[b]).username@ && n[a].claimed_invite@ != n[b].claimed_invite@ by {
                        let oa = if a < i { a } else { a + 1 };
                        let ob = if b < i { b } else { b + 1 };
                        assert(n[a] == o[oa]);
                        assert(n[b] == o[ob]);
                    }
                    assert forall|a: int| 0 <= a < n.len() implies self.has_invite((#[trigger] n[a]).claimed_invite@) && n[a].roles@.len() > 0 by {
                        let oa = if a < i { a } else { a + 1 };
                        assert(n[a] == o[oa]);
                        let c = o[oa].claimed_invite@;
                        assert(old(self).has_invite(c));
                        let k = choose|k: int| 0 <= k < old(self).invites@.len() && (#[trigger] old(self).invites@[k]).id@ == c;
                        assert(self.invites@[k].id@ == c);
                    }
                    assert forall|k: int| 0 <= k < n.len() implies (#[trigger] n[k]).username@ != claims.username@ by {
                        let ok = if k < i { k } else { k + 1 };
                        assert(n[k] == o[ok]);
                        if ok < i {
                            assert(o[ok].username@ != o[i as int].username@);
                        } else {
                            assert(o[i as int].username@ != o[ok].username@);
                        }
                    }
                }
                Ok(())
            },
        }
    }
    /// Renames the account in `claims` to `new_username`: `UsernameNotAvailable`
    /// if that name is taken (its own included), `NotFound` if the account is gone.
    pub fn user_change_username(&mut self, claims: &Claims, new_username: String) -> (r: Result<(), DimError>)
        requires
            old(self).wf(),
        ensures
            final(self).wf(),
            old(self).has_user(new_username@) ==> r == Err::<(), DimError>(
                DimError::UsernameNotAvailable,
            ) && *final(self) == *old(self),
            !old(self).has_user(new_username@) && !old(self).has_user(claims.username@) ==> r
                == Err::<(), DimError>(DimError::NotFound) && *final(self) == *old(self),
            !old(self).has_user(new_username@) && old(self).has_user(claims.username@) ==> {
                &&& r == Ok::<(), DimError>(())
                &&& final(self).invites == old(self).invites
                &&& exists|i: int|
                    0 <= i < old(self).users@.len() && (#[trigger] old(self).users@[i]).username@
                        == claims.username@ && final(self).users@ == old(self).users@.update(
                        i,
                        User { username: new_username, ..old(self).users@[i] },
                    )
            },
    {
        if self.find_user(&new_username).is_some() {
            return Err(DimError::UsernameNotAvailable);
        }
        match self.find_user(&claims.username) {
            None => Err(DimError::NotFound),
            Some(i) => {
                let ghost before = self.users@[i as int];
                let ghost name = new_username;
                self.users[i].username = new_username;
                proof {
                    let o = old(self).users@;
                    let n = self.users@;
                    assert(n =~= o.update(i as int, User { username: name, ..before }));
                    assert forall|a: int, b: int| 0 <= a < b < n.len() implies (#[trigger] n[a]).username@ != (#[trigger] n[b]).username@ && n[a].claimed_invite@ != n[b].claimed_invite@ by {
                        if a == i {
                            assert(o[b] == n[b]);
                        } else if b == i {
                            assert(o[a] == n[a]);
                        } else {
                            assert(o[a] == n[a]);
                            assert(o[b] == n[b]);
                        }
                    }
                    assert forall|a: int| 0 <= a < n.len() implies self.has_invite((#[trigger] n[a]).claimed_invite@) && n[a].roles@.len() > 0 by {
                        assert(n[a].claimed_invite == o[a].claimed_invite);
                        let c = o[a].claimed_invite@;
                        assert(old(self).has_invite(c));
                        let k = choose|k: int| 0 <= k < old(self).invites@.len() && (#[trigger] old(self).invites@[k]).id@ == c;
                        assert(self.invites@[k].id@ == c);
                    }
                }
                Ok(())
            },
        }
    }

    /// Sets the profile picture of the account in `claims` to the stored file `local_file`.
    pub fn user_upload_avatar(&mut self, claims: &Claims, local_file: String) -> (r: Result<(), DimError>)
        requires
            old(self).wf(),
        ensures
            final(self).wf(),
            !old(self).has_user(claims.username@) ==> r == Err::<(), DimError>(DimError::NotFound)
                && *final(self) == *old(self),
            old(self).has_user(claims.username@) ==> {
                &&& r == Ok::<(), DimError>(())
                &&& final(self).invites == old(self).invites
                &&& exists|i: int|
                    0 <= i < old(self).users@.len() && (#[trigger] old(self).users@[i]).username@
                        == claims.username@ && final(self).users@ == old(self).users@.update(
                        i,
                        User { picture: Some(local_file), ..old(self).users@[i] },
                    )
            },
    {
        match self.find_user(&claims.username) {
            None => Err(DimError::NotFound),
            Some(i) => {
                let ghost before = self.users@[i as int];
                let ghost file = local_file;
                self.users[i].picture = Some(local_file);
                proof {
                    assert(self.users@ =~= old(self).users@.update(i as int, User { picture: Some(file), ..before }));
                    lemma_same_keys(*old(self), *self);
                }
                Ok(())
            },
        }
    }

    /// Creates an invite `id` at `now`, for an owner only (`Unauthorized` otherwise).
    pub fn generate_invite(&mut self, claims: &Claims, id: String, now: u64) -> (r: Result<String, DimError>)
        requires
            old(self).wf(),
        ensures
            final(self).wf(),
            !claims.roles@.contains(Role::Owner) ==> r == Err::<String, DimError>(
                DimError::Unauthorized,
            ) && *final(self) == *old(self),
            claims.roles@.contains(Role::Owner) && old(self).has_invite(id@) ==> r == Err::<
                String,
                DimError,
            >(DimError::DuplicateKey) && *final(self) == *old(self),
            claims.roles@.contains(Role::Owner) && !old(self).has_invite(id@) ==> r == Ok::<
                String,
                DimError,
            >(id) && final(self).users == old(self).users && inserted_once(
                old(self).invites@,
                final(self).invites@,
                Invite { id, created: now },
            ),
    {
        if !claims.has_role(Role::Owner) {
            return Err(DimError::Unauthorized);
        }
        self.new_invite(id, now)
    }

    /// Deletes the invite `id`, for an owner only: `Unauthorized` otherwise,
    /// `NotFound` for an unknown invite, `InviteClaimed` for one an account consumed.
    pub fn delete_invite(&mut self, claims: &Claims, id: &String) -> (r: Result<(), DimError>)
        requires
            old(self).wf(),
        ensures
            final(self).wf(),
            !claims.roles@.contains(Role::Owner) ==> r == Err::<(), DimError>(DimError::Unauthorized)
                && *final(self) == *old(self),
            claims.roles@.contains(Role::Owner) && !old(self).has_invite(id@) ==> r == Err::<
                (),
                DimError,
            >(DimError::NotFound) && *final(self) == *old(self),
            claims.roles@.contains(Role::Owner) && old(self).has_invite(id@) && old(self).is_claimed(
                id@,
            ) ==> r == Err::<(), DimError>(DimError::InviteClaimed) && *final(self) == *old(self),
            claims.roles@.contains(Role::Owner) && old(self).valid_unclaimed(id@) ==> {
                &&& r == Ok::<(), DimError>(())
                &&& final(self).users == old(self).users
                &&& !final(self).has_invite(id@)
                &&& exists|i: int|
                    0 <= i < old(self).invites@.len() && (#[trigger] old(self).invites@[i]).id@ == id@
                        && final(self).invites@ == old(self).invites@.remove(i)
            },
    {
        if !claims.has_role(Role::Owner) {
            return Err(DimError::Unauthorized);
        }
        match self.find_invite(id) {
            None => Err(DimError::NotFound),
            Some(i) => {
                if self.find_claimant(id).is_some() {
                    return Err(DimError::InviteClaimed);
                }
                let _ = self.invites.remove(i);
                proof {
                    let o = old(self).invites@;
                    let n = self.invites@;
                    assert(n == o.remove(i as int));
                    assert forall|a: int, b: int| 0 <= a < b < n.len() implies (#[trigger] n[a]).id@ != (#[trigger] n[b]).id@ && n[a].created <= n[b].created by {
                        let oa = if a < i { a } else { a + 1 };
                        let ob = if b < i { b } else { b + 1 };
                        assert(n[a] == o[oa]);
                        assert(n[b] == o[ob]);
                    }
                    assert forall|k: int| 0 <= k < n.len() implies (#[trigger] n[k]).id@ != id@ by {
                        let ok = if k < i { k } else { k + 1 };
                        assert(n[k] == o[ok]);
                        if ok < i {
                            assert(o[ok].id@ != o[i as int].id@);
                        } else {
                            assert(o[i as int].id@ != o[ok].id@);
                        }
                    }
                    assert forall|a: int| 0 <= a < self.users@.len() implies self.has_invite((#[trigger] self.users@[a]).claimed_invite@) by {
                        let c = self.users@[a].claimed_invite@;
                        assert(c != id@);
                        let k = choose|k: int| 0 <= k < o.len() && (#[trigger] o[k]).id@ == c;
                        assert(k != i);
                        if k < i {
                            assert(n[k] == o[k]);
                        } else {
                            assert(n[k - 1] == o[k]);
                        }
                    }
                }
                Ok(())
            },
        }
    }

    /// The invites whose consumed state is `claimed`, in creation order.
    pub open spec fn invites_where(self, claimed: bool) -> Seq<Invite> {
        self.invites@.filter(|inv: Invite| self.is_claimed(inv.id@) == claimed)
    }

    /// `row` lists `inv`: its id, its creation time, and the name of the account
    /// that consumed it, if one did.
    pub open spec fn lists(self, row: InviteRow, inv: Invite) -> bool {
        &&& row.id@ == inv.id@
        &&& row.created == inv.created
        &&& match row.claimed_by {
            None => !self.is_claimed(inv.id@),
            Some(name) => exists|u: int|
                0 <= u < self.users@.len() && (#[trigger] self.users@[u]).claimed_invite@ == inv.id@
                    && self.users@[u].username@ == name@,
        }
    }

    /// Appends to `rows` one row for each invite whose consumed state is `claimed`.
    fn push_rows(&self, claimed: bool, rows: &mut Vec<InviteRow>)
        ensures
            final(rows)@.len() == old(rows)@.len() + self.invites_where(claimed).len(),
            final(rows)@.subrange(0, old(rows)@.len() as int) == old(rows)@,
            forall|k: int|
                0 <= k < self.invites_where(claimed).len() ==> self.lists(
                    #[trigger] final(rows)@[old(rows)@.len() + k],
                    self.invites_where(claimed)[k],
                ),
    {
        let ghost start = rows@;
        let ghost pred = |inv: Invite| self.is_claimed(inv.id@) == claimed;
        let mut i: usize = 0;
        while i < self.invites.len()
            invariant
                0 <= i <= self.invites@.len(),
                pred == (|inv: Invite| self.is_claimed(inv.id@) == claimed),
                rows@.len() == start.len() + self.invites@.subrange(0, i as int).filter(pred).len(),
                rows@.subrange(0, start.len() as int) == start,
                forall|k: int|
                    0 <= k < self.invites@.subrange(0, i as int).filter(pred).len() ==> self.lists(
                        #[trigger] rows@[start.len() + k],
                        self.invites@.subrange(0, i as int).filter(pred)[k],
                    ),
            decreases self.invites@.len() - i,
        {
            let ghost prefix = self.invites@.subrange(0, i as int);
            let ghost next = self.invites@.subrange(0, i + 1);
            assert(next =~= prefix.push(self.invites@[i as int]));
            proof { prefix.lemma_filter_push(self.invites@[i as int], pred); }
            let inv = &self.invites[i];
            let owner = self.find_claimant(&inv.id);
            let is_claimed = owner.is_some();
            if is_claimed == claimed {
                let claimed_by = match owner {
                    None => None,
                    Some(u) => Some(self.users[u].username.clone()),
                };
                let ghost before = rows@;
                rows.push(InviteRow { id: inv.id.clone(), created: inv.created, claimed_by });
                proof {
                    assert(next.filter(pred) == prefix.filter(pred).push(*inv));
                    assert forall|k: int| 0 <= k < next.filter(pred).len() implies self.lists(
                        #[trigger] rows@[start.len() + k],
                        next.filter(pred)[k],
                    ) by {
                        if k < prefix.filter(pred).len() {
                            assert(rows@[start.len() + k] == before[start.len() + k]);
                        }
                    }
                    assert(rows@.subrange(0, start.len() as int) =~= before.subrange(0, start.len() as int));
                }
            } else {
                assert(next.filter(pred) == prefix.filter(pred));
            }
            i = i + 1;
        }
        assert(self.invites@.subrange(0, self.invites@.len() as int) =~= self.invites@);
    }

    /// Lists every invite, for an owner only (`Unauthorized` otherwise): first the
    /// unconsumed ones, then the consumed ones with the name of the account that
    /// consumed each, both groups in creation order.
    pub fn get_all_invites(&self, claims: &Claims) -> (r: Result<Vec<InviteRow>, DimError>)
        ensures
            !claims.roles@.contains(Role::Owner) ==> r == Err::<Vec<InviteRow>, DimError>(
                DimError::Unauthorized,
            ),
            claims.roles@.contains(Role::Owner) ==> (r matches Ok(rows) && {
                let open = self.invites_where(false);
                let taken = self.invites_where(true);
                &&& rows@.len() == open.len() + taken.len()
                &&& forall|k: int| 0 <= k < open.len() ==> self.lists(#[trigger] rows@[k], open[k])
                &&& forall|k: int|
                    0 <= k < taken.len() ==> self.lists(#[trigger] rows@[open.len() + k], taken[k])
            }),
    {
        if !claims.has_role(Role::Owner) {
            return Err(DimError::Unauthorized);
        }
        let mut rows: Vec<InviteRow> = Vec::new();
        self.push_rows(false, &mut rows);
        let ghost first = rows@;
        self.push_rows(true, &mut rows);
        proof {
            let open = self.invites_where(false);
            assert forall|k: int| 0 <= k < open.len() implies self.lists(#[trigger] rows@[k], open[k]) by {
                assert(rows@[k] == rows@.subrange(0, first.len() as int)[k]);
                assert(first[0 + k] == first[k]);
            }
        }
        Ok(rows)
    }
}

/// Changing fields of accounts other than name, consumed invite and roles keeps the invariant.
proof fn lemma_same_keys(old: Directory, new: Directory)
    requires
        old.wf(),
        new.invites == old.invites,
        new.users@.len() == old.users@.len(),
        forall|i: int|
            0 <= i < old.users@.len() ==> (#[trigger] new.users@[i]).username == old.users@[i].username
                && new.users@[i].claimed_invite == old.users@[i].claimed_invite
                && new.users@[i].roles == old.users@[i].roles,
    ensures
        new.wf(),
{
    assert forall|a: int, b: int| 0 <= a < b < new.users@.len() implies (#[trigger] new.users@[a]).username@ != (#[trigger] new.users@[b]).username@ && new.users@[a].claimed_invite@ != new.users@[b].claimed_invite@ by {
        assert(old.users@[a].username@ != old.users@[b].username@);
    }
    assert forall|a: int| 0 <= a < new.users@.len() implies new.has_invite((#[trigger] new.users@[a]).claimed_invite@) by {
        assert(old.has_invite(old.users@[a].claimed_invite@));
    }
}

/// Names are unique, and a name that is taken cannot be registered again: such a
/// registration fails and leaves the tables as they were.
pub proof fn lemma_taken_name_rejected(
    d: Directory,
    new: Directory,
    username: String,
    password: Seq<char>,
    token: Option<String>,
    fresh_invite: String,
    salt: Seq<char>,
    now: u64,
    r: Result<String, DimError>,
)
    requires
        d.wf(),
        d.has_user(username@),
        d.register_effect(new, username, password, token, fresh_invite, salt, now, r),
    ensures
        r.is_err(),
        new == d,
        forall|i: int, j: int|
            0 <= i < d.users@.len() && 0 <= j < d.users@.len() && (#[trigger] d.users@[i]).username@
                == (#[trigger] d.users@[j]).username@ ==> i == j,
{
    assert forall|i: int, j: int|
        0 <= i < d.users@.len() && 0 <= j < d.users@.len() && (#[trigger] d.users@[i]).username@
            == (#[trigger] d.users@[j]).username@ implies i == j by {
        if i < j {
            assert(d.users@[i].username@ != d.users@[j].username@);
        } else if j < i {
            assert(d.users@[j].username@ != d.users@[i].username@);
        }
    }
}

/// The first registration, against no accounts and with no invite token, succeeds
/// and makes the owner (given that the drawn invite id is not already in use).
pub proof fn lemma_first_registration_is_owner(
    d: Directory,
    new: Directory,
    username: String,
    password: Seq<char>,
    fresh_invite: String,
    salt: Seq<char>,
    now: u64,
    r: Result<String, DimError>,
)
    requires
        d.wf(),
        d.bootstrap(),
        !d.has_invite(fresh_invite@),
        d.register_effect(new, username, password, None, fresh_invite, salt, now, r),
    ensures
        r == Ok::<String, DimError>(username),
        new.users@.len() == 1,
        new.users@[0].username == username,
        new.users@[0].roles@ == seq![Role::Owner],
{
}

/// Once an account exists, a registration without a valid unconsumed invite
/// fails with `NoToken` and adds no account.
pub proof fn lemma_registration_needs_invite(
    d: Directory,
    new: Directory,
    username: String,
    password: Seq<char>,
    token: Option<String>,
    fresh_invite: String,
    salt: Seq<char>,
    now: u64,
    r: Result<String, DimError>,
)
    requires
        d.wf(),
        !d.bootstrap(),
        match token {
            None => true,
            Some(t) => !d.valid_unclaimed(t@),
        },
        d.register_effect(new, username, password, token, fresh_invite, salt, now, r),
    ensures
        r == Err::<String, DimError>(DimError::NoToken),
        new == d,
{
}

/// An invite is consumed at most once: of two registrations with the same token,
/// run one after the other as the single writer orders them, once the first has
/// succeeded the second fails with `NoToken` and changes nothing.
pub proof fn lemma_invite_single_use(
    d0: Directory,
    d1: Directory,
    d2: Directory,
    token: String,
    username1: String,
    password1: Seq<char>,
    fresh1: String,
    salt1: Seq<char>,
    now1: u64,
    r1: Result<String, DimError>,
    token2: String,
    username2: String,
    password2: Seq<char>,
    fresh2: String,
    salt2: Seq<char>,
    now2: u64,
    r2: Result<String, DimError>,
)
    requires
        d0.wf(),
        !d0.bootstrap(),
        d0.register_effect(d1, username1, password1, Some(token), fresh1, salt1, now1, r1),
        r1.is_ok(),
        token2@ == token@,
        d1.register_effect(d2, username2, password2, Some(token2), fresh2, salt2, now2, r2),
    ensures
        d1.is_claimed(token@),
        r2 == Err::<String, DimError>(DimError::NoToken),
        d2 == d1,
{
    let last = d1.users@.len() - 1;
    assert(d1.users@[last].claimed_invite@ == token@);
}

/// Forwarded-user login is idempotent: after a first successful call for a name,
/// a second call for the same name changes nothing, both give a token for that
/// name, and exactly one account carries it.
pub proof fn lemma_forwarded_login_idempotent(
    d0: Directory,
    d1: Directory,
    d2: Directory,
    username: String,
    secret: Seq<u8>,
    now1: u64,
    password1: Seq<char>,
    salt1: Seq<char>,
    fresh1: String,
    r1: Result<Token, HeadersLoginError>,
    username2: String,
    now2: u64,
    password2: Seq<char>,
    salt2: Seq<char>,
    fresh2: String,
    r2: Result<Token, HeadersLoginError>,
)
    requires
        d0.wf(),
        d1.wf(),
        d0.headers_login_effect(d1, true, username, secret, now1, password1, salt1, fresh1, r1),
        r1.is_ok(),
        username2@ == username@,
        d1.headers_login_effect(d2, true, username2, secret, now2, password2, salt2, fresh2, r2),
    ensures
        d2 == d1,
        d2.has_user(username@),
        r1 matches Ok(t) && t.username@ == username@,
        r2 matches Ok(t) && t.username@ == username@,
        forall|i: int, j: int|
            0 <= i < d2.users@.len() && 0 <= j < d2.users@.len() && (#[trigger] d2.users@[i]).username@
                == username@ && (#[trigger] d2.users@[j]).username@ == username@ ==> i == j,
{
    if !d0.has_user(username@) {
        let last = d1.users@.len() - 1;
        assert(d1.users@[last].username@ == username@);
    }
    assert forall|i: int, j: int|
        0 <= i < d2.users@.len() && 0 <= j < d2.users@.len() && (#[trigger] d2.users@[i]).username@
            == username@ && (#[trigger] d2.users@[j]).username@ == username@ implies i == j by {
        if i < j {
            assert(d2.users@[i].username@ != d2.users@[j].username@);
        } else if j < i {
            assert(d2.users@[j].username@ != d2.users@[i].username@);
        }
    }
}

} // verus!
