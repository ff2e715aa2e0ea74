use dim_auth::credential::{hash_password, verify};
use dim_auth::directory::Directory;
use dim_auth::error::{DimError, ForwardAuthError, HeadersLoginError};
use dim_auth::random::{new_invite_id, new_random_password, new_salt};
use dim_auth::role::{has_role, Role};
use dim_auth::token::{issue_token, verify_token, Claims, TOKEN_LIFETIME_SECS};

fn secret() -> Vec<u8> {
    b"signing-secret".to_vec()
}

fn claims_of(d: &Directory, name: &str, now: u64) -> Claims {
    let i = d.find_user(&name.to_string()).unwrap();
    let t = issue_token(&secret(), &d.users[i].username, &d.users[i].roles, now);
    verify_token(&secret(), &t, now).unwrap()
}

fn with_owner() -> Directory {
    let mut d = Directory::new();
    let r = d.register(
        "alice".to_string(),
        "pw-alice".to_string(),
        None,
        "boot-invite".to_string(),
        "salt-a".to_string(),
        100,
    );
    assert_eq!(r, Ok("alice".to_string()));
    d
}

#[test]
fn first_registration_becomes_owner_without_token() {
    let d = with_owner();
    assert_eq!(d.users.len(), 1);
    assert_eq!(d.users[0].roles, vec![Role::Owner]);
    assert_eq!(d.users[0].claimed_invite, "boot-invite");
    assert_eq!(d.invites.len(), 1);
    assert!(d.admin_exists());
}

#[test]
fn empty_directory_has_no_admin() {
    assert!(!Directory::new().admin_exists());
}

#[test]
fn registration_without_token_fails_once_users_exist() {
    let mut d = with_owner();
    let r = d.register("bob".to_string(), "pw".to_string(), None, "x".to_string(), "s".to_string(), 200);
    assert_eq!(r, Err(DimError::NoToken));
    assert_eq!(d.users.len(), 1);
    let r = d.register(
        "bob".to_string(),
        "pw".to_string(),
        Some("unknown".to_string()),
        "x".to_string(),
        "s".to_string(),
        200,
    );
    assert_eq!(r, Err(DimError::NoToken));
    assert_eq!(d.users.len(), 1);
}

#[test]
fn invite_is_consumed_once() {
    let mut d = with_owner();
    let owner = claims_of(&d, "alice", 150);
    assert_eq!(d.generate_invite(&owner, "inv-1".to_string(), 150), Ok("inv-1".to_string()));
    assert!(d.invite_token_valid(&"inv-1".to_string()));
    let r1 = d.register(
        "bob".to_string(),
        "pw-bob".to_string(),
        Some("inv-1".to_string()),
        "x".to_string(),
        "s".to_string(),
        200,
    );
    assert_eq!(r1, Ok("bob".to_string()));
    assert_eq!(d.users[1].roles, vec![Role::User]);
    assert_eq!(d.users[1].claimed_invite, "inv-1");
    let r2 = d.register(
        "carol".to_string(),
        "pw-carol".to_string(),
        Some("inv-1".to_string()),
        "y".to_string(),
        "s".to_string(),
        201,
    );
    assert_eq!(r2, Err(DimError::NoToken));
    assert_eq!(d.users.len(), 2);
    assert!(!d.invite_token_valid(&"inv-1".to_string()));
}

#[test]
fn taken_username_is_rejected() {
    let mut d = with_owner();
    let owner = claims_of(&d, "alice", 150);
    d.generate_invite(&owner, "inv-1".to_string(), 150).unwrap();
    let r = d.register(
        "alice".to_string(),
        "other".to_string(),
        Some("inv-1".to_string()),
        "x".to_string(),
        "s".to_string(),
        200,
    );
    assert_eq!(r, Err(DimError::UsernameNotAvailable));
    assert_eq!(d.users.len(), 1);
    assert!(d.invite_token_valid(&"inv-1".to_string()));
}

#[test]
fn bootstrap_with_colliding_invite_id_fails() {
    let mut d = with_owner();
    let alice = claims_of(&d, "alice", 150);
    assert_eq!(d.user_delete_self(&alice, &"pw-alice".to_string()), Ok(()));
    assert!(!d.admin_exists());
    let r = d.register("dan".to_string(), "pw".to_string(), None, "boot-invite".to_string(), "s".to_string(), 300);
    assert_eq!(r, Err(DimError::DuplicateKey));
    assert_eq!(d.users.len(), 0);
}

#[test]
fn login_checks_password() {
    let d = with_owner();
    let t = d.login(&"alice".to_string(), &"pw-alice".to_string(), &secret(), 1000).unwrap();
    assert_eq!(t.username, "alice");
    assert_eq!(t.roles, vec![Role::Owner]);
    assert_eq!(t.exp, 1000 + TOKEN_LIFETIME_SECS);
    assert_eq!(
        d.login(&"alice".to_string(), &"wrong".to_string(), &secret(), 1000).err(),
        Some(DimError::InvalidCredentials)
    );
    assert_eq!(
        d.login(&"nobody".to_string(), &"pw-alice".to_string(), &secret(), 1000).err(),
        Some(DimError::InvalidCredentials)
    );
}

#[test]
fn issue_then_verify_round_trips() {
    let roles = vec![Role::Owner, Role::User];
    let t = issue_token(&secret(), &"alice".to_string(), &roles, 5000);
    assert_eq!(t.signature.len(), 32);
    let c = verify_token(&secret(), &t, 5001).unwrap();
    assert_eq!(c.username, "alice");
    assert_eq!(c.roles, roles);
    assert_eq!(c.exp, 5000 + 604800);
    assert!(c.has_role(Role::Owner));
    assert_eq!(c.get_user(), "alice");
}

#[test]
fn expired_token_fails() {
    let t = issue_token(&secret(), &"alice".to_string(), &vec![Role::User], 10);
    assert_eq!(verify_token(&secret(), &t, 10 + TOKEN_LIFETIME_SECS).err(), Some(DimError::Unauthenticated));
}

#[test]
fn tampered_token_fails() {
    let mut t = issue_token(&secret(), &"bob".to_string(), &vec![Role::User], 10);
    t.roles = vec![Role::Owner];
    assert_eq!(verify_token(&secret(), &t, 11).err(), Some(DimError::Unauthenticated));
    let mut t2 = issue_token(&secret(), &"bob".to_string(), &vec![Role::User], 10);
    t2.username = "bobby".to_string();
    assert_eq!(verify_token(&secret(), &t2, 11).err(), Some(DimError::Unauthenticated));
    let t3 = issue_token(&secret(), &"bob".to_string(), &vec![Role::User], 10);
    assert_eq!(verify_token(&b"other-secret".to_vec(), &t3, 11).err(), Some(DimError::Unauthenticated));
}

#[test]
fn signatures_depend_on_claims() {
    let a = issue_token(&secret(), &"a".to_string(), &vec![Role::User], 10);
    let b = issue_token(&secret(), &"b".to_string(), &vec![Role::User], 10);
    assert_ne!(a.signature, b.signature);
}

#[test]
fn forwarded_login_is_idempotent() {
    let mut d = with_owner();
    let t1 = d
        .headers_login(true, "proxy-user".to_string(), &secret(), 500, new_random_password(), new_salt(), "fwd-1".to_string())
        .unwrap();
    assert_eq!(d.users.len(), 2);
    assert_eq!(d.users[1].roles, vec![Role::User]);
    let t2 = d
        .headers_login(true, "proxy-user".to_string(), &secret(), 600, new_random_password(), new_salt(), "fwd-2".to_string())
        .unwrap();
    assert_eq!(d.users.len(), 2);
    assert_eq!(d.invites.len(), 2);
    assert_eq!(t1.username, "proxy-user");
    assert_eq!(t2.username, "proxy-user");
}

#[test]
fn forwarded_login_disabled() {
    let mut d = with_owner();
    let r = d.headers_login(false, "x".to_string(), &secret(), 1, "p".to_string(), "s".to_string(), "i".to_string());
    assert_eq!(r.err(), Some(HeadersLoginError::ForwardAuthError(ForwardAuthError::ForwardAuthDisabled)));
    assert_eq!(d.users.len(), 1);
}

#[test]
fn forwarded_login_of_existing_user_keeps_roles() {
    let mut d = with_owner();
    let t = d.headers_login(true, "alice".to_string(), &secret(), 1, "p".to_string(), "s".to_string(), "i".to_string()).unwrap();
    assert_eq!(t.roles, vec![Role::Owner]);
    assert_eq!(d.invites.len(), 1);
}

#[test]
fn delete_with_wrong_password_keeps_account() {
    let mut d = with_owner();
    let alice = claims_of(&d, "alice", 150);
    assert_eq!(d.user_delete_self(&alice, &"nope".to_string()), Err(DimError::InvalidCredentials));
    assert_eq!(d.users.len(), 1);
    assert_eq!(d.user_delete_self(&alice, &"pw-alice".to_string()), Ok(()));
    assert_eq!(d.users.len(), 0);
}

#[test]
fn change_password_requires_old_one() {
    let mut d = with_owner();
    let alice = claims_of(&d, "alice", 150);
    assert_eq!(
        d.user_change_password(&alice, &"bad".to_string(), &"new".to_string(), "s2".to_string()),
        Err(DimError::InvalidCredentials)
    );
    assert_eq!(d.user_change_password(&alice, &"pw-alice".to_string(), &"new".to_string(), "s2".to_string()), Ok(()));
    assert!(d.login(&"alice".to_string(), &"new".to_string(), &secret(), 1).is_ok());
    assert!(d.login(&"alice".to_string(), &"pw-alice".to_string(), &secret(), 1).is_err());
}

#[test]
fn rename_into_taken_name_fails() {
    let mut d = with_owner();
    let owner = claims_of(&d, "alice", 150);
    d.generate_invite(&owner, "inv".to_string(), 150).unwrap();
    d.register("bob".to_string(), "pw".to_string(), Some("inv".to_string()), "x".to_string(), "s".to_string(), 2).unwrap();
    assert_eq!(d.user_change_username(&owner, "bob".to_string()), Err(DimError::UsernameNotAvailable));
    assert_eq!(d.user_change_username(&owner, "alicia".to_string()), Ok(()));
    assert_eq!(d.users[0].username, "alicia");
    assert_eq!(d.user_change_username(&owner, "zed".to_string()), Err(DimError::NotFound));
}

#[test]
fn avatar_is_set() {
    let mut d = with_owner();
    let alice = claims_of(&d, "alice", 150);
    assert_eq!(d.user_upload_avatar(&alice, "abc.png".to_string()), Ok(()));
    assert_eq!(d.users[0].picture, Some("abc.png".to_string()));
    let mut ghost = alice;
    ghost.username = "ghost".to_string();
    assert_eq!(d.user_upload_avatar(&ghost, "x.png".to_string()), Err(DimError::NotFound));
}

#[test]
fn invite_management_is_owner_only() {
    let mut d = with_owner();
    let owner = claims_of(&d, "alice", 150);
    d.generate_invite(&owner, "inv".to_string(), 150).unwrap();
    d.register("bob".to_string(), "pw".to_string(), Some("inv".to_string()), "x".to_string(), "s".to_string(), 2).unwrap();
    let bob = claims_of(&d, "bob", 150);
    assert_eq!(d.generate_invite(&bob, "inv2".to_string(), 1), Err(DimError::Unauthorized));
    assert_eq!(d.get_all_invites(&bob).err(), Some(DimError::Unauthorized));
    assert_eq!(d.delete_invite(&bob, &"inv".to_string()), Err(DimError::Unauthorized));
    assert_eq!(d.generate_invite(&owner, "inv".to_string(), 1), Err(DimError::DuplicateKey));
}

#[test]
fn delete_invite_cases() {
    let mut d = with_owner();
    let owner = claims_of(&d, "alice", 150);
    d.generate_invite(&owner, "open".to_string(), 150).unwrap();
    assert_eq!(d.delete_invite(&owner, &"missing".to_string()), Err(DimError::NotFound));
    assert_eq!(d.delete_invite(&owner, &"boot-invite".to_string()), Err(DimError::InviteClaimed));
    assert_eq!(d.delete_invite(&owner, &"open".to_string()), Ok(()));
    assert!(!d.invite_token_valid(&"open".to_string()));
    assert_eq!(d.invites.len(), 1);
}

#[test]
fn invite_listing_groups_and_orders() {
    let mut d = with_owner();
    let owner = claims_of(&d, "alice", 150);
    d.generate_invite(&owner, "late".to_string(), 900).unwrap();
    d.generate_invite(&owner, "early".to_string(), 300).unwrap();
    d.generate_invite(&owner, "mid".to_string(), 500).unwrap();
    d.register("bob".to_string(), "pw".to_string(), Some("mid".to_string()), "x".to_string(), "s".to_string(), 2).unwrap();
    let rows = d.get_all_invites(&owner).unwrap();
    let ids: Vec<&str> = rows.iter().map(|r| r.id.as_str()).collect();
    assert_eq!(ids, vec!["early", "late", "boot-invite", "mid"]);
    assert_eq!(rows[0].claimed_by, None);
    assert_eq!(rows[2].claimed_by, Some("alice".to_string()));
    assert_eq!(rows[3].claimed_by, Some("bob".to_string()));
    assert_eq!(rows[3].created, 500);
}

#[test]
fn password_hash_verifies() {
    let c = hash_password(&"hunter2".to_string(), "salt".to_string());
    assert_eq!(c.hash.len(), 32);
    assert_ne!(c.hash, b"hunter2".to_vec());
    assert!(verify(&c, &"hunter2".to_string()));
    assert!(!verify(&c, &"hunter3".to_string()));
    let other = hash_password(&"hunter2".to_string(), "pepper".to_string());
    assert_ne!(c.hash, other.hash);
}

#[test]
fn random_values_have_expected_shape() {
    let p = new_random_password();
    assert_eq!(p.len(), 20);
    assert!(p.chars().all(|c| c.is_ascii_alphanumeric()));
    assert_eq!(new_salt().len(), 16);
    let id = new_invite_id();
    assert_eq!(id.len(), 36);
    assert_ne!(id, new_invite_id());
}

#[test]
fn role_membership() {
    assert!(has_role(&vec![Role::User, Role::Owner], Role::Owner));
    assert!(!has_role(&vec![Role::User], Role::Owner));
    assert!(!has_role(&vec![], Role::User));
}
