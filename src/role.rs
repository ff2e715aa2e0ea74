//! Roles that an account can hold, and the capability check over a role set.
use vstd::prelude::*;

verus! {

/// A role tag. The set of roles is closed: a new one cannot come from a typo.
#[derive(Clone, Copy, Debug, PartialEq, Eq, Structural)]
pub enum Role {
    /// The bootstrap administrator: may list, create and delete invites.
    Owner,
    /// An ordinary account created through an invite or a trusted proxy.
    User,
}

/// Whether `roles` grants `role`.
pub fn has_role(roles: &Vec<Role>, role: Role) -> (r: bool)
    ensures
        r == roles@.contains(role),
{
    let mut i: usize = 0;
    while i < roles.len()
        invariant
            0 <= i <= roles@.len(),
            forall|j: int| 0 <= j < i ==> roles@[j] != role,
        decreases roles@.len() - i,
    {
        if roles[i] == role {
            assert(roles@[i as int] == role);
            return true;
        }
        i = i + 1;
    }
    false
}

} // verus!
