//! Identity subsystem of a self-hosted media server: credential checks,
//! signed session tokens, role-based authorization, the invite-gated
//! registration flow, and the insert-or-get discipline of the data layer.
use vstd::prelude::*;

pub mod error;
pub mod role;
pub mod token;
pub mod credential;
pub mod random;
pub mod directory;
pub mod retry;
pub mod media;
pub mod profile;

verus! {

} // verus!
