//! Errors of the identity subsystem.
use vstd::prelude::*;

verus! {

/// The error taxonomy of the identity subsystem.
#[derive(Clone, Copy, Debug, PartialEq, Eq, Structural)]
pub enum DimError {
    /// Login or re-authentication failed.
    InvalidCredentials,
    /// Missing, invalid or expired token.
    Unauthenticated,
    /// Valid token, insufficient role.
    Unauthorized,
    /// Registration without a valid unclaimed invite.
    NoToken,
    /// The username is already taken.
    UsernameNotAvailable,
    /// An avatar upload could not be read.
    UploadFailed,
    /// An avatar upload is not an image of a supported kind.
    UnsupportedFile,
    /// The retry budget of a write transaction ran out.
    WriteConflict,
    /// The invite or user does not exist.
    NotFound,
    /// The invite has been claimed and cannot be deleted.
    InviteClaimed,
    /// A freshly drawn identifier collides with an existing one.
    DuplicateKey,
}

/// Errors of the forwarded-auth path alone.
#[derive(Clone, Copy, Debug, PartialEq, Eq, Structural)]
pub enum ForwardAuthError {
    /// Forwarded-user authentication is switched off.
    ForwardAuthDisabled,
}

/// Error of the forwarded-auth login: either the path is disabled, or a
/// general error came up while logging in or provisioning the account.
#[derive(Clone, Copy, Debug, PartialEq, Eq, Structural)]
pub enum HeadersLoginError {
    ForwardAuthError(ForwardAuthError),
    DimError(DimError),
}

impl From<DimError> for HeadersLoginError {
    fn from(e: DimError) -> (r: HeadersLoginError)
        ensures
            r == HeadersLoginError::DimError(e),
    {
        HeadersLoginError::DimError(e)
    }
}

impl vstd::std_specs::convert::FromSpecImpl<DimError> for HeadersLoginError {
    open spec fn obeys_from_spec() -> bool {
        true
    }

    open spec fn from_spec(e: DimError) -> HeadersLoginError {
        HeadersLoginError::DimError(e)
    }
}

impl From<ForwardAuthError> for HeadersLoginError {
    fn from(e: ForwardAuthError) -> (r: HeadersLoginError)
        ensures
            r == HeadersLoginError::ForwardAuthError(e),
    {
        HeadersLoginError::ForwardAuthError(e)
    }
}

impl vstd::std_specs::convert::FromSpecImpl<ForwardAuthError> for HeadersLoginError {
    open spec fn obeys_from_spec() -> bool {
        true
    }

    open spec fn from_spec(e: ForwardAuthError) -> HeadersLoginError {
        HeadersLoginError::ForwardAuthError(e)
    }
}

} // verus!
