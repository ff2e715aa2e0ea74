//! What the profile endpoints decide: the profile summary of the caller, and
//! which uploaded files are accepted as avatars.
use vstd::prelude::*;
use crate::error::DimError;
use crate::role::Role;
use crate::token::Claims;

verus! {

/// Seconds in an hour.
pub const SECS_PER_HOUR: u64 = 3600;

/// The profile summary of an account.
pub struct Profile {
    /// Local path of the profile picture, when one could be found.
    pub picture: Option<String>,
    /// Whole hours spent watching.
    pub spent_watching: u64,
    pub username: String,
    pub roles: Vec<Role>,
}

/// The summary for the holder of `claims`, given what storage could find of
/// their picture and of their watching time in seconds. A lookup that found
/// nothing leaves the field out (the picture) or counts as zero (the time).
pub fn whoami(claims: &Claims, picture: Option<String>, watched_secs: Option<u64>) -> (p: Profile)
    ensures
        p.picture == picture,
        p.spent_watching == match watched_secs {
            Some(s) => s / SECS_PER_HOUR,
            None => 0,
        },
        p.username@ == claims.username@,
        p.roles@ == claims.roles@,
{
    let secs: u64 = match watched_secs {
        Some(s) => s,
        None => 0,
    };
    Profile {
        picture,
        spent_watching: secs / SECS_PER_HOUR,
        username: claims.get_user(),
        roles: claims.clone_roles(),
    }
}

/// The file extension under which an uploaded avatar part is stored: the part
/// must be the form field `file` (else `UploadFailed`) and a JPEG or PNG image
/// (else `UnsupportedFile`).
pub fn avatar_file_ext(part_name: &str, content_type: Option<&str>) -> (r: Result<String, DimError>)
    ensures
        part_name@ != "file"@ ==> r == Err::<String, DimError>(DimError::UploadFailed),
        part_name@ == "file"@ ==> match content_type {
            Some(ct) => if ct@ == "image/jpeg"@ || ct@ == "image/jpg"@ {
                r matches Ok(e) && e@ == "jpg"@
            } else if ct@ == "image/png"@ {
                r matches Ok(e) && e@ == "png"@
            } else {
                r == Err::<String, DimError>(DimError::UnsupportedFile)
            },
            None => r == Err::<String, DimError>(DimError::UnsupportedFile),
        },
{
    if part_name.to_owned() != "file".to_owned() {
        return Err(DimError::UploadFailed);
    }
    match content_type {
        None => Err(DimError::UnsupportedFile),
        Some(ct) => {
            let ct = ct.to_owned();
            if ct == "image/jpeg".to_owned() || ct == "image/jpg".to_owned() {
                Ok("jpg".to_owned())
            } else if ct == "image/png".to_owned() {
                Ok("png".to_owned())
            } else {
                Err(DimError::UnsupportedFile)
            }
        },
    }
}

} // verus!
