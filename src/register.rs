//! Registration decisions: which face a request resolves to, and whether a
//! font file needs loading at all.

use vstd::prelude::*;

verus! {

#[derive(Clone, Copy, Debug, PartialEq, Eq, Structural)]
pub enum FontError {
    /// Not even a sans-serif face is registered.
    InitializationFailure,
    /// A face's data does not parse.
    UnparsableFace,
}

#[derive(Clone, Copy, Debug, PartialEq, Eq, Structural)]
pub enum RegistrationError {
    /// Font files cannot be read on this platform.
    FilesystemUnavailable,
}

#[derive(Clone, Copy, Debug, PartialEq, Eq, Structural)]
pub enum PathRegistration {
    /// The file is registered already; nothing is to be done.
    AlreadyRegistered,
    /// The file is to be loaded into the font database.
    Load,
}

/// The face a request resolves to: the face found for its family, or else
/// the generic sans-serif face, which must exist.
pub fn resolve_face(by_family: Option<u32>, by_sans_serif: Option<u32>) -> (r: Result<u32, FontError>)
    ensures
        by_family matches Some(f) ==> r == Ok::<u32, FontError>(f),
        by_family is None && by_sans_serif is Some ==> r == Ok::<u32, FontError>(
            by_sans_serif->Some_0,
        ),
        by_family is None && by_sans_serif is None ==> r == Err::<u32, FontError>(
            FontError::InitializationFailure,
        ),
{
    match by_family {
        Some(f) => Ok(f),
        None => match by_sans_serif {
            Some(s) => Ok(s),
            None => Err(FontError::InitializationFailure),
        },
    }
}

/// How to register the font file at `path` (canonicalised when possible),
/// given the files the font database holds: registering a file twice is a
/// no-op, and without a file system it is an error.
pub fn register_font_from_path(registered: &Vec<String>, path: &String, filesystem: bool) -> (r:
    Result<PathRegistration, RegistrationError>)
    ensures
        !filesystem ==> r == Err::<PathRegistration, RegistrationError>(
            RegistrationError::FilesystemUnavailable,
        ),
        filesystem ==> r == Ok::<PathRegistration, RegistrationError>(
            if exists|i: int| 0 <= i < registered@.len() && registered@[i]@ == path@ {
                PathRegistration::AlreadyRegistered
            } else {
                PathRegistration::Load
            },
        ),
{
    if !filesystem {
        return Err(RegistrationError::FilesystemUnavailable);
    }
    let mut i: usize = 0;
    while i < registered.len()
        invariant
            filesystem,
            i <= registered@.len(),
            forall|j: int| 0 <= j < i ==> registered@[j]@ != path@,
        decreases registered@.len() - i,
    {
        if registered[i] == *path {
            return Ok(PathRegistration::AlreadyRegistered);
        }
        i = i + 1;
    }
    Ok(PathRegistration::Load)
}

} // verus!
