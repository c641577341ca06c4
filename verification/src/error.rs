//! The failures that the planning functions report.

use vstd::prelude::*;

verus! {

/// Why a name was turned down.
#[derive(Clone, Copy, Debug, PartialEq, Eq, Structural)]
pub enum NameFault {
    /// The name has no characters.
    Empty,
    /// The name holds `/` or `\`.
    Separator,
    /// The name holds one of `< > : " | ? *`.
    ForbiddenChar,
}

/// A typed failure of a planning function.
#[derive(Clone, Copy, Debug, PartialEq, Eq, Structural)]
pub enum FsError {
    /// A new name is empty, holds a separator, or holds a forbidden character.
    InvalidName(NameFault),
    /// A path that has to name an entry ends in no usable name segment.
    InvalidSource,
    /// A path that has to be present is missing.
    NotFound,
    /// A path that has to be a directory is something else.
    NotADirectory,
    /// A directory would be moved into itself or below itself.
    SelfContainment,
    /// Every numbered variant of the wanted name is taken.
    NoAvailableName,
}

/// The text shown to a person for each failure.
pub open spec fn message_text(e: FsError) -> Seq<char> {
    match e {
        FsError::InvalidName(NameFault::Empty) => "Name cannot be empty"@,
        FsError::InvalidName(NameFault::Separator) => "Name cannot contain path separators"@,
        FsError::InvalidName(NameFault::ForbiddenChar) => "Name contains invalid characters"@,
        FsError::InvalidSource => "Invalid source name"@,
        FsError::NotFound => "Path does not exist"@,
        FsError::NotADirectory => "Path is not a directory"@,
        FsError::SelfContainment => "Cannot move a folder into itself"@,
        FsError::NoAvailableName => "Unable to find available name"@,
    }
}

impl FsError {
    /// A human-readable sentence for this failure.
    pub fn message(&self) -> (s: String)
        ensures
            s@ == message_text(*self),
    {
        let text = match self {
            FsError::InvalidName(NameFault::Empty) => "Name cannot be empty",
            FsError::InvalidName(NameFault::Separator) => "Name cannot contain path separators",
            FsError::InvalidName(NameFault::ForbiddenChar) => "Name contains invalid characters",
            FsError::InvalidSource => "Invalid source name",
            FsError::NotFound => "Path does not exist",
            FsError::NotADirectory => "Path is not a directory",
            FsError::SelfContainment => "Cannot move a folder into itself",
            FsError::NoAvailableName => "Unable to find available name",
        };
        String::from_str(text)
    }
}

} // verus!
