use vstd::prelude::*;

verus! {

/// The reason a filesystem operation is refused.
#[derive(Clone, Copy, Debug, PartialEq, Eq, Structural)]
pub enum IoFault {
    /// The path, or its parent, does not exist.
    NotFound,
    /// Something already exists at the path.
    AlreadyExists,
    /// A directory was needed and a file was found.
    NotADirectory,
    /// A file was needed and a directory was found.
    IsADirectory,
    /// A directory that still has entries was to be removed.
    DirectoryNotEmpty,
}

/// Everything that can go wrong in the library.
#[derive(Debug)]
pub enum ToryggError {
    ModAlreadyExists,
    ProfileAlreadyExists,
    IsDeployed,
    IsNotDeployed,
    FailedToSpawnChild,
    ChildFailed,
    SteamLibraryNotFound,
    PrefixNotFound,
    NotADirectory(String),
    DirectoryNotFound(String),
    IOError(IoFault),
    Other(String),
    Unknown,
}

} // verus!
