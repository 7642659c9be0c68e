//! The checks a listing or a search makes on its path before reading it,
//! and the errors they give.
use vstd::prelude::*;

verus! {

/// The filesystem change that a check guards.
#[derive(PartialEq, Eq, Structural, Clone, Copy)]
pub enum Mutation {
    CreateFile,
    CreateDirectory,
    Rename,
}

pub enum FsError {
    PathNotFound,
    PathNotADirectory,
    /// The directory exists but could not be read; holds the cause.
    ReadFailure(String),
    /// The target of a create or rename exists already; holds the change
    /// and the target's name.
    AlreadyExists(Mutation, String),
    /// The item to rename or delete does not exist; holds its path.
    ItemMissing(String),
    /// The item to rename has no parent directory.
    ParentMissing,
}

/// A path may be listed or searched only if it exists and is a directory.
pub fn check_directory(exists: bool, is_directory: bool) -> (r: Result<(), FsError>)
    ensures
        !exists ==> r matches Err(FsError::PathNotFound),
        exists && !is_directory ==> r matches Err(FsError::PathNotADirectory),
        exists && is_directory ==> r is Ok,
{
    if !exists {
        Err(FsError::PathNotFound)
    } else if !is_directory {
        Err(FsError::PathNotADirectory)
    } else {
        Ok(())
    }
}

/// A create or rename may go ahead only where nothing named `name` exists.
pub fn check_absent(exists: bool, op: Mutation, name: String) -> (r: Result<(), FsError>)
    ensures
        exists ==> r == Err::<(), FsError>(FsError::AlreadyExists(op, name)),
        !exists ==> r is Ok,
{
    if exists {
        Err(FsError::AlreadyExists(op, name))
    } else {
        Ok(())
    }
}

/// A rename or delete may go ahead only where the item at `path` exists.
pub fn check_present(exists: bool, path: String) -> (r: Result<(), FsError>)
    ensures
        !exists ==> r == Err::<(), FsError>(FsError::ItemMissing(path)),
        exists ==> r is Ok,
{
    if exists {
        Ok(())
    } else {
        Err(FsError::ItemMissing(path))
    }
}

/// The message for a target that exists already, by the change refused.
pub open spec fn exists_text(op: Mutation, n: Seq<char>) -> Seq<char> {
    match op {
        Mutation::CreateFile => "File already exists: "@ + n,
        Mutation::CreateDirectory => "Directory already exists: "@ + n,
        Mutation::Rename => "Item with name '"@ + n + "' already exists"@,
    }
}

impl FsError {
    /// The message a listing reports for this error.
    pub fn listing_message(&self) -> (r: String)
        ensures
            r@ == (match self {
                FsError::PathNotFound => "Directory does not exist"@,
                FsError::PathNotADirectory => "Path is not a directory"@,
                FsError::ReadFailure(c) => "Failed to read directory: "@ + c@,
                FsError::AlreadyExists(op, n) => exists_text(*op, n@),
                FsError::ItemMissing(p) => "Item does not exist: "@ + p@,
                FsError::ParentMissing => "Cannot determine parent directory"@,
            }),
    {
        match self {
            FsError::PathNotFound => String::from_str("Directory does not exist"),
            FsError::PathNotADirectory => String::from_str("Path is not a directory"),
            FsError::ReadFailure(c) => String::from_str("Failed to read directory: ").concat(c.as_str()),
            FsError::AlreadyExists(op, n) => match op {
                Mutation::CreateFile => String::from_str("File already exists: ").concat(n.as_str()),
                Mutation::CreateDirectory => String::from_str("Directory already exists: ").concat(n.as_str()),
                Mutation::Rename => String::from_str("Item with name '").concat(n.as_str()).concat("' already exists"),
            },
            FsError::ItemMissing(p) => String::from_str("Item does not exist: ").concat(p.as_str()),
            FsError::ParentMissing => String::from_str("Cannot determine parent directory"),
        }
    }

    /// The message a search reports for this error.
    pub fn search_message(&self) -> (r: String)
        ensures
            r@ == (match self {
                FsError::PathNotFound => "Search path does not exist"@,
                FsError::PathNotADirectory => "Search path is not a directory"@,
                FsError::ReadFailure(c) => "Failed to read directory: "@ + c@,
                FsError::AlreadyExists(op, n) => exists_text(*op, n@),
                FsError::ItemMissing(p) => "Item does not exist: "@ + p@,
                FsError::ParentMissing => "Cannot determine parent directory"@,
            }),
    {
        match self {
            FsError::PathNotFound => String::from_str("Search path does not exist"),
            FsError::PathNotADirectory => String::from_str("Search path is not a directory"),
            _ => self.listing_message(),
        }
    }
}

} // verus!
