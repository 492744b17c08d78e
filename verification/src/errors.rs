//! Errors of the tree manager and the command layer. All of them are
//! recoverable: the shell turns each into a message and keeps running.

use vstd::prelude::*;

verus! {

/// Why a tree or command operation was refused.
#[derive(Debug, Clone, Copy, PartialEq, Eq, Structural)]
pub enum VfsError {
    /// A child insert or removal was attempted on a file inode.
    NotADirectory,
    /// A name lookup or removal found no child of that name.
    NotFound,
    /// A name was empty or contained a path separator.
    InvalidName,
    /// A command came with the wrong number of arguments.
    InvalidArgumentCount,
}

impl VfsError {
    /// The user-facing message of this error.
    pub fn message(&self) -> (m: &'static str)
        ensures
            *self is NotADirectory ==> m@ == "The hard link is a file, it should be a directory"@,
            *self is NotFound ==> m@ == "File or directory not found"@,
            *self is InvalidName ==> m@ == "Invalid name"@,
            *self is InvalidArgumentCount ==> m@ == "Invalid number of arguments"@,
    {
        match self {
            VfsError::NotADirectory => "The hard link is a file, it should be a directory",
            VfsError::NotFound => "File or directory not found",
            VfsError::InvalidName => "Invalid name",
            VfsError::InvalidArgumentCount => "Invalid number of arguments",
        }
    }
}

} // verus!
