//! The decision core of the command shell: validating names, parsing a
//! tokenized command line into a shell command, and committing edited
//! text into the tree as a new file.
//!
//! The surrounding loop (reading lines, printing messages, running the
//! editor) stays outside; everything here is a total function from plain
//! values to plain values.

use vstd::prelude::*;
use vstd::string::StrSliceExecFns;

use crate::errors::VfsError;
use crate::serial::SerialAllocator;
use crate::types::FILE_OVERHEAD;
use crate::types::Inode;
use crate::types::add_spec;
use crate::types::new_file_view;
use crate::utils::str_eq;

verus! {

/// A parsed shell command, ready for the dispatcher to act on.
#[derive(Debug, PartialEq, Eq)]
pub enum ShellCommand {
    /// `help`, optionally with the command to explain.
    Help(Option<String>),
    /// `new file <name>`: edit and create a file of that name.
    NewFile(String),
    /// `new directory <name>`: create a directory of that name.
    NewDirectory(String),
    /// `remove <name>`: remove the child of that name.
    Remove(String),
    /// `exit`: leave the shell.
    Exit,
    /// Anything else: not a known command.
    Unknown,
}

/// Validity of a file or directory name: non-empty and free of path
/// separators, both `/` and `\`.
pub open spec fn valid_name_spec(name: Seq<char>) -> bool {
    &&& name.len() > 0
    &&& forall|j: int| 0 <= j < name.len() ==> name[j] != '/'
    &&& forall|j: int| 0 <= j < name.len() ==> name[j] != '\\'
}

/// Decides whether `name` may name a file or directory: it must be
/// non-empty and contain no path separator.
pub fn is_valid_name(name: &str) -> (r: bool)
    ensures
        r == valid_name_spec(name@),
{
    let n = name.unicode_len();
    if n == 0 {
        return false;
    }
    let mut i: usize = 0;
    while i < n
        invariant
            i <= n,
            n == name@.len(),
            forall|j: int| 0 <= j < i ==> name@[j] != '/' && name@[j] != '\\',
        decreases n - i,
    {
        let c = name.get_char(i);
        if c == '/' || c == '\\' {
            return false;
        }
        i = i + 1;
    }
    true
}

/// Parses a whitespace-split command line. An empty line and an unknown
/// first word give `Unknown`; `help` takes at most one argument; `new`
/// takes a kind (`file` or `directory`, anything else counts as wrong
/// arguments) and a valid name; `remove` takes exactly one name; `exit`
/// stands alone.
#[verifier::rlimit(60)]
pub fn parse_command(tokens: &Vec<String>) -> (r: Result<ShellCommand, VfsError>)
    ensures
        tokens.deep_view().len() == 0 ==> (r matches Ok(c) && c is Unknown),
        ({
            let ts = tokens.deep_view();
            ts.len() >= 1 && ts[0] == "help"@ ==> {
                &&& (ts.len() == 1 ==> (r matches Ok(c) && c matches ShellCommand::Help(t)
                    && t is None))
                &&& (ts.len() == 2 ==> (r matches Ok(c) && c matches ShellCommand::Help(t)
                    && t matches Some(topic) && topic@ == ts[1]))
                &&& (ts.len() > 2 ==> r == Err::<ShellCommand, VfsError>(
                    VfsError::InvalidArgumentCount,
                ))
            }
        }),
        ({
            let ts = tokens.deep_view();
            ts.len() >= 1 && ts[0] == "new"@ ==> {
                &&& (ts.len() != 3 ==> r == Err::<ShellCommand, VfsError>(
                    VfsError::InvalidArgumentCount,
                ))
                &&& (ts.len() == 3 && ts[1] == "file"@ && valid_name_spec(ts[2]) ==> (
                r matches Ok(c) && c matches ShellCommand::NewFile(name) && name@ == ts[2]))
                &&& (ts.len() == 3 && ts[1] == "file"@ && !valid_name_spec(ts[2]) ==> r == Err::<
                    ShellCommand,
                    VfsError,
                >(VfsError::InvalidName))
                &&& (ts.len() == 3 && ts[1] == "directory"@ && valid_name_spec(ts[2]) ==> (
                r matches Ok(c) && c matches ShellCommand::NewDirectory(name) && name@ == ts[2]))
                &&& (ts.len() == 3 && ts[1] == "directory"@ && !valid_name_spec(ts[2]) ==> r
                    == Err::<ShellCommand, VfsError>(VfsError::InvalidName))
                &&& (ts.len() == 3 && ts[1] != "file"@ && ts[1] != "directory"@ ==> r == Err::<
                    ShellCommand,
                    VfsError,
                >(VfsError::InvalidArgumentCount))
            }
        }),
        ({
            let ts = tokens.deep_view();
            ts.len() >= 1 && ts[0] == "remove"@ ==> {
                &&& (ts.len() == 2 ==> (r matches Ok(c) && c matches ShellCommand::Remove(name)
                    && name@ == ts[1]))
                &&& (ts.len() != 2 ==> r == Err::<ShellCommand, VfsError>(
                    VfsError::InvalidArgumentCount,
                ))
            }
        }),
        ({
            let ts = tokens.deep_view();
            ts.len() >= 1 && ts[0] == "exit"@ ==> (r matches Ok(c) && c is Exit)
        }),
        ({
            let ts = tokens.deep_view();
            ts.len() >= 1 && ts[0] != "help"@ && ts[0] != "new"@ && ts[0] != "remove"@
                && ts[0] != "exit"@ ==> (r matches Ok(c) && c is Unknown)
        }),
{
    proof {
        reveal_strlit("help");
        reveal_strlit("new");
        reveal_strlit("remove");
        reveal_strlit("exit");
        reveal_strlit("file");
        reveal_strlit("directory");
        // the command words are pairwise distinct: all pairs differ in
        // length except help / exit, which differ in their first character
        assert("help"@.len() == 4 && "new"@.len() == 3 && "remove"@.len() == 6 && "exit"@.len()
            == 4 && "file"@.len() == 4 && "directory"@.len() == 9);
        assert("help"@ != "exit"@) by {
            assert("help"@[0] == 'h');
            assert("exit"@[0] == 'e');
        }
        assert(tokens.deep_view().len() == tokens@.len());
        assert(forall|j: int| 0 <= j < tokens@.len()
            ==> #[trigger] tokens.deep_view()[j] == tokens@[j]@);
    }
    if tokens.len() == 0 {
        return Ok(ShellCommand::Unknown);
    }
    let head = tokens[0].as_str();
    if str_eq(head, "help") {
        if tokens.len() == 1 {
            Ok(ShellCommand::Help(None))
        } else if tokens.len() == 2 {
            Ok(ShellCommand::Help(Some(tokens[1].clone())))
        } else {
            Err(VfsError::InvalidArgumentCount)
        }
    } else if str_eq(head, "new") {
        if tokens.len() != 3 {
            return Err(VfsError::InvalidArgumentCount);
        }
        let kind = tokens[1].as_str();
        if str_eq(kind, "file") {
            if is_valid_name(tokens[2].as_str()) {
                Ok(ShellCommand::NewFile(tokens[2].clone()))
            } else {
                Err(VfsError::InvalidName)
            }
        } else if str_eq(kind, "directory") {
            if is_valid_name(tokens[2].as_str()) {
                Ok(ShellCommand::NewDirectory(tokens[2].clone()))
            } else {
                Err(VfsError::InvalidName)
            }
        } else {
            Err(VfsError::InvalidArgumentCount)
        }
    } else if str_eq(head, "remove") {
        if tokens.len() == 2 {
            Ok(ShellCommand::Remove(tokens[1].clone()))
        } else {
            Err(VfsError::InvalidArgumentCount)
        }
    } else if str_eq(head, "exit") {
        Ok(ShellCommand::Exit)
    } else {
        Ok(ShellCommand::Unknown)
    }
}

/// Commits an edited text into the tree: wraps `content` in a new file
/// inode named `name` and appends it to `parent`'s children, growing the
/// parent's size by the file's size. A serial number is consumed even
/// when the parent turns out to be a file and the insertion fails with
/// `NotADirectory`, leaving the parent unchanged.
pub fn create_new_file(
    name: String,
    content: String,
    parent: &mut Inode,
    alloc: &mut SerialAllocator,
    now: u64,
) -> (r: Result<(), VfsError>)
    requires
        old(parent).wf(),
        old(alloc).next < u64::MAX,
        FILE_OVERHEAD + content@.len() <= u64::MAX,
        old(parent)@.is_dir() ==> old(parent).size + FILE_OVERHEAD + content@.len() <= u64::MAX,
    ensures
        final(parent).wf(),
        final(alloc).next == old(alloc).next + 1,
        old(parent)@.is_dir() ==> r is Ok && final(parent)@ == add_spec(
            old(parent)@,
            new_file_view(name@, content@, old(alloc).next, now),
            now,
        ),
        !old(parent)@.is_dir() ==> r == Err::<(), VfsError>(VfsError::NotADirectory)
            && final(parent)@ == old(parent)@,
        old(parent)@.inv() ==> final(parent)@.inv(),
{
    let inode_file = Inode::new_file_with_data(name, content, alloc, now);
    if parent.is_file() {
        return Err(VfsError::NotADirectory);
    }
    parent.add_inode(inode_file, now)
}

} // verus!
