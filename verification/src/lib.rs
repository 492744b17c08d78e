//! An in-memory virtual filesystem with a line-oriented shell core.
//!
//! The crate has two tightly coupled subsystems: the inode tree manager
//! (`types`, `serial`, `path`), which models files and directories as an
//! owned tree with size accounting, unique serial numbers and path
//! rendering, and the cursor text buffer (`buffer`, `editor`), a
//! two-dimensional editable text structure driven by a modal editor
//! controller. `commands` validates shell commands and commits edited
//! text into the tree.

pub mod buffer;
pub mod commands;
pub mod editor;
pub mod errors;
pub mod path;
pub mod serial;
pub mod types;
pub mod utils;

pub use serial::SerialAllocator;
