//! Builds the manifest of a mirrored game-client asset tree for a patch server.
//!
//! The crate holds the decisions of the mirror run and proves them: how an entry
//! of the source tree is classified by its name, what digest a file gets, how the
//! results of one directory level are gathered into a node, and how the finished
//! tree and the server status are written as JSON text. Reading and writing the
//! file system is left to the caller.

pub mod digest;
pub mod error;
pub mod fsobject;
pub mod generate;
pub mod json_text;
pub mod layout;
pub mod manifest;
pub mod naming;
pub mod ordering;
pub mod process_archive;
pub mod process_directory;
pub mod process_file;
pub mod reader;
pub mod status;
pub mod text;
pub mod tree;
