//! The error types of the library's operations.
use vstd::prelude::*;

use std::path::PathBuf;

verus! {

/// Typed domain errors of the workspace operations.
#[derive(Debug)]
pub enum WorkspaceError {
    /// A file could not be read; `source` is the I/O error's message.
    Io { path: PathBuf, source: String },
    /// A file could not be parsed; `source` is the parser's message.
    TomlParse { path: PathBuf, source: String },
    /// Any other failure, with its message.
    Other(String),
}

/// Typed domain errors of the scaffolding operations.
#[derive(Debug)]
pub enum ScaffoldError {
    /// An I/O operation failed; `source` is the I/O error's message.
    Io { path: PathBuf, source: String },
    /// A TOML document could not be edited; `source` is the editor's message.
    TomlEdit { path: PathBuf, source: String },
    /// Any other failure, with its message.
    Other(String),
}

/// Errors of the command layer.
#[derive(Debug, Clone, Copy, PartialEq, Eq, Structural)]
pub enum CommandError {
    /// A child process exited with this non-zero code.
    ProcessExit(i32),
}

} // verus!
