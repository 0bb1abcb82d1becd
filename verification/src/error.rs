//! The failures that the library reports.

use vstd::prelude::*;

verus! {

/// Why a configuration was refused.
#[derive(Clone, Copy, Debug, PartialEq, Eq, Structural)]
pub enum ConfigError {
    /// Nothing exists at the directory's path.
    DirectoryNotFound,
    /// The path exists and is no directory.
    NotADirectory,
    /// The language code is already enabled.
    DuplicateLanguage,
}

/// Why the texts of a language could not be had.
#[derive(Clone, Copy, Debug, PartialEq, Eq, Structural)]
pub enum LanguageError {
    /// The language code is not among the enabled ones.
    NotConfigured,
    /// The language has no file in the directory.
    FileNotFound,
    /// What bears the file's name is no regular file.
    NotAFile,
    /// The file could not be read.
    IoError,
    /// The text is malformed, or holds a value that is no string, array or object.
    ParseError,
    /// The texts are well formed and their root is no object.
    NotAnObject,
}

} // verus!
