//! The encodings of language files.

use vstd::prelude::*;

verus! {

/// The encodings a language file may be written in.
#[derive(Clone, Copy, Debug, PartialEq, Eq, Structural)]
pub enum Format {
    Json,
    Toml,
}

impl Format {
    /// The extension that files of this format bear, with its dot.
    pub open spec fn suffix(self) -> Seq<char> {
        match self {
            Format::Json => ".json"@,
            Format::Toml => ".toml"@,
        }
    }

    /// The extension that files of this format bear, with its dot.
    pub fn extension(&self) -> (r: &'static str)
        ensures
            r@ == self.suffix(),
    {
        match self {
            Format::Json => ".json",
            Format::Toml => ".toml",
        }
    }
}

} // verus!
