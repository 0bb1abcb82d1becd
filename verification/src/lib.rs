//! Texts of an application in several languages, loaded from one JSON or TOML
//! file per language and looked up by language code and text key.

pub mod config;
pub mod error;
pub mod files;
pub mod format;
pub mod languages;
pub mod node;
pub mod syntax;
pub mod text;
pub mod value;

pub use config::{Config, PathKind};
pub use error::{ConfigError, LanguageError};
pub use files::{FileState, Files};
pub use format::Format;
pub use languages::{LanguageTexts, Languages};
pub use node::Node;
pub use value::Value;

use vstd::prelude::*;

use crate::config::codes_of;
use crate::languages::{distinct, lemma_resolve_all_keeps_distinct, resolve_all, LanguagesView};

verus! {

/// Loads the texts of every enabled language, in the order of the
/// configuration, from what the caller found in the directory. The first
/// language whose texts cannot be had ends the loading with its refusal, and
/// no languages are handed out.
pub fn load(configuration: Config, files: &Files) -> (r: Result<Languages, LanguageError>)
    ensures
        match resolve_all(
            LanguagesView { config: configuration@, cache: Seq::empty() },
            configuration@.languages,
            files@,
        ) {
            Ok(state) => r matches Ok(languages) && languages@ == state,
            Err(error) => r matches Err(refusal) && refusal == error,
        },
        r matches Ok(languages) ==> distinct(languages@.cache),
{
    proof {
        lemma_resolve_all_keeps_distinct(
            LanguagesView { config: configuration@, cache: Seq::empty() },
            configuration@.languages,
            files@,
        );
    }
    let mut languages = Languages::new(&configuration);
    let codes = configuration.get_languages();
    let ghost start = languages@;
    let ghost all = configuration@.languages;
    let mut i: usize = 0;
    proof {
        assert(all.skip(0) =~= all);
    }
    while i < codes.len()
        invariant
            i <= codes@.len(),
            all == codes_of(codes@),
            all == configuration@.languages,
            start == (LanguagesView { config: configuration@, cache: Seq::empty() }),
            resolve_all(start, all, files@) == resolve_all(languages@, all.skip(i as int), files@),
        decreases codes@.len() - i,
    {
        proof {
            assert(all.skip(i as int).drop_first() =~= all.skip(i + 1));
            assert(all.skip(i as int)[0] == codes@[i as int]@);
        }
        match languages.try_get_language(codes[i].as_str(), files) {
            Ok(_) => {},
            Err(error) => {
                return Err(error);
            },
        }
        i += 1;
    }
    Ok(languages)
}

} // verus!
