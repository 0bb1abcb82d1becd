//! Where the language files lie, how they are written, and which languages
//! are enabled.

use vstd::prelude::*;
use vstd::string::*;

use crate::error::ConfigError;
use crate::format::Format;
use crate::text::same;

verus! {

/// What a path leads to.
#[derive(Clone, Copy, Debug, PartialEq, Eq, Structural)]
pub enum PathKind {
    /// Nothing exists at the path.
    Missing,
    /// A directory.
    Directory,
    /// Something that is no directory.
    Other,
}

/// The directory of the language files, their format and the enabled
/// language codes, in the order in which they were given.
#[derive(Debug)]
pub struct Config {
    directory: String,
    format: Format,
    languages: Vec<String>,
}

/// The model of a configuration.
pub struct ConfigView {
    pub directory: Seq<char>,
    pub format: Format,
    pub languages: Seq<Seq<char>>,
}

/// The characters of each string of a sequence.
pub open spec fn codes_of(languages: Seq<String>) -> Seq<Seq<char>> {
    Seq::new(languages.len(), |i: int| languages[i]@)
}

/// The characters of each string slice of a sequence.
pub open spec fn slices_of(languages: Seq<&str>) -> Seq<Seq<char>> {
    Seq::new(languages.len(), |i: int| languages[i]@)
}

/// A copy of a list of language codes.
pub fn copy_codes(languages: &Vec<String>) -> (r: Vec<String>)
    ensures
        codes_of(r@) == codes_of(languages@),
{
    let mut copies: Vec<String> = Vec::new();
    let mut i: usize = 0;
    while i < languages.len()
        invariant
            i <= languages@.len(),
            copies@.len() == i,
            forall|j: int| 0 <= j < i ==> (#[trigger] copies@[j])@ == languages@[j]@,
        decreases languages@.len() - i,
    {
        copies.push(languages[i].clone());
        i += 1;
    }
    proof {
        assert(codes_of(copies@) =~= codes_of(languages@));
    }
    copies
}

/// Tells whether a language code is in a list.
pub fn has_code(languages: &Vec<String>, code: &str) -> (r: bool)
    ensures
        r == codes_of(languages@).contains(code@),
{
    let mut i: usize = 0;
    while i < languages.len()
        invariant
            i <= languages@.len(),
            forall|j: int| 0 <= j < i ==> (#[trigger] languages@[j])@ != code@,
        decreases languages@.len() - i,
    {
        if same(languages[i].as_str(), code) {
            proof {
                assert(codes_of(languages@)[i as int] == code@);
            }
            return true;
        }
        i += 1;
    }
    proof {
        assert forall|j: int| 0 <= j < codes_of(languages@).len() implies codes_of(
            languages@,
        )[j] != code@ by {
            assert(languages@[j]@ != code@);
        }
    }
    false
}

impl ConfigView {
    /// The configuration that adding a language code leaves, and what the
    /// addition returns: a code that is already enabled is refused and
    /// changes nothing, any other becomes the last one.
    pub open spec fn add_language(self, code: Seq<char>) -> (ConfigView, Result<(), ConfigError>) {
        if self.languages.contains(code) {
            (self, Err(ConfigError::DuplicateLanguage))
        } else {
            (ConfigView { languages: self.languages.push(code), ..self }, Ok(()))
        }
    }

    /// The name of the file that holds the texts of a language: the code and
    /// the format's extension.
    pub open spec fn file_name(self, code: Seq<char>) -> Seq<char> {
        code + self.format.suffix()
    }
}

impl View for Config {
    type V = ConfigView;

    closed spec fn view(&self) -> ConfigView {
        ConfigView {
            directory: self.directory@,
            format: self.format,
            languages: codes_of(self.languages@),
        }
    }
}

impl Clone for Config {
    /// A copy that shares nothing with the configuration.
    fn clone(&self) -> (r: Self)
        ensures
            r@ == self@,
    {
        Config {
            directory: self.directory.clone(),
            format: self.format,
            languages: copy_codes(&self.languages),
        }
    }
}

impl Config {
    /// The name of the directory that `default` is meant for, below the
    /// working directory.
    pub fn default_directory() -> (r: &'static str)
        ensures
            r@ == "languages"@,
    {
        "languages"
    }

    /// A configuration over `directory`, a path that the caller has resolved
    /// and looked at: `found` says what the path leads to. Nothing at the path
    /// and anything but a directory are refused. The language codes are taken
    /// as they come, in their order, also where one occurs twice.
    pub fn new(directory: &str, found: PathKind, format: Format, languages: Vec<&str>) -> (r:
        Result<Config, ConfigError>)
        ensures
            match found {
                PathKind::Missing => r == Err::<Config, ConfigError>(
                    ConfigError::DirectoryNotFound,
                ),
                PathKind::Other => r == Err::<Config, ConfigError>(ConfigError::NotADirectory),
                PathKind::Directory => r matches Ok(config) && config@ == (ConfigView {
                    directory: directory@,
                    format,
                    languages: slices_of(languages@),
                }),
            },
    {
        match found {
            PathKind::Missing => Err(ConfigError::DirectoryNotFound),
            PathKind::Other => Err(ConfigError::NotADirectory),
            PathKind::Directory => {
                let mut codes: Vec<String> = Vec::new();
                let mut i: usize = 0;
                while i < languages.len()
                    invariant
                        i <= languages@.len(),
                        codes@.len() == i,
                        forall|j: int| 0 <= j < i ==> (#[trigger] codes@[j])@ == languages@[j]@,
                    decreases languages@.len() - i,
                {
                    codes.push(languages[i].to_owned());
                    i += 1;
                }
                proof {
                    assert(codes_of(codes@) =~= slices_of(languages@));
                }
                Ok(Config { directory: directory.to_owned(), format, languages: codes })
            },
        }
    }

    /// The configuration to start from: the files are JSON and no language is
    /// enabled. `directory` is the resolved path of `default_directory`, and
    /// `found` what it leads to. Where nothing is there the configuration is
    /// given all the same, for a caller that creates the directory; only a
    /// path that leads to something else is refused.
    pub fn default(directory: &str, found: PathKind) -> (r: Result<Config, ConfigError>)
        ensures
            match found {
                PathKind::Other => r == Err::<Config, ConfigError>(ConfigError::NotADirectory),
                _ => r matches Ok(config) && config@ == (ConfigView {
                    directory: directory@,
                    format: Format::Json,
                    languages: Seq::empty(),
                }),
            },
    {
        match found {
            PathKind::Other => Err(ConfigError::NotADirectory),
            _ => {
                let config = Config {
                    directory: directory.to_owned(),
                    format: Format::Json,
                    languages: Vec::new(),
                };
                proof {
                    assert(config@.languages =~= Seq::empty());
                }
                Ok(config)
            },
        }
    }

    /// The directory of the language files.
    pub fn get_directory(&self) -> (r: String)
        ensures
            r@ == self@.directory,
    {
        self.directory.clone()
    }

    /// Moves the configuration to another directory, a path that the caller
    /// has resolved and looked at. Where the path is refused the configuration
    /// stays as it was.
    pub fn set_directory(&mut self, new_directory: &str, found: PathKind) -> (r: Result<
        (),
        ConfigError,
    >)
        ensures
            match found {
                PathKind::Missing => r == Err::<(), ConfigError>(ConfigError::DirectoryNotFound)
                    && final(self)@ == old(self)@,
                PathKind::Other => r == Err::<(), ConfigError>(ConfigError::NotADirectory)
                    && final(self)@ == old(self)@,
                PathKind::Directory => r is Ok && final(self)@ == (ConfigView {
                    directory: new_directory@,
                    ..old(self)@
                }),
            },
    {
        match found {
            PathKind::Missing => Err(ConfigError::DirectoryNotFound),
            PathKind::Other => Err(ConfigError::NotADirectory),
            PathKind::Directory => {
                self.directory = new_directory.to_owned();
                Ok(())
            },
        }
    }

    /// The format of the language files.
    pub fn get_format(&self) -> (r: Format)
        ensures
            r == self@.format,
    {
        self.format
    }

    /// The enabled language codes, in their order.
    pub fn get_languages(&self) -> (r: Vec<String>)
        ensures
            codes_of(r@) == self@.languages,
    {
        copy_codes(&self.languages)
    }

    /// Tells whether a language code is enabled.
    pub fn has_language(&self, code: &str) -> (r: bool)
        ensures
            r == self@.languages.contains(code@),
    {
        has_code(&self.languages, code)
    }

    /// Enables a language. A code that is already enabled is refused, and the
    /// configuration stays as it was; any other becomes the last one.
    pub fn add_language(&mut self, language: String) -> (r: Result<(), ConfigError>)
        ensures
            (final(self)@, r) == old(self)@.add_language(language@),
    {
        if has_code(&self.languages, language.as_str()) {
            return Err(ConfigError::DuplicateLanguage);
        }
        self.languages.push(language);
        proof {
            assert(codes_of(self.languages@) =~= codes_of(old(self).languages@).push(language@));
        }
        Ok(())
    }

    /// The name of the file that holds the texts of a language: the code and
    /// the format's extension.
    pub fn file_name(&self, code: &str) -> (r: String)
        ensures
            r@ == self@.file_name(code@),
    {
        let mut name = code.to_owned();
        name.append(self.format.extension());
        name
    }
}

/// Adding the same language code twice: whatever the first addition returned,
/// the second is refused as a duplicate and leaves the configuration as the
/// first left it.
pub proof fn lemma_add_language_twice(config: ConfigView, code: Seq<char>)
    ensures
        config.add_language(code).0.add_language(code) == (
            config.add_language(code).0,
            Err::<(), ConfigError>(ConfigError::DuplicateLanguage),
        ),
{
    if !config.languages.contains(code) {
        let added = config.languages.push(code);
        assert(added[added.len() - 1] == code);
    }
}

} // verus!
