//! The languages of a configuration and the texts that were loaded for them.

pub mod language_texts;

pub use language_texts::{LanguageTexts, TextsView};

use vstd::prelude::*;

use crate::config::{Config, ConfigView};
use crate::error::LanguageError;
use crate::files::{found_in, FileState, FileView, Files};
use crate::format::Format;
use crate::syntax::Tree;
use crate::value::{reading, Value};

verus! {

/// The model of a `Languages`: its configuration, and the texts that it holds
/// in the order in which they were loaded.
pub struct LanguagesView {
    pub config: ConfigView,
    pub cache: Seq<TextsView>,
}

/// The first texts of a language among those that are held.
pub open spec fn cached(cache: Seq<TextsView>, code: Seq<char>) -> Option<TextsView>
    decreases cache.len(),
{
    if cache.len() == 0 {
        None
    } else if cache[0].language == code {
        Some(cache[0])
    } else {
        cached(cache.drop_first(), code)
    }
}

/// No two of the texts are those of one language.
pub open spec fn distinct(cache: Seq<TextsView>) -> bool {
    forall|i: int, j: int|
        0 <= i < j < cache.len() ==> (#[trigger] cache[i]).language != (#[trigger] cache[j]).language
}

/// The texts that the file of a language gives, or why it gives none:
/// `found` is what the caller found under the file's name, and nothing where
/// no such file exists.
pub open spec fn texts_of_file(code: Seq<char>, format: Format, found: Option<FileView>) -> Result<
    TextsView,
    LanguageError,
> {
    match found {
        None => Err(LanguageError::FileNotFound),
        Some(FileView::NotAFile) => Err(LanguageError::NotAFile),
        Some(FileView::Unreadable) => Err(LanguageError::IoError),
        Some(FileView::Text(text)) => match reading(text, format) {
            Ok(written) => match written.tree() {
                Tree::Table(table) => Ok(TextsView { language: code, texts: table }),
                _ => Err(LanguageError::NotAnObject),
            },
            Err(error) => Err(error),
        },
    }
}

/// What a call returned, its texts as their model.
pub open spec fn outcome(r: Result<LanguageTexts, LanguageError>) -> Result<
    TextsView,
    LanguageError,
> {
    match r {
        Ok(texts) => Ok(texts@),
        Err(error) => Err(error),
    }
}

impl LanguagesView {
    /// The name of the file that would have to be read to get the texts of a
    /// language, and nothing where no file would be read: the language is not
    /// enabled, or its texts are held already.
    pub open spec fn file_needed(self, code: Seq<char>) -> Option<Seq<char>> {
        if self.config.languages.contains(code) && cached(self.cache, code) is None {
            Some(self.config.file_name(code))
        } else {
            None
        }
    }

    /// What asking for the texts of a language returns: a refusal where the
    /// language is not enabled, whatever the files hold; the texts that are
    /// held, where there are any, whatever the files hold; else what the file
    /// of the language gives.
    pub open spec fn resolve(self, code: Seq<char>, files: Seq<(Seq<char>, FileView)>) -> Result<
        TextsView,
        LanguageError,
    > {
        if !self.config.languages.contains(code) {
            Err(LanguageError::NotConfigured)
        } else if cached(self.cache, code) is Some {
            Ok(cached(self.cache, code)->0)
        } else {
            texts_of_file(code, self.config.format, found_in(files, self.config.file_name(code)))
        }
    }

    /// What asking for the texts of a language leaves: texts that had to be
    /// read from a file are held from then on, after all the others, and
    /// nothing else changes.
    pub open spec fn after(self, code: Seq<char>, files: Seq<(Seq<char>, FileView)>) -> LanguagesView {
        match self.file_needed(code) {
            Some(name) => match texts_of_file(code, self.config.format, found_in(files, name)) {
                Ok(texts) => LanguagesView { cache: self.cache.push(texts), ..self },
                Err(_) => self,
            },
            None => self,
        }
    }
}

/// The texts of a language read from what the caller found under the name of
/// its file.
pub fn read_texts(code: &str, format: Format, found: Option<&FileState>) -> (r: Result<
    LanguageTexts,
    LanguageError,
>)
    ensures
        outcome(r) == texts_of_file(
            code@,
            format,
            match found {
                Some(state) => Some(state@),
                None => None,
            },
        ),
{
    match found {
        None => Err(LanguageError::FileNotFound),
        Some(FileState::NotAFile) => Err(LanguageError::NotAFile),
        Some(FileState::Unreadable) => Err(LanguageError::IoError),
        Some(FileState::Text(text)) => {
            match Value::parse(text.as_str(), format) {
                Ok(value) => LanguageTexts::new(code.to_owned(), value),
                Err(error) => Err(error),
            }
        },
    }
}

/// The languages of a configuration, and the texts of those that were asked
/// for. Texts are loaded when they are first asked for and held from then on:
/// none is ever dropped or loaded again.
#[derive(Debug)]
pub struct Languages {
    config: Config,
    langs: Vec<LanguageTexts>,
}

/// The models of the texts that are held.
pub open spec fn models_of(langs: Seq<LanguageTexts>) -> Seq<TextsView> {
    Seq::new(langs.len(), |i: int| langs[i]@)
}

impl View for Languages {
    type V = LanguagesView;

    closed spec fn view(&self) -> LanguagesView {
        LanguagesView { config: self.config@, cache: models_of(self.langs@) }
    }
}

impl Languages {
    /// The languages of a configuration, of which a copy is kept, with no
    /// texts loaded yet.
    pub fn new(config: &Config) -> (r: Languages)
        ensures
            r@ == (LanguagesView { config: config@, cache: Seq::empty() }),
    {
        let languages = Languages { config: config.clone(), langs: Vec::new() };
        proof {
            assert(languages@.cache =~= Seq::empty());
        }
        languages
    }

    /// A copy of the configuration that was given at the start.
    pub fn get_config(&self) -> (r: Config)
        ensures
            r@ == self@.config,
    {
        self.config.clone()
    }

    /// The index of the first texts of a language among those that are held.
    fn find(&self, lang: &str) -> (r: Option<usize>)
        ensures
            match r {
                Some(at) => at < self.langs@.len() && cached(self@.cache, lang@) == Some(
                    self.langs@[at as int]@,
                ),
                None => cached(self@.cache, lang@) is None,
            },
    {
        let ghost cache = self@.cache;
        let mut i: usize = 0;
        proof {
            assert(cache.skip(0) =~= cache);
        }
        while i < self.langs.len()
            invariant
                cache == self@.cache,
                i <= self.langs@.len(),
                cached(cache, lang@) == cached(cache.skip(i as int), lang@),
            decreases self.langs@.len() - i,
        {
            proof {
                assert(cache.skip(i as int).drop_first() =~= cache.skip(i + 1));
                assert(cache.skip(i as int)[0] == self.langs@[i as int]@);
            }
            if self.langs[i].is_language(lang) {
                return Some(i);
            }
            i += 1;
        }
        None
    }

    /// The name of the file that the caller has to look at before it asks for
    /// the texts of a language, and nothing where it need not look at any: the
    /// language is not enabled, or its texts are held already.
    pub fn file_needed(&self, lang: &str) -> (r: Option<String>)
        ensures
            match r {
                Some(name) => self@.file_needed(lang@) == Some(name@),
                None => self@.file_needed(lang@) is None,
            },
    {
        if !self.config.has_language(lang) {
            return None;
        }
        match self.find(lang) {
            Some(_) => None,
            None => Some(self.config.file_name(lang)),
        }
    }

    /// The texts of a language. A language that is not enabled is refused,
    /// whatever the files hold. Texts that are held already come back as a
    /// copy, and the files are not looked at. Else the texts are read from
    /// what `files` holds under the name of the language's file, and held from
    /// then on; where that fails, nothing changes.
    pub fn try_get_language(&mut self, lang: &str, files: &Files) -> (r: Result<
        LanguageTexts,
        LanguageError,
    >)
        ensures
            outcome(r) == old(self)@.resolve(lang@, files@),
            final(self)@ == old(self)@.after(lang@, files@),
            !old(self)@.config.languages.contains(lang@) ==> r == Err::<
                LanguageTexts,
                LanguageError,
            >(LanguageError::NotConfigured) && final(self)@ == old(self)@,
            distinct(old(self)@.cache) ==> distinct(final(self)@.cache),
    {
        if !self.config.has_language(lang) {
            return Err(LanguageError::NotConfigured);
        }
        match self.find(lang) {
            Some(at) => {
                return Ok(self.langs[at].clone());
            },
            None => {},
        }
        let name = self.config.file_name(lang);
        let texts = match read_texts(lang, self.config.get_format(), files.get(name.as_str())) {
            Ok(texts) => texts,
            Err(error) => {
                return Err(error);
            },
        };
        let copy = texts.clone();
        self.langs.push(texts);
        proof {
            assert(models_of(self.langs@) =~= models_of(old(self).langs@).push(copy@));
            if distinct(old(self)@.cache) {
                lemma_after_keeps_distinct(old(self)@, lang@, files@);
            }
        }
        Ok(copy)
    }

    /// The text under a key among the texts of a language, and nothing where
    /// the language has no such key. The texts are had as `try_get_language`
    /// has them, and what it refuses is refused here.
    pub fn try_get_text_from_language(&mut self, lang: &str, text: &str, files: &Files) -> (r:
        Result<Option<Value>, LanguageError>)
        ensures
            final(self)@ == old(self)@.after(lang@, files@),
            match old(self)@.resolve(lang@, files@) {
                Ok(texts) => r matches Ok(found) && match found {
                    Some(value) => texts.texts.contains_key(text@) && value@ == texts.texts[text@],
                    None => !texts.texts.contains_key(text@),
                },
                Err(error) => r == Err::<Option<Value>, LanguageError>(error),
            },
    {
        match self.try_get_language(lang, files) {
            Ok(texts) => Ok(texts.try_get_text(text)),
            Err(error) => Err(error),
        }
    }
}

/// What asking for the texts of each of `codes` leaves, one after another
/// and from the first on, or the first refusal: after a refusal no further
/// language is asked for.
pub open spec fn resolve_all(
    state: LanguagesView,
    codes: Seq<Seq<char>>,
    files: Seq<(Seq<char>, FileView)>,
) -> Result<LanguagesView, LanguageError>
    decreases codes.len(),
{
    if codes.len() == 0 {
        Ok(state)
    } else {
        match state.resolve(codes[0], files) {
            Ok(_) => resolve_all(state.after(codes[0], files), codes.drop_first(), files),
            Err(error) => Err(error),
        }
    }
}

/// At most one entry for each language, also after many calls: where no two
/// of the texts that are held are those of one language, asking for the texts
/// of each of `codes` leaves it so.
pub proof fn lemma_resolve_all_keeps_distinct(
    state: LanguagesView,
    codes: Seq<Seq<char>>,
    files: Seq<(Seq<char>, FileView)>,
)
    requires
        distinct(state.cache),
    ensures
        resolve_all(state, codes, files) matches Ok(last) ==> distinct(last.cache),
    decreases codes.len(),
{
    if codes.len() > 0 && state.resolve(codes[0], files) is Ok {
        lemma_after_keeps_distinct(state, codes[0], files);
        lemma_resolve_all_keeps_distinct(state.after(codes[0], files), codes.drop_first(), files);
    }
}

/// A language that is not enabled is refused, whatever the files hold and
/// whatever is held already, and asking for it changes nothing.
pub proof fn lemma_not_configured(
    state: LanguagesView,
    code: Seq<char>,
    files: Seq<(Seq<char>, FileView)>,
)
    requires
        !state.config.languages.contains(code),
    ensures
        state.resolve(code, files) == Err::<TextsView, LanguageError>(
            LanguageError::NotConfigured,
        ),
        state.after(code, files) == state,
{
}

/// Texts that were had once are had again from what is held: a second call
/// for the same language returns the same texts whatever the files hold by
/// then, needs no file, and changes nothing.
pub proof fn lemma_second_call_is_served_from_cache(
    state: LanguagesView,
    code: Seq<char>,
    files: Seq<(Seq<char>, FileView)>,
    later_files: Seq<(Seq<char>, FileView)>,
)
    requires
        state.resolve(code, files) is Ok,
    ensures
        state.after(code, files).resolve(code, later_files) == state.resolve(code, files),
        state.after(code, files).file_needed(code) is None,
        state.after(code, files).after(code, later_files) == state.after(code, files),
{
    if cached(state.cache, code) is None {
        let texts = state.resolve(code, files)->Ok_0;
        assert(texts.language == code);
        lemma_cached_after_push(state.cache, texts);
    }
}

/// Texts pushed behind texts of other languages are the first of their
/// language.
pub proof fn lemma_cached_after_push(cache: Seq<TextsView>, texts: TextsView)
    requires
        cached(cache, texts.language) is None,
    ensures
        cached(cache.push(texts), texts.language) == Some(texts),
    decreases cache.len(),
{
    let pushed = cache.push(texts);
    if cache.len() > 0 {
        lemma_cached_after_push(cache.drop_first(), texts);
        assert(pushed.drop_first() =~= cache.drop_first().push(texts));
        assert(pushed[0] == cache[0]);
    } else {
        assert(pushed[0] == texts);
    }
}

/// Texts of a language that is not among those that are held are the texts of
/// none of them.
pub proof fn lemma_absent_from_cache(cache: Seq<TextsView>, code: Seq<char>)
    requires
        cached(cache, code) is None,
    ensures
        forall|i: int| 0 <= i < cache.len() ==> (#[trigger] cache[i]).language != code,
    decreases cache.len(),
{
    if cache.len() > 0 {
        lemma_absent_from_cache(cache.drop_first(), code);
        assert forall|i: int| 0 <= i < cache.len() implies (#[trigger] cache[i]).language
            != code by {
            if i > 0 {
                assert(cache.drop_first()[i - 1] == cache[i]);
            }
        }
    }
}

/// At most one entry for each language: where no two of the texts that are
/// held are those of one language, asking for the texts of a language leaves
/// it so.
pub proof fn lemma_after_keeps_distinct(
    state: LanguagesView,
    code: Seq<char>,
    files: Seq<(Seq<char>, FileView)>,
)
    requires
        distinct(state.cache),
    ensures
        distinct(state.after(code, files).cache),
{
    let next = state.after(code, files);
    if next != state {
        lemma_absent_from_cache(state.cache, code);
        let texts = next.cache.last();
        assert(texts.language == code);
        assert forall|i: int, j: int| 0 <= i < j < next.cache.len() implies (
        #[trigger] next.cache[i]).language != (#[trigger] next.cache[j]).language by {
            assert(next.cache[i] == state.cache[i]);
            if j < state.cache.len() {
                assert(next.cache[j] == state.cache[j]);
            }
        }
    }
}

} // verus!
