//! The texts of one language.

use vstd::prelude::*;

use crate::error::LanguageError;
use crate::syntax::Tree;
use crate::value::Value;

verus! {

/// The texts of one language under their keys. They do not change once made.
#[derive(Debug)]
pub struct LanguageTexts {
    language: String,
    texts: Value,
}

/// The model of a `LanguageTexts`: the language code, and each key with what
/// its text means.
pub struct TextsView {
    pub language: Seq<char>,
    pub texts: Map<Seq<char>, Tree>,
}

impl View for LanguageTexts {
    type V = TextsView;

    closed spec fn view(&self) -> TextsView {
        TextsView { language: self.language@, texts: self.texts@->Table_0 }
    }
}

impl Clone for LanguageTexts {
    /// A copy that shares nothing with the texts.
    fn clone(&self) -> (r: Self)
        ensures
            r@ == self@,
    {
        proof {
            use_type_invariant(self);
        }
        LanguageTexts { language: self.language.clone(), texts: self.texts.clone() }
    }
}

impl LanguageTexts {
    #[verifier::type_invariant]
    spec fn holds_object(self) -> bool {
        self.texts@ is Table
    }

    /// The texts of a language. A value that is no object is refused.
    pub fn new(language: String, texts: Value) -> (r: Result<LanguageTexts, LanguageError>)
        ensures
            match texts@ {
                Tree::Table(table) => r matches Ok(made) && made@ == (TextsView {
                    language: language@,
                    texts: table,
                }),
                _ => r == Err::<LanguageTexts, LanguageError>(LanguageError::NotAnObject),
            },
    {
        if !texts.is_object() {
            return Err(LanguageError::NotAnObject);
        }
        Ok(LanguageTexts { language, texts })
    }

    /// The language code.
    pub fn get_language(&self) -> (r: String)
        ensures
            r@ == self@.language,
    {
        self.language.clone()
    }

    /// Tells whether these are the texts of a language.
    pub fn is_language(&self, code: &str) -> (r: bool)
        ensures
            r == (self@.language == code@),
    {
        crate::text::same(self.language.as_str(), code)
    }

    /// A copy of the text under a key, and nothing where the key is not
    /// there. Only the keys of the root are looked at: what lies deeper is
    /// reached through the value that comes back.
    pub fn try_get_text(&self, text: &str) -> (r: Option<Value>)
        ensures
            match r {
                Some(value) => self@.texts.contains_key(text@) && value@ == self@.texts[text@],
                None => !self@.texts.contains_key(text@),
            },
    {
        proof {
            use_type_invariant(self);
        }
        match self.texts.get(text) {
            Some(value) => Some(value.clone()),
            None => None,
        }
    }
}

} // verus!
