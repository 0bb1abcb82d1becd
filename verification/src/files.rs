//! What the caller found in the directory of the language files, handed to
//! the library as plain values: the library itself reads no file.

use vstd::prelude::*;

use crate::text::same;

verus! {

/// What was found under a file name.
#[derive(Debug)]
pub enum FileState {
    /// Something that is no regular file.
    NotAFile,
    /// A regular file that could not be read.
    Unreadable,
    /// A regular file and all that it holds.
    Text(String),
}

/// The model of a `FileState`.
pub enum FileView {
    NotAFile,
    Unreadable,
    Text(Seq<char>),
}

impl View for FileState {
    type V = FileView;

    open spec fn view(&self) -> FileView {
        match self {
            FileState::NotAFile => FileView::NotAFile,
            FileState::Unreadable => FileView::Unreadable,
            FileState::Text(text) => FileView::Text(text@),
        }
    }
}

/// What a list of findings holds under a name: the last finding under that
/// name, and nothing where there is none.
pub open spec fn found_in(entries: Seq<(Seq<char>, FileView)>, name: Seq<char>) -> Option<
    FileView,
>
    decreases entries.len(),
{
    if entries.len() == 0 {
        None
    } else if entries.last().0 == name {
        Some(entries.last().1)
    } else {
        found_in(entries.drop_last(), name)
    }
}

/// The findings of a caller in the directory of the language files, each
/// under the name of its file. A name without a finding stands for a file
/// that does not exist.
#[derive(Debug)]
pub struct Files {
    entries: Vec<(String, FileState)>,
}

impl View for Files {
    type V = Seq<(Seq<char>, FileView)>;

    closed spec fn view(&self) -> Seq<(Seq<char>, FileView)> {
        Seq::new(self.entries@.len(), |i: int| (self.entries@[i].0@, self.entries@[i].1@))
    }
}

impl Files {
    /// No findings: every file is taken not to exist.
    pub fn new() -> (r: Files)
        ensures
            r@ == Seq::<(Seq<char>, FileView)>::empty(),
    {
        let files = Files { entries: Vec::new() };
        proof {
            assert(files@ =~= Seq::empty());
        }
        files
    }

    /// Adds what was found under a name. It counts in place of any earlier
    /// finding under that name.
    pub fn insert(&mut self, name: String, state: FileState)
        ensures
            final(self)@ == old(self)@.push((name@, state@)),
    {
        let ghost added = (name@, state@);
        self.entries.push((name, state));
        proof {
            assert(self@ =~= old(self)@.push(added));
        }
    }

    /// What was found under a name.
    pub fn get(&self, name: &str) -> (r: Option<&FileState>)
        ensures
            match r {
                Some(state) => found_in(self@, name@) == Some(state@),
                None => found_in(self@, name@) is None,
            },
    {
        let mut i: usize = self.entries.len();
        proof {
            assert(self@.take(i as int) =~= self@);
        }
        while i > 0
            invariant
                i <= self.entries@.len(),
                found_in(self@, name@) == found_in(self@.take(i as int), name@),
            decreases i,
        {
            proof {
                assert(self@.take(i as int).drop_last() =~= self@.take(i - 1));
                assert(self@.take(i as int).last() == self@[i - 1]);
            }
            i -= 1;
            if same(self.entries[i].0.as_str(), name) {
                return Some(&self.entries[i].1);
            }
        }
        None
    }
}

} // verus!
