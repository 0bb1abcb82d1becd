//! The mathematical models of texts: `Syntax`, a document as it is written, and
//! `Tree`, what it means once the entries of each object are taken as a mapping.

use vstd::prelude::*;

verus! {

/// A document as it is written: the entries of a table in their order, and
/// every scalar that is no string as `Other`.
pub enum Syntax {
    Text(Seq<char>),
    List(Seq<Syntax>),
    Table(Seq<(Seq<char>, Syntax)>),
    Other,
}

/// The meaning of a document that holds strings, arrays and objects only.
pub enum Tree {
    Text(Seq<char>),
    List(Seq<Tree>),
    Table(Map<Seq<char>, Tree>),
}

/// The mapping that a sequence of entries stands for: where a key occurs more
/// than once, its last entry counts.
pub open spec fn table_of(entries: Seq<(Seq<char>, Syntax)>) -> Map<Seq<char>, Tree>
    decreases entries, 0nat,
{
    if entries.len() == 0 {
        Map::empty()
    } else {
        table_of(entries.drop_last()).insert(entries.last().0, entries.last().1.tree())
    }
}

/// The texts of a sequence of entries, each as `key: value`, joined by `, `.
pub open spec fn rendered_entries(entries: Seq<(Seq<char>, Syntax)>) -> Seq<char>
    decreases entries, 0nat,
{
    if entries.len() == 0 {
        Seq::empty()
    } else if entries.len() == 1 {
        entries[0].0 + ": "@ + entries[0].1.rendered()
    } else {
        rendered_entries(entries.drop_last()) + ", "@ + entries.last().0 + ": "@
            + entries.last().1.rendered()
    }
}

/// The texts of a sequence of items, joined by `, `.
pub open spec fn rendered_items(items: Seq<Syntax>) -> Seq<char>
    decreases items, 0nat,
{
    if items.len() == 0 {
        Seq::empty()
    } else if items.len() == 1 {
        items[0].rendered()
    } else {
        rendered_items(items.drop_last()) + ", "@ + items.last().rendered()
    }
}

impl Syntax {
    /// No scalar other than a string occurs anywhere in the document.
    pub open spec fn is_texts(self) -> bool
        decreases self,
    {
        match self {
            Syntax::Text(_) => true,
            Syntax::List(items) => forall|i: int|
                0 <= i < items.len() ==> (#[trigger] items[i]).is_texts(),
            Syntax::Table(entries) => forall|i: int|
                0 <= i < entries.len() ==> (#[trigger] entries[i]).1.is_texts(),
            Syntax::Other => false,
        }
    }

    /// What the document means. `Other` has no meaning; it counts as the empty
    /// string, and `is_texts` tells whether one occurs.
    pub open spec fn tree(self) -> Tree
        decreases self, 1nat,
    {
        match self {
            Syntax::Text(text) => Tree::Text(text),
            Syntax::List(items) => Tree::List(
                Seq::new(
                    items.len(),
                    |i: int|
                        if 0 <= i < items.len() {
                            items[i].tree()
                        } else {
                            Tree::Text(Seq::empty())
                        },
                ),
            ),
            Syntax::Table(entries) => Tree::Table(table_of(entries)),
            Syntax::Other => Tree::Text(Seq::empty()),
        }
    }

    /// The document as a text for a reader: a string as it is, an array as
    /// `[a, b]`, an object as `{ key: a, key: b }` with its entries in their order.
    pub open spec fn rendered(self) -> Seq<char>
        decreases self, 1nat,
    {
        match self {
            Syntax::Text(text) => text,
            Syntax::List(items) => "["@ + rendered_items(items) + "]"@,
            Syntax::Table(entries) => "{ "@ + rendered_entries(entries) + " }"@,
            Syntax::Other => Seq::empty(),
        }
    }
}

/// Where no entry has the key, the mapping does not hold it.
pub proof fn lemma_table_without_key(entries: Seq<(Seq<char>, Syntax)>, key: Seq<char>)
    requires
        forall|j: int| 0 <= j < entries.len() ==> (#[trigger] entries[j]).0 != key,
    ensures
        !table_of(entries).contains_key(key),
    decreases entries.len(),
{
    if entries.len() > 0 {
        let rest = entries.drop_last();
        assert forall|j: int| 0 <= j < rest.len() implies (#[trigger] rest[j]).0 != key by {
            assert(rest[j] == entries[j]);
        }
        lemma_table_without_key(rest, key);
        assert(entries.last() == entries[entries.len() - 1]);
    }
}

/// The mapping holds under a key what the last entry with that key holds.
pub proof fn lemma_table_last_entry(entries: Seq<(Seq<char>, Syntax)>, at: int, key: Seq<char>)
    requires
        0 <= at < entries.len(),
        entries[at].0 == key,
        forall|j: int| at < j < entries.len() ==> (#[trigger] entries[j]).0 != key,
    ensures
        table_of(entries).contains_key(key),
        table_of(entries)[key] == entries[at].1.tree(),
    decreases entries.len(),
{
    let rest = entries.drop_last();
    if at == entries.len() - 1 {
        assert(entries.last() == entries[at]);
    } else {
        assert(rest[at] == entries[at]);
        assert forall|j: int| at < j < rest.len() implies (#[trigger] rest[j]).0 != key by {
            assert(rest[j] == entries[j]);
        }
        lemma_table_last_entry(rest, at, key);
        assert(entries.last() == entries[entries.len() - 1]);
        assert(entries.last().0 != key);
    }
}

/// The mapping holds the key of every entry.
pub proof fn lemma_table_entry_has_key(entries: Seq<(Seq<char>, Syntax)>, at: int)
    requires
        0 <= at < entries.len(),
    ensures
        table_of(entries).contains_key(entries[at].0),
    decreases entries.len(),
{
    if at < entries.len() - 1 {
        let rest = entries.drop_last();
        assert(rest[at] == entries[at]);
        lemma_table_entry_has_key(rest, at);
    }
}

/// Every key of the mapping is the key of an entry.
pub proof fn lemma_table_key_has_entry(entries: Seq<(Seq<char>, Syntax)>, key: Seq<char>)
    requires
        table_of(entries).contains_key(key),
    ensures
        exists|j: int| 0 <= j < entries.len() && (#[trigger] entries[j]).0 == key,
{
    if forall|j: int| 0 <= j < entries.len() ==> (#[trigger] entries[j]).0 != key {
        lemma_table_without_key(entries, key);
    }
}

} // verus!
