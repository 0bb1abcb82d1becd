//! The texts of a language: strings, arrays of texts, and objects of texts
//! under keys.

use vstd::prelude::*;
use vstd::string::*;

use crate::error::LanguageError;
use crate::format::Format;
use crate::node::{document, Node};
use crate::syntax::{
    lemma_table_entry_has_key, lemma_table_key_has_entry, lemma_table_last_entry,
    lemma_table_without_key, rendered_entries, rendered_items, table_of, Syntax, Tree,
};
use crate::text::same;

verus! {

/// A text, an array of values or an object of values under keys. An object
/// holds its entries in a vector; where a key occurs more than once, its last
/// entry counts, so that as a mapping an object has each key once and the order
/// of its entries does not matter.
#[derive(Debug)]
pub enum Value {
    String(String),
    Array(Vec<Value>),
    Object(Vec<(String, Value)>),
}

impl Value {
    /// The value as it is held, the entries of each object in their order.
    pub open spec fn shape(self) -> Syntax
        decreases self,
    {
        match self {
            Value::String(text) => Syntax::Text(text@),
            Value::Array(items) => Syntax::List(
                Seq::new(
                    items@.len(),
                    |i: int|
                        if 0 <= i < items@.len() {
                            items@[i].shape()
                        } else {
                            Syntax::Other
                        },
                ),
            ),
            Value::Object(entries) => Syntax::Table(
                Seq::new(
                    entries@.len(),
                    |i: int|
                        if 0 <= i < entries@.len() {
                            (entries@[i].0@, entries@[i].1.shape())
                        } else {
                            (Seq::empty(), Syntax::Other)
                        },
                ),
            ),
        }
    }
}

impl View for Value {
    type V = Tree;

    /// What the value means: see `Tree`.
    open spec fn view(&self) -> Tree {
        self.shape().tree()
    }
}

/// The shapes of a sequence of values, one by one.
pub open spec fn shapes_of(items: Seq<Value>) -> Seq<Syntax> {
    Seq::new(items.len(), |i: int| items[i].shape())
}

/// The shapes of a sequence of entries, one by one.
pub open spec fn entry_shapes(entries: Seq<(String, Value)>) -> Seq<(Seq<char>, Syntax)> {
    Seq::new(entries.len(), |i: int| (entries[i].0@, entries[i].1.shape()))
}

/// What a text in a format is read as: the document that it holds, or the
/// refusal of a text that is malformed or holds anything but strings, arrays
/// and objects.
pub open spec fn reading(text: Seq<char>, format: Format) -> Result<Syntax, LanguageError> {
    match document(text, format) {
        Some(written) if written.is_texts() => Ok(written),
        _ => Err(LanguageError::ParseError),
    }
}

/// What a reading returned, its value as its shape.
pub open spec fn written(r: Result<Value, LanguageError>) -> Result<Syntax, LanguageError> {
    match r {
        Ok(value) => Ok(value.shape()),
        Err(error) => Err(error),
    }
}

impl Value {
    /// Reads a value from a text in a format. The text is refused where it is
    /// malformed (see `document`) and where it holds anything but strings,
    /// arrays and objects; any other text gives the value that it writes down.
    pub fn parse(text: &str, format: Format) -> (r: Result<Value, LanguageError>)
        ensures
            written(r) == reading(text@, format),
    {
        match Node::parse(text, format) {
            Some(node) => Self::from_value(node),
            None => Err(LanguageError::ParseError),
        }
    }

    /// Reads a value from a text that the caller gives away: see `parse`.
    pub fn from_string(text: String, format: Format) -> (r: Result<Value, LanguageError>)
        ensures
            written(r) == reading(text@, format),
    {
        Self::parse(text.as_str(), format)
    }

    /// Takes a parsed document for a value. A document that holds anything but
    /// strings, arrays and tables is refused; any other comes back as it is,
    /// entry by entry.
    pub fn from_value(node: Node) -> (r: Result<Value, LanguageError>)
        ensures
            r is Ok <==> node@.is_texts(),
            r matches Ok(value) ==> value.shape() == node@,
            r matches Err(error) ==> error == LanguageError::ParseError,
    {
        Self::from_node(&node)
    }

    /// Tells whether the value is a string.
    pub fn is_string(&self) -> (r: bool)
        ensures
            r == (self@ is Text),
    {
        matches!(self, Value::String(_))
    }

    /// The string, where the value is one, and nothing where it is not.
    pub fn get_string(&self) -> (r: Option<String>)
        ensures
            match self@ {
                Tree::Text(text) => r matches Some(s) && s@ == text,
                _ => r is None,
            },
    {
        match self {
            Value::String(text) => Some(text.clone()),
            _ => None,
        }
    }

    /// Tells whether the value is an array.
    pub fn is_array(&self) -> (r: bool)
        ensures
            r == (self@ is List),
    {
        matches!(self, Value::Array(_))
    }

    /// Copies of the items, where the value is an array, and nothing where it
    /// is not.
    pub fn get_array(&self) -> (r: Option<Vec<Value>>)
        ensures
            match self.shape() {
                Syntax::List(items) => r matches Some(copies) && shapes_of(copies@) == items,
                _ => r is None,
            },
    {
        match self {
            Value::Array(_) => match Self::duplicate(self) {
                Value::Array(copies) => {
                    proof {
                        lemma_array_shape(copies);
                    }
                    Some(copies)
                },
                _ => None,
            },
            _ => None,
        }
    }

    /// Tells whether the value is an object.
    pub fn is_object(&self) -> (r: bool)
        ensures
            r == (self@ is Table),
    {
        matches!(self, Value::Object(_))
    }

    /// Copies of the entries, where the value is an object, and nothing where
    /// it is not.
    pub fn get_object(&self) -> (r: Option<Vec<(String, Value)>>)
        ensures
            match self.shape() {
                Syntax::Table(entries) => r matches Some(copies) && entry_shapes(copies@)
                    == entries,
                _ => r is None,
            },
    {
        match self {
            Value::Object(_) => match Self::duplicate(self) {
                Value::Object(copies) => {
                    proof {
                        lemma_object_shape(copies);
                    }
                    Some(copies)
                },
                _ => None,
            },
            _ => None,
        }
    }

    /// The value as a text for a reader: a string as it is, an array as
    /// `[a, b]`, an object as `{ key: a, key: b }`, its entries in the order in
    /// which the value holds them.
    pub fn to_string(&self) -> (r: String)
        ensures
            r@ == self.shape().rendered(),
    {
        let mut out = String::new();
        write_value(self, &mut out);
        proof {
            assert(Seq::<char>::empty() + self.shape().rendered() =~= self.shape().rendered());
        }
        out
    }

    /// The value under `key`, where this value is an object that holds the key,
    /// and nothing where it is not.
    pub fn get(&self, key: &str) -> (r: Option<&Value>)
        ensures
            match self@ {
                Tree::Table(table) => match r {
                    Some(value) => table.contains_key(key@) && value@ == table[key@],
                    None => !table.contains_key(key@),
                },
                _ => r is None,
            },
    {
        match self {
            Value::Object(entries) => {
                proof {
                    lemma_object_shape(*entries);
                }
                match position(entries, key) {
                    Some(at) => {
                        proof {
                            lemma_table_last_entry(entry_shapes(entries@), at as int, key@);
                        }
                        Some(&entries[at].1)
                    },
                    None => {
                        proof {
                            lemma_table_without_key(entry_shapes(entries@), key@);
                        }
                        None
                    },
                }
            },
            _ => None,
        }
    }
}

impl PartialEq for Value {
    /// Two values are equal where they mean the same: the order of an object's
    /// entries does not count.
    fn eq(&self, other: &Self) -> (r: bool) {
        equals(self, other)
    }
}

impl vstd::std_specs::cmp::PartialEqSpecImpl for Value {
    open spec fn obeys_eq_spec() -> bool {
        true
    }

    open spec fn eq_spec(&self, other: &Self) -> bool {
        self@ == other@
    }
}

impl Clone for Value {
    /// A copy of the whole value, which shares nothing with it.
    fn clone(&self) -> (r: Self)
        ensures
            r.shape() == self.shape(),
    {
        Self::duplicate(self)
    }
}

impl Value {
    fn from_node(node: &Node) -> (r: Result<Value, LanguageError>)
        ensures
            r is Ok <==> node@.is_texts(),
            r matches Ok(value) ==> value.shape() == node@,
            r matches Err(error) ==> error == LanguageError::ParseError,
        decreases node,
    {
        match node {
            Node::Text(text) => Ok(Value::String(text.clone())),
            Node::List(items) => {
                let mut values: Vec<Value> = Vec::new();
                let mut i: usize = 0;
                while i < items.len()
                    invariant
                        node is List,
                        node->List_0 == *items,
                        i <= items@.len(),
                        values@.len() == i,
                        forall|j: int| 0 <= j < i ==> (#[trigger] items@[j])@.is_texts(),
                        forall|j: int| 0 <= j < i ==> (#[trigger] values@[j]).shape() == items@[j]@,
                    decreases items@.len() - i,
                {
                    match Self::from_node(&items[i]) {
                        Ok(value) => values.push(value),
                        Err(error) => {
                            proof {
                                assert(node@->List_0[i as int] == items@[i as int]@);
                            }
                            return Err(error);
                        },
                    }
                    i += 1;
                }
                let value = Value::Array(values);
                proof {
                    assert(value.shape()->List_0 =~= node@->List_0);
                }
                Ok(value)
            },
            Node::Table(entries) => {
                let mut values: Vec<(String, Value)> = Vec::new();
                let mut i: usize = 0;
                while i < entries.len()
                    invariant
                        node is Table,
                        node->Table_0 == *entries,
                        i <= entries@.len(),
                        values@.len() == i,
                        forall|j: int| 0 <= j < i ==> (#[trigger] entries@[j]).1@.is_texts(),
                        forall|j: int|
                            0 <= j < i ==> (#[trigger] values@[j]).0@ == entries@[j].0@
                                && values@[j].1.shape() == entries@[j].1@,
                    decreases entries@.len() - i,
                {
                    match Self::from_node(&entries[i].1) {
                        Ok(value) => values.push((entries[i].0.clone(), value)),
                        Err(error) => {
                            proof {
                                assert(node@->Table_0[i as int].1 == entries@[i as int].1@);
                            }
                            return Err(error);
                        },
                    }
                    i += 1;
                }
                let value = Value::Object(values);
                proof {
                    assert(value.shape()->Table_0 =~= node@->Table_0);
                }
                Ok(value)
            },
            Node::Other => Err(LanguageError::ParseError),
        }
    }

    fn duplicate(value: &Value) -> (r: Self)
        ensures
            r.shape() == value.shape(),
        decreases value,
    {
        match value {
            Value::String(text) => Value::String(text.clone()),
            Value::Array(items) => {
                let mut copies: Vec<Value> = Vec::new();
                let mut i: usize = 0;
                while i < items.len()
                    invariant
                        value is Array,
                        value->Array_0 == *items,
                        i <= items@.len(),
                        copies@.len() == i,
                        forall|j: int|
                            0 <= j < i ==> (#[trigger] copies@[j]).shape() == items@[j].shape(),
                    decreases items@.len() - i,
                {
                    copies.push(Self::duplicate(&items[i]));
                    i += 1;
                }
                let copy = Value::Array(copies);
                proof {
                    assert(copy.shape()->List_0 =~= value.shape()->List_0);
                }
                copy
            },
            Value::Object(entries) => {
                let mut copies: Vec<(String, Value)> = Vec::new();
                let mut i: usize = 0;
                while i < entries.len()
                    invariant
                        value is Object,
                        value->Object_0 == *entries,
                        i <= entries@.len(),
                        copies@.len() == i,
                        forall|j: int|
                            0 <= j < i ==> (#[trigger] copies@[j]).0@ == entries@[j].0@
                                && copies@[j].1.shape() == entries@[j].1.shape(),
                    decreases entries@.len() - i,
                {
                    copies.push((entries[i].0.clone(), Self::duplicate(&entries[i].1)));
                    i += 1;
                }
                let copy = Value::Object(copies);
                proof {
                    assert(copy.shape()->Table_0 =~= value.shape()->Table_0);
                }
                copy
            },
        }
    }
}

/// The index of the last entry under `key`, if there is one.
fn position(entries: &Vec<(String, Value)>, key: &str) -> (r: Option<usize>)
    ensures
        match r {
            Some(at) => at < entries@.len() && entries@[at as int].0@ == key@ && forall|j: int|
                at < j < entries@.len() ==> (#[trigger] entries@[j]).0@ != key@,
            None => forall|j: int|
                0 <= j < entries@.len() ==> (#[trigger] entries@[j]).0@ != key@,
        },
{
    let mut i: usize = entries.len();
    while i > 0
        invariant
            i <= entries@.len(),
            forall|j: int| i <= j < entries@.len() ==> (#[trigger] entries@[j]).0@ != key@,
        decreases i,
    {
        i -= 1;
        if same(entries[i].0.as_str(), key) {
            return Some(i);
        }
    }
    None
}

/// Tells whether `right` has every key of `left`.
fn has_keys_of(left: &Vec<(String, Value)>, right: &Vec<(String, Value)>) -> (r: bool)
    ensures
        r == forall|key: Seq<char>| #[trigger]
            table_of(entry_shapes(left@)).contains_key(key) ==> table_of(
                entry_shapes(right@),
            ).contains_key(key),
{
    let ghost a = table_of(entry_shapes(left@));
    let ghost b = table_of(entry_shapes(right@));
    let mut i: usize = 0;
    while i < left.len()
        invariant
            i <= left@.len(),
            a == table_of(entry_shapes(left@)),
            b == table_of(entry_shapes(right@)),
            forall|j: int| 0 <= j < i ==> b.contains_key((#[trigger] left@[j]).0@),
        decreases left@.len() - i,
    {
        let key = left[i].0.as_str();
        match position(right, key) {
            Some(to) => {
                proof {
                    lemma_table_last_entry(entry_shapes(right@), to as int, key@);
                }
            },
            None => {
                proof {
                    lemma_table_entry_has_key(entry_shapes(left@), i as int);
                    lemma_table_without_key(entry_shapes(right@), key@);
                }
                return false;
            },
        }
        i += 1;
    }
    proof {
        assert forall|key: Seq<char>| #[trigger] a.contains_key(key) implies b.contains_key(
            key,
        ) by {
            lemma_table_key_has_entry(entry_shapes(left@), key);
            let j = choose|j: int|
                0 <= j < left@.len() && (#[trigger] entry_shapes(left@)[j]).0 == key;
            assert(left@[j].0@ == key);
        }
    }
    true
}

/// Tells whether every key of `left` has in `right` a value that means the
/// same.
fn included(left: &Vec<(String, Value)>, right: &Vec<(String, Value)>) -> (r: bool)
    ensures
        r == forall|key: Seq<char>| #[trigger]
            table_of(entry_shapes(left@)).contains_key(key) ==> table_of(
                entry_shapes(right@),
            ).contains_key(key) && table_of(entry_shapes(left@))[key] == table_of(
                entry_shapes(right@),
            )[key],
    decreases left, 0nat,
{
    let ghost a = table_of(entry_shapes(left@));
    let ghost b = table_of(entry_shapes(right@));
    let mut i: usize = 0;
    while i < left.len()
        invariant
            i <= left@.len(),
            a == table_of(entry_shapes(left@)),
            b == table_of(entry_shapes(right@)),
            forall|j: int|
                0 <= j < i ==> b.contains_key((#[trigger] left@[j]).0@) && a[left@[j].0@]
                    == b[left@[j].0@],
        decreases left@.len() - i,
    {
        let key = left[i].0.as_str();
        let found = position(left, key);
        let other = position(right, key);
        match (found, other) {
            (Some(at), Some(to)) => {
                proof {
                    lemma_table_last_entry(entry_shapes(left@), at as int, key@);
                    lemma_table_last_entry(entry_shapes(right@), to as int, key@);
                }
                if !equals(&left[at].1, &right[to].1) {
                    return false;
                }
            },
            (Some(at), None) => {
                proof {
                    lemma_table_last_entry(entry_shapes(left@), at as int, key@);
                    lemma_table_without_key(entry_shapes(right@), key@);
                }
                return false;
            },
            (None, _) => {
                proof {
                    assert(left@[i as int].0@ == key@);
                }
                return false;
            },
        }
        i += 1;
    }
    proof {
        assert forall|key: Seq<char>| #[trigger] a.contains_key(key) implies b.contains_key(key)
            && a[key] == b[key] by {
            lemma_table_key_has_entry(entry_shapes(left@), key);
            let j = choose|j: int|
                0 <= j < left@.len() && (#[trigger] entry_shapes(left@)[j]).0 == key;
            assert(left@[j].0@ == key);
        }
    }
    true
}

/// Tells whether two values mean the same.
fn equals(left: &Value, right: &Value) -> (r: bool)
    ensures
        r == (left@ == right@),
    decreases left, 1nat,
{
    match left {
        Value::String(a) => match right {
            Value::String(b) => same(a.as_str(), b.as_str()),
            _ => false,
        },
        Value::Array(a) => match right {
            Value::Array(b) => {
                proof {
                    lemma_array_shape(*a);
                    lemma_array_shape(*b);
                }
                if a.len() != b.len() {
                    proof {
                        assert(left@->List_0.len() != right@->List_0.len());
                    }
                    return false;
                }
                let mut i: usize = 0;
                while i < a.len()
                    invariant
                        left is Array,
                        left->Array_0 == *a,
                        right == Value::Array(*b),
                        a@.len() == b@.len(),
                        i <= a@.len(),
                        forall|j: int| 0 <= j < i ==> (#[trigger] a@[j])@ == b@[j]@,
                    decreases a@.len() - i,
                {
                    if !equals(&a[i], &b[i]) {
                        proof {
                            lemma_array_shape(*a);
                            lemma_array_shape(*b);
                            assert(left@->List_0[i as int] == a@[i as int]@);
                            assert(right@->List_0[i as int] == b@[i as int]@);
                        }
                        return false;
                    }
                    i += 1;
                }
                proof {
                    lemma_array_shape(*a);
                    lemma_array_shape(*b);
                    assert(left@->List_0 =~= right@->List_0);
                }
                true
            },
            _ => false,
        },
        Value::Object(a) => match right {
            Value::Object(b) => {
                proof {
                    lemma_object_shape(*a);
                    lemma_object_shape(*b);
                }
                let r = included(a, b) && has_keys_of(b, a);
                proof {
                    if r {
                        assert(table_of(entry_shapes(a@)) =~= table_of(entry_shapes(b@)));
                    }
                }
                r
            },
            _ => false,
        },
    }
}

/// Appends to `out` the text of `value`.
fn write_value(value: &Value, out: &mut String)
    ensures
        final(out)@ == old(out)@ + value.shape().rendered(),
    decreases value,
{
    match value {
        Value::String(text) => {
            out.append(text.as_str());
        },
        Value::Array(items) => {
            proof {
                lemma_array_shape(*items);
            }
            let ghost start = out@;
            let ghost shapes = shapes_of(items@);
            out.append("[");
            let mut i: usize = 0;
            while i < items.len()
                invariant
                    value is Array,
                    value->Array_0 == *items,
                    shapes == shapes_of(items@),
                    i <= items@.len(),
                    out@ == start + "["@ + rendered_items(shapes.take(i as int)),
                decreases items@.len() - i,
            {
                if i > 0 {
                    out.append(", ");
                }
                write_value(&items[i], out);
                proof {
                    let next = shapes.take(i + 1);
                    assert(next.drop_last() =~= shapes.take(i as int));
                    assert(next.last() == items@[i as int].shape());
                    assert(out@ =~= start + "["@ + rendered_items(next));
                }
                i += 1;
            }
            out.append("]");
            proof {
                assert(shapes.take(items@.len() as int) =~= shapes);
                assert(out@ =~= start + value.shape().rendered());
            }
        },
        Value::Object(entries) => {
            proof {
                lemma_object_shape(*entries);
            }
            let ghost start = out@;
            let ghost shapes = entry_shapes(entries@);
            out.append("{ ");
            let mut i: usize = 0;
            while i < entries.len()
                invariant
                    value is Object,
                    value->Object_0 == *entries,
                    shapes == entry_shapes(entries@),
                    i <= entries@.len(),
                    out@ == start + "{ "@ + rendered_entries(shapes.take(i as int)),
                decreases entries@.len() - i,
            {
                if i > 0 {
                    out.append(", ");
                }
                out.append(entries[i].0.as_str());
                out.append(": ");
                write_value(&entries[i].1, out);
                proof {
                    let next = shapes.take(i + 1);
                    assert(next.drop_last() =~= shapes.take(i as int));
                    assert(next.last() == (entries@[i as int].0@, entries@[i as int].1.shape()));
                    assert(out@ =~= start + "{ "@ + rendered_entries(next));
                }
                i += 1;
            }
            out.append(" }");
            proof {
                assert(shapes.take(entries@.len() as int) =~= shapes);
                assert(out@ =~= start + value.shape().rendered());
            }
        },
    }
}

/// Reading is repeatable: two readings of one text in one format are both
/// refused, or give values of the same shape, which mean the same.
pub proof fn lemma_reading_is_repeatable(
    text: Seq<char>,
    format: Format,
    first: Result<Value, LanguageError>,
    second: Result<Value, LanguageError>,
)
    requires
        written(first) == reading(text, format),
        written(second) == reading(text, format),
    ensures
        first is Ok <==> second is Ok,
        first is Ok ==> first->Ok_0.shape() == second->Ok_0.shape() && first->Ok_0@
            == second->Ok_0@,
        first is Err ==> first->Err_0 == second->Err_0,
{
}

/// An array's shape is the list of its items' shapes.
pub proof fn lemma_array_shape(items: Vec<Value>)
    ensures
        Value::Array(items).shape() == Syntax::List(shapes_of(items@)),
{
    assert(Value::Array(items).shape()->List_0 =~= shapes_of(items@));
}

/// An object's shape is the table of its entries' shapes.
pub proof fn lemma_object_shape(entries: Vec<(String, Value)>)
    ensures
        Value::Object(entries).shape() == Syntax::Table(entry_shapes(entries@)),
{
    assert(Value::Object(entries).shape()->Table_0 =~= entry_shapes(entries@));
}

} // verus!
