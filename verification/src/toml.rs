//! TOML documents, read and edited through `toml_edit`.
//!
//! The values of `toml_edit` are opaque here. `item_tree` and `document_tree` stand for
//! what they hold, as a tree; how a document is laid out on the page is not part of it.

use crate::text::texts;
use vstd::prelude::*;

verus! {

/// What a TOML item holds.
pub enum Toml {
    /// No value: an item that `toml_edit` keeps as a placeholder.
    Absent,
    /// A string.
    Text(Seq<char>),
    /// A boolean.
    Flag(bool),
    /// An array of values.
    List(Seq<Toml>),
    /// An inline table: its keys and values in their order.
    Inline(Seq<(Seq<char>, Toml)>),
    /// A table: its keys and items in their order.
    Section(Seq<(Seq<char>, Toml)>),
    /// An array of tables: its tables in their order.
    Sections(Seq<Toml>),
    /// Any other value, a number or a date: the text that it is written as, without the space
    /// and the comments around it.
    Other(Seq<char>),
}

/// The first item under a key.
pub open spec fn lookup(entries: Seq<(Seq<char>, Toml)>, key: Seq<char>) -> Option<Toml>
    decreases entries.len(),
{
    if entries.len() == 0 {
        None
    } else if entries[0].0 == key {
        Some(entries[0].1)
    } else {
        lookup(entries.drop_first(), key)
    }
}

impl Toml {
    /// The keys and items of a table or an inline table.
    pub open spec fn entries(self) -> Seq<(Seq<char>, Toml)> {
        match self {
            Toml::Section(entries) => entries,
            Toml::Inline(entries) => entries,
            _ => Seq::empty(),
        }
    }

    /// The item under a key of a table or an inline table.
    pub open spec fn get(self, key: Seq<char>) -> Option<Toml> {
        lookup(self.entries(), key)
    }

    /// The table under a key; an inline table does not count.
    pub open spec fn section(self, key: Seq<char>) -> Option<Toml> {
        match self.get(key) {
            Some(Toml::Section(entries)) => Some(Toml::Section(entries)),
            _ => None,
        }
    }

    /// The string that the item is.
    pub open spec fn text(self) -> Option<Seq<char>> {
        match self {
            Toml::Text(s) => Some(s),
            _ => None,
        }
    }

    /// The boolean that the item is.
    pub open spec fn flag(self) -> Option<bool> {
        match self {
            Toml::Flag(b) => Some(b),
            _ => None,
        }
    }
}

/// An item of `toml_edit`: a value, a table, an array of tables or nothing.
#[verifier::external_type_specification]
#[verifier::external_body]
pub struct ExItem(toml_edit::Item);

/// A document of `toml_edit`.
#[verifier::external_type_specification]
#[verifier::external_body]
pub struct ExDocumentMut(toml_edit::DocumentMut);

/// What an item holds.
pub uninterp spec fn item_tree(item: toml_edit::Item) -> Toml;

/// What the root item of a document holds.
pub uninterp spec fn document_tree(document: toml_edit::DocumentMut) -> Toml;

/// What a document holds when read from a text, or the message that tells why the text
/// is no TOML.
pub uninterp spec fn toml_parse(text: Seq<char>) -> Result<Toml, Seq<char>>;

/// The text of a document, with its layout and its comments.
pub uninterp spec fn document_text(document: toml_edit::DocumentMut) -> Seq<char>;

// ---- reading ----

/// `toml_edit::DocumentMut::from_str`: reads a document. The outcome is a function of the
/// text; what it reads is a table. An error is given as the message that it displays.
#[verifier::external_body]
pub(crate) fn parse_document(text: &str) -> (r: Result<toml_edit::DocumentMut, String>)
    ensures
        match r {
            Ok(document) => toml_parse(text@) == Ok::<Toml, Seq<char>>(document_tree(document))
                && document_tree(document) is Section,
            Err(message) => toml_parse(text@) == Err::<Toml, Seq<char>>(message@),
        },
{
    text.parse::<toml_edit::DocumentMut>().map_err(|e| e.to_string())
}

/// `toml_edit::DocumentMut::as_item`: the root item of a document.
#[verifier::external_body]
pub(crate) fn document_root(document: &toml_edit::DocumentMut) -> (r: &toml_edit::Item)
    ensures
        item_tree(*r) == document_tree(*document),
{
    document.as_item()
}

/// `toml_edit::Item::get`: the item under a key of a table or an inline table. An item of
/// another kind has none.
#[verifier::external_body]
pub(crate) fn item_get<'a>(item: &'a toml_edit::Item, key: &str) -> (r: Option<&'a toml_edit::Item>)
    ensures
        match r {
            Some(found) => item_tree(*item).get(key@) == Some(item_tree(*found)),
            None => item_tree(*item).get(key@) is None,
        },
{
    item.get(key)
}

/// `toml_edit::Item::is_table`: whether the item is a table. An inline table is none.
#[verifier::external_body]
pub(crate) fn item_is_table(item: &toml_edit::Item) -> (r: bool)
    ensures
        r == (item_tree(*item) is Section),
{
    item.is_table()
}

/// `toml_edit::Item::as_str`: the string that the item is.
#[verifier::external_body]
pub(crate) fn item_text(item: &toml_edit::Item) -> (r: Option<&str>)
    ensures
        match r {
            Some(s) => item_tree(*item).text() == Some(s@),
            None => item_tree(*item).text() is None,
        },
{
    item.as_str()
}

/// `toml_edit::Item::as_bool`: the boolean that the item is.
#[verifier::external_body]
pub(crate) fn item_flag(item: &toml_edit::Item) -> (r: Option<bool>)
    ensures
        r == item_tree(*item).flag(),
{
    item.as_bool()
}

/// `toml_edit::Table::iter`: the keys and items of a table in their order.
#[verifier::external_body]
pub(crate) fn item_entries(item: &toml_edit::Item) -> (r: Vec<(String, &toml_edit::Item)>)
    requires
        item_tree(*item) is Section,
    ensures
        r@.len() == item_tree(*item).entries().len(),
        forall|i: int|
            0 <= i < r@.len() ==> item_tree(*item).entries()[i] == (
                (#[trigger] r@[i]).0@,
                item_tree(*r@[i].1),
            ),
{
    item.as_table().unwrap().iter().map(|(key, value)| (key.to_owned(), value)).collect()
}

/// The strings of an array, with nothing for a value that is none.
pub open spec fn list_texts(list: Seq<Toml>) -> Seq<Option<Seq<char>>> {
    Seq::new(list.len(), |i: int| list[i].text())
}

/// The texts that a list of optional strings holds.
pub open spec fn optional_texts(list: Seq<Option<String>>) -> Seq<Option<Seq<char>>> {
    Seq::new(
        list.len(),
        |i: int|
            match list[i] {
                Some(s) => Some(s@),
                None => None,
            },
    )
}

/// `toml_edit::Array::iter`: the values of the array that the item is, those that are
/// strings as strings.
#[verifier::external_body]
pub(crate) fn item_strings(item: &toml_edit::Item) -> (r: Option<Vec<Option<String>>>)
    ensures
        match r {
            Some(values) => item_tree(*item) is List && optional_texts(values@) == list_texts(
                item_tree(*item)->List_0,
            ),
            None => !(item_tree(*item) is List),
        },
{
    let array = item.as_array()?;
    Some(array.iter().map(|value| value.as_str().map(str::to_owned)).collect())
}

// ---- editing ----

/// A table without entries.
pub open spec fn empty_table() -> Toml {
    Toml::Section(Seq::empty())
}

/// `after` is a table that holds what `before` holds, but perhaps under one key.
pub open spec fn same_but(before: Toml, after: Toml, key: Seq<char>) -> bool {
    &&& after is Section
    &&& forall|k: Seq<char>| k != key ==> #[trigger] after.get(k) == before.get(k)
}

/// `toml_edit::DocumentMut::as_item_mut`: the root item of a document, to be changed.
#[verifier::external_body]
pub(crate) fn document_root_mut(document: &mut toml_edit::DocumentMut) -> (r: &mut toml_edit::Item)
    ensures
        item_tree(*r) == document_tree(*old(document)),
        document_tree(*final(document)) == item_tree(*final(r)),
{
    document.as_item_mut()
}

/// `toml_edit::Table::get_mut`: the item under a key of a table, to be changed. The other
/// keys keep their items, and the table is what it was if the item is.
#[verifier::external_body]
pub(crate) fn item_get_mut<'a>(item: &'a mut toml_edit::Item, key: &str) -> (r: Option<
    &'a mut toml_edit::Item,
>)
    requires
        item_tree(*old(item)) is Section,
    ensures
        match r {
            Some(found) => {
                &&& item_tree(*old(item)).get(key@) == Some(item_tree(*found))
                &&& same_but(item_tree(*old(item)), item_tree(*final(item)), key@)
                &&& item_tree(*final(found)) !is Absent ==> item_tree(*final(item)).get(key@)
                    == Some(item_tree(*final(found)))
                &&& item_tree(*final(found)) == item_tree(*found) ==> item_tree(*final(item))
                    == item_tree(*old(item))
            },
            None => item_tree(*old(item)).get(key@) is None && *final(item) == *old(item),
        },
{
    item.as_table_mut().unwrap().get_mut(key)
}

/// `toml_edit::Table::entry` and `toml_edit::Entry::or_insert`: the item under a key of a
/// table, to be changed. Where there is none, an empty table is put there; a placeholder
/// stays one. The other keys keep their items, and the table is what it was if there was an
/// item and it stays as it is. At which place among the others a new key stands is not
/// said.
#[verifier::external_body]
pub(crate) fn item_entry<'a>(item: &'a mut toml_edit::Item, key: &str) -> (r:
    &'a mut toml_edit::Item)
    requires
        item_tree(*old(item)) is Section,
    ensures
        match item_tree(*old(item)).get(key@) {
            Some(found) => item_tree(*r) == found,
            None => item_tree(*r) == empty_table() || item_tree(*r) is Absent,
        },
        same_but(item_tree(*old(item)), item_tree(*final(item)), key@),
        item_tree(*final(r)) !is Absent ==> item_tree(*final(item)).get(key@) == Some(
            item_tree(*final(r)),
        ),
        item_tree(*old(item)).get(key@) is Some && item_tree(*final(r)) == item_tree(*r)
            ==> item_tree(*final(item)) == item_tree(*old(item)),
{
    let table = item.as_table_mut().unwrap();
    table.entry(key).or_insert(toml_edit::Item::Table(toml_edit::Table::new()))
}

/// `toml_edit::Table::new`: a table without entries, as an item.
#[verifier::external_body]
pub(crate) fn new_table() -> (r: toml_edit::Item)
    ensures
        item_tree(r) == empty_table(),
{
    toml_edit::Item::Table(toml_edit::Table::new())
}

/// An array of strings.
pub open spec fn text_list(list: Seq<Seq<char>>) -> Toml {
    Toml::List(Seq::new(list.len(), |i: int| Toml::Text(list[i])))
}

/// `toml_edit::Array::from_iter`: an array of strings, as an item.
#[verifier::external_body]
pub(crate) fn new_string_array(values: &Vec<String>) -> (r: toml_edit::Item)
    ensures
        item_tree(r) == text_list(texts(values@)),
{
    toml_edit::Item::Value(toml_edit::Value::Array(values.iter().collect()))
}

/// `toml_edit::Table::insert`: puts an item under a key of a table. The other keys keep
/// their items. At which place among the others a new key stands is not said.
#[verifier::external_body]
pub(crate) fn item_insert(item: &mut toml_edit::Item, key: &str, value: toml_edit::Item)
    requires
        item_tree(*old(item)) is Section,
        item_tree(value) !is Absent,
    ensures
        same_but(item_tree(*old(item)), item_tree(*final(item)), key@),
        item_tree(*final(item)).get(key@) == Some(item_tree(value)),
{
    item.as_table_mut().unwrap().insert(key, value);
}

/// `<toml_edit::DocumentMut as std::fmt::Display>::fmt`: the text of a document. It keeps
/// the layout of what was read; how it lays out what was added is not said.
#[verifier::external_body]
pub(crate) fn write_document(document: &toml_edit::DocumentMut) -> (r: String)
    requires
        document_tree(*document) is Section,
    ensures
        r@ == document_text(*document),
{
    document.to_string()
}

/// The table that an item is, or an empty one in its place.
pub open spec fn table_or_empty(item: Option<Toml>) -> Toml {
    match item {
        Some(Toml::Section(entries)) => Toml::Section(entries),
        _ => empty_table(),
    }
}

/// Makes an item a table: an item of another kind is replaced by an empty table.
pub fn ensure_table(item: &mut toml_edit::Item) -> (r: &mut toml_edit::Item)
    ensures
        item_tree(*r) == table_or_empty(Some(item_tree(*old(item)))),
        *final(item) == *final(r),
{
    if !item_is_table(item) {
        *item = new_table();
    }
    item
}

/// The table under a key of an item.
pub fn table_in<'a>(item: &'a toml_edit::Item, key: &str) -> (r: Option<&'a toml_edit::Item>)
    ensures
        match r {
            Some(found) => item_tree(*item).section(key@) == Some(item_tree(*found))
                && item_tree(*found) is Section,
            None => item_tree(*item).section(key@) is None,
        },
{
    match item_get(item, key) {
        Some(found) => if item_is_table(found) {
            Some(found)
        } else {
            None
        },
        None => None,
    }
}

/// The string under a key of a table or an inline table.
pub fn item_string_field(item: &toml_edit::Item, key: &str) -> (r: Option<String>)
    ensures
        match r {
            Some(s) => text_field(item_tree(*item), key@) == Some(s@),
            None => text_field(item_tree(*item), key@) is None,
        },
{
    match item_get(item, key) {
        Some(found) => match item_text(found) {
            Some(s) => Some(s.to_owned()),
            None => None,
        },
        None => None,
    }
}

/// The string under a key.
pub open spec fn text_field(tree: Toml, key: Seq<char>) -> Option<Seq<char>> {
    match tree.get(key) {
        Some(found) => found.text(),
        None => None,
    }
}

/// Whether a table or an inline table has a key.
pub fn item_has_field(item: &toml_edit::Item, key: &str) -> (r: bool)
    ensures
        r == item_tree(*item).get(key@) is Some,
{
    item_get(item, key).is_some()
}

/// The boolean under a key.
pub open spec fn flag_field(tree: Toml, key: Seq<char>) -> Option<bool> {
    match tree.get(key) {
        Some(found) => found.flag(),
        None => None,
    }
}

/// The boolean under a key of a table or an inline table.
pub fn item_bool_field(item: &toml_edit::Item, key: &str) -> (r: Option<bool>)
    ensures
        r == flag_field(item_tree(*item), key@),
{
    match item_get(item, key) {
        Some(found) => item_flag(found),
        None => None,
    }
}

/// In two lists of entries that follow each other a key is looked up in the first, and in the
/// second only if it is not there; a single entry is found under its own key alone.
pub proof fn lemma_lookup(
    a: Seq<(Seq<char>, Toml)>,
    b: Seq<(Seq<char>, Toml)>,
    key: Seq<char>,
    other: Seq<char>,
    item: Toml,
)
    ensures
        lookup(a + b, key) == if lookup(a, key) is Some {
            lookup(a, key)
        } else {
            lookup(b, key)
        },
        lookup(Seq::empty(), key) is None,
        lookup(seq![(key, item)], key) == Some(item),
        other != key ==> lookup(seq![(other, item)], key) is None,
    decreases a.len(),
{
    assert(seq![(key, item)][0] == (key, item));
    assert(seq![(other, item)][0] == (other, item));
    assert(seq![(other, item)].drop_first() =~= Seq::empty());
    assert(lookup(seq![(other, item)].drop_first(), key) is None);
    if a.len() == 0 {
        assert(a + b =~= b);
    } else {
        lemma_lookup(a.drop_first(), b, key, other, item);
        assert((a + b).drop_first() =~= a.drop_first() + b);
        assert((a + b)[0] == a[0]);
    }
}

} // verus!
