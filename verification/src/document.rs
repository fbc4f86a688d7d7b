//! Configuration text as a tree of plain values. The TOML syntax is the
//! `toml_edit` crate's; this module holds what it hands over.
//!
//! `toml_edit` is the parser under the `toml` crate, and is called directly
//! because the way through `toml` is a parse by serde: into a type of this library
//! that needs a derive, which verified code cannot have, and `toml::Value` takes a
//! table that starts with the key `$__toml_private_datetime` for a date-time.

use vstd::prelude::*;

use crate::text;

verus! {

/// A TOML value. Floats and date-times occur in no setting, so only their
/// presence is kept.
#[derive(Debug)]
pub enum Item {
    Integer(i64),
    Boolean(bool),
    Text(String),
    Float,
    Datetime,
    Array(Vec<Item>),
    Table(Vec<(String, Item)>),
}

/// What an [`Item`] says.
pub ghost enum ItemModel {
    Integer(i64),
    Boolean(bool),
    Text(Seq<char>),
    Float,
    Datetime,
    Array(Seq<ItemModel>),
    Table(Seq<(Seq<char>, ItemModel)>),
}

impl View for Item {
    type V = ItemModel;

    open spec fn view(&self) -> ItemModel {
        model(*self)
    }
}

/// What an item says: a table or an array, what its parts say.
pub open spec fn model(item: Item) -> ItemModel
    decreases item,
{
    match item {
        Item::Integer(n) => ItemModel::Integer(n),
        Item::Boolean(b) => ItemModel::Boolean(b),
        Item::Text(t) => ItemModel::Text(t@),
        Item::Float => ItemModel::Float,
        Item::Datetime => ItemModel::Datetime,
        Item::Array(items) => ItemModel::Array(
            Seq::new(
                items@.len(),
                |i: int|
                    if 0 <= i < items@.len() {
                        model(items@[i])
                    } else {
                        ItemModel::Float
                    },
            ),
        ),
        Item::Table(entries) => ItemModel::Table(
            Seq::new(
                entries@.len(),
                |i: int|
                    if 0 <= i < entries@.len() {
                        (entries@[i].0@, model(entries@[i].1))
                    } else {
                        (Seq::empty(), ItemModel::Float)
                    },
            ),
        ),
    }
}

/// What the elements of an array say.
pub open spec fn elements(items: Seq<Item>) -> Seq<ItemModel> {
    items.map_values(|item: Item| item@)
}

/// What the entries of a table say.
pub open spec fn table(entries: Seq<(String, Item)>) -> Seq<(Seq<char>, ItemModel)> {
    entries.map_values(|entry: (String, Item)| (entry.0@, entry.1@))
}

/// An array says what its elements say.
pub proof fn lemma_array(items: Vec<Item>)
    ensures
        Item::Array(items)@ == ItemModel::Array(elements(items@)),
{
    assert(Item::Array(items)@->Array_0 =~= elements(items@));
}

/// A table says what its entries say.
pub proof fn lemma_table(entries: Vec<(String, Item)>)
    ensures
        Item::Table(entries)@ == ItemModel::Table(table(entries@)),
{
    assert(Item::Table(entries)@->Table_0 =~= table(entries@));
}

/// A value as the `toml_edit` crate represents it.
#[verifier::external_type_specification]
#[verifier::external_body]
pub struct ExTomlValue(toml_edit::Value);

/// Why the `toml_edit` crate refused a text.
#[verifier::external_type_specification]
#[verifier::external_body]
pub struct ExTomlError(toml_edit::TomlError);

/// What `toml_edit::ImDocument::parse` makes of a text: its root table, as a
/// value, or the error with which it refuses the text.
pub uninterp spec fn toml_document(
    text: Seq<char>,
) -> Result<toml_edit::Value, toml_edit::TomlError>;

/// What a value of the `toml_edit` crate holds.
pub uninterp spec fn toml_item(value: toml_edit::Value) -> ItemModel;

/// `toml_edit::ImDocument::parse`, with the root table of the document turned
/// into a value: the outcome, value or error, is [`toml_document`] of the text.
#[verifier::external_body]
fn parse_toml(text: &str) -> (parsed: Result<toml_edit::Value, toml_edit::TomlError>)
    ensures
        parsed == toml_document(text@),
{
    toml_edit::ImDocument::parse(text).map(
        |document| toml_edit::Value::from(document.into_table().into_inline_table()),
    )
}

/// Turns a value of the `toml_edit` crate into an [`Item`], variant for variant;
/// array elements and table entries keep the order of the document. The result
/// says [`toml_item`] of the value.
#[verifier::external_body]
fn item_of_toml(value: toml_edit::Value) -> (item: Item)
    ensures
        item@ == toml_item(value),
{
    match value {
        toml_edit::Value::Integer(n) => Item::Integer(n.into_value()),
        toml_edit::Value::Boolean(b) => Item::Boolean(b.into_value()),
        toml_edit::Value::String(s) => Item::Text(s.into_value()),
        toml_edit::Value::Float(_) => Item::Float,
        toml_edit::Value::Datetime(_) => Item::Datetime,
        toml_edit::Value::Array(items) => Item::Array(
            items.into_iter().map(item_of_toml).collect(),
        ),
        toml_edit::Value::InlineTable(table) => Item::Table(
            table.into_iter().map(|(key, value)| (key.to_string(), item_of_toml(value))).collect(),
        ),
    }
}

/// The document that a text writes, or why it is not TOML.
pub open spec fn document_of(text: Seq<char>) -> Result<ItemModel, toml_edit::TomlError> {
    match toml_document(text) {
        Ok(value) => Ok(toml_item(value)),
        Err(e) => Err(e),
    }
}

/// Reads a TOML document.
pub fn read_document(text: &str) -> (document: Result<Item, toml_edit::TomlError>)
    ensures
        match document {
            Ok(item) => document_of(text@) == Ok::<ItemModel, toml_edit::TomlError>(item@),
            Err(e) => document_of(text@) == Err::<ItemModel, toml_edit::TomlError>(e),
        },
{
    match parse_toml(text) {
        Ok(value) => Ok(item_of_toml(value)),
        Err(e) => Err(e),
    }
}

/// The value that a table gives `key`.
pub open spec fn field(entries: Seq<(Seq<char>, ItemModel)>, key: Seq<char>) -> Option<ItemModel>
    decreases entries.len(),
{
    if entries.len() == 0 {
        None
    } else if entries[0].0 == key {
        Some(entries[0].1)
    } else {
        field(entries.drop_first(), key)
    }
}

/// The value that a table gives `key`.
pub fn get_field<'a>(entries: &'a Vec<(String, Item)>, key: &str) -> (item: Option<&'a Item>)
    ensures
        match item {
            Some(i) => field(table(entries@), key@) == Some(i@),
            None => field(table(entries@), key@) is None,
        },
{
    let ghost model = table(entries@);
    let mut at: usize = 0;
    assert(model.skip(0) == model);
    while at < entries.len()
        invariant
            at <= entries@.len(),
            model == table(entries@),
            field(model, key@) == field(model.skip(at as int), key@),
        decreases entries@.len() - at,
    {
        if text::same_text(entries[at].0.as_str(), key) {
            return Some(&entries[at].1);
        }
        assert(model.skip(at as int).drop_first() == model.skip(at + 1));
        at = at + 1;
    }
    None
}

/// A table gives a key what stands with it, the first if there were several, and
/// gives nothing to a key that stands nowhere in it.
pub proof fn law_field(entries: Seq<(Seq<char>, ItemModel)>, key: Seq<char>, i: int)
    ensures
        0 <= i < entries.len() && entries[i].0 == key && (forall|j: int|
            0 <= j < i ==> (#[trigger] entries[j]).0 != key) ==> field(entries, key) == Some(
            entries[i].1,
        ),
        (forall|j: int| 0 <= j < entries.len() ==> (#[trigger] entries[j]).0 != key) ==> field(
            entries,
            key,
        ) is None,
    decreases entries.len(),
{
    if entries.len() > 0 && entries[0].0 != key {
        let rest = entries.drop_first();
        assert(forall|j: int| 0 <= j < rest.len() ==> #[trigger] rest[j] == entries[j + 1]);
        law_field(rest, key, i - 1);
        if 0 <= i < entries.len() && entries[i].0 == key {
            assert(rest[i - 1] == entries[i]);
        }
    }
}

/// An item says what it holds, and one that holds others says what those say, each
/// in its place.
pub proof fn law_item_says_what_it_holds(
    n: i64,
    b: bool,
    t: String,
    items: Vec<Item>,
    entries: Vec<(String, Item)>,
    i: int,
)
    ensures
        Item::Integer(n)@ == ItemModel::Integer(n),
        Item::Boolean(b)@ == ItemModel::Boolean(b),
        Item::Text(t)@ == ItemModel::Text(t@),
        Item::Float@ == ItemModel::Float,
        Item::Datetime@ == ItemModel::Datetime,
        Item::Array(items)@ matches ItemModel::Array(said) && said.len() == items@.len() && (0 <= i
            < said.len() ==> said[i] == items@[i]@),
        Item::Table(entries)@ matches ItemModel::Table(said) && said.len() == entries@.len() && (0
            <= i < said.len() ==> said[i].0 == entries@[i].0@ && said[i].1 == entries@[i].1@),
{
    lemma_array(items);
    lemma_table(entries);
}

} // verus!
