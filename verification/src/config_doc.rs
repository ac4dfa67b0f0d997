//! TOML configuration documents: what they hold, how a document is edited in
//! place and how one is read.

use vstd::prelude::*;

use crate::text::{is_sorted_set, opt, strings};

verus! {

/// What a TOML item holds. An inline table is told apart in a document under
/// edit, but not in one that is read; everything else is known by how it is
/// written.
pub enum Toml {
    Text(Seq<char>),
    Integer(int),
    Table(Map<Seq<char>, Toml>),
    Inline(Map<Seq<char>, Toml>),
    Other(Seq<char>),
}

impl Toml {
    /// A table of either kind.
    pub open spec fn is_tabular(self) -> bool {
        self is Table || self is Inline
    }

    /// What a table of either kind holds; nothing where it is none.
    pub open spec fn contents(self) -> Map<Seq<char>, Toml> {
        match self {
            Toml::Table(entries) => entries,
            Toml::Inline(entries) => entries,
            _ => no_entries(),
        }
    }

    /// A table of the same kind that holds something else.
    pub open spec fn holding(self, entries: Map<Seq<char>, Toml>) -> Toml {
        match self {
            Toml::Table(_) => Toml::Table(entries),
            Toml::Inline(_) => Toml::Inline(entries),
            other => other,
        }
    }
}

pub open spec fn no_entries() -> Map<Seq<char>, Toml> {
    Map::empty()
}

/// The string under a key, where there is one.
pub open spec fn text_under(entries: Map<Seq<char>, Toml>, key: Seq<char>) -> Option<Seq<char>> {
    if entries.contains_key(key) {
        match entries[key] {
            Toml::Text(text) => Some(text),
            _ => None,
        }
    } else {
        None
    }
}

/// What the table under a key holds, of whichever kind it is.
pub open spec fn contents_under(entries: Map<Seq<char>, Toml>, key: Seq<char>) -> Option<
    Map<Seq<char>, Toml>,
> {
    if entries.contains_key(key) && entries[key].is_tabular() {
        Some(entries[key].contents())
    } else {
        None
    }
}

/// What the table under a key of the table under a key holds.
pub open spec fn contents_at(
    entries: Map<Seq<char>, Toml>,
    outer: Seq<char>,
    inner: Seq<char>,
) -> Option<Map<Seq<char>, Toml>> {
    match contents_under(entries, outer) {
        Some(table) => contents_under(table, inner),
        None => None,
    }
}

/// What a table that is not inline holds.
pub open spec fn table_under(entries: Map<Seq<char>, Toml>, key: Seq<char>) -> Option<
    Map<Seq<char>, Toml>,
> {
    if entries.contains_key(key) && entries[key] is Table {
        Some(entries[key].contents())
    } else {
        None
    }
}

pub open spec fn table_at(
    entries: Map<Seq<char>, Toml>,
    outer: Seq<char>,
    inner: Seq<char>,
) -> Option<Map<Seq<char>, Toml>> {
    match table_under(entries, outer) {
        Some(table) => table_under(table, inner),
        None => None,
    }
}

/// The key by which the `toml` crate marks a table that stands for a date.
pub const DATE_MARK: &'static str = "$__toml_private_datetime";

/// Whether a configuration that was read says the same as the document that it
/// was written from. Every table at the top, and every table in one, comes from
/// the document and holds its strings; and of these tables of the document none
/// with a string is missing, unless the mark of a date hides it.
pub open spec fn agrees(config: Map<Seq<char>, Toml>, document: Map<Seq<char>, Toml>) -> bool {
    &&& same_texts(config, document)
    &&& forall|outer: Seq<char>| #[trigger]
        table_under(config, outer) is Some ==> {
            &&& table_under(config, outer)->0.dom().finite()
            &&& contents_under(document, outer) is Some
            &&& same_texts(table_under(config, outer)->0, contents_under(document, outer)->0)
        }
    &&& forall|outer: Seq<char>, inner: Seq<char>| #[trigger]
        table_at(config, outer, inner) is Some ==> {
            &&& contents_at(document, outer, inner) is Some
            &&& same_texts(table_at(config, outer, inner)->0, contents_at(document, outer, inner)->0)
        }
    &&& forall|outer: Seq<char>| #[trigger]
        is_kept_at_top(document, outer) ==> table_under(config, outer) is Some
    &&& forall|outer: Seq<char>, inner: Seq<char>| #[trigger]
        is_kept(document, outer, inner) ==> table_at(config, outer, inner) is Some
}

/// A table that holds a string, and no mark of a date.
pub open spec fn is_kept_at_top(document: Map<Seq<char>, Toml>, outer: Seq<char>) -> bool {
    &&& contents_under(document, outer) is Some
    &&& exists|key: Seq<char>| #[trigger]
        text_under(contents_under(document, outer)->0, key) is Some
    &&& !contents_under(document, outer)->0.contains_key(DATE_MARK@)
}

/// A table in a table that holds a string, and no mark of a date on the way.
pub open spec fn is_kept(
    document: Map<Seq<char>, Toml>,
    outer: Seq<char>,
    inner: Seq<char>,
) -> bool {
    &&& contents_at(document, outer, inner) is Some
    &&& exists|key: Seq<char>| #[trigger]
        text_under(contents_at(document, outer, inner)->0, key) is Some
    &&& !contents_under(document, outer)->0.contains_key(DATE_MARK@)
    &&& !contents_at(document, outer, inner)->0.contains_key(DATE_MARK@)
}

pub open spec fn same_texts(a: Map<Seq<char>, Toml>, b: Map<Seq<char>, Toml>) -> bool {
    forall|key: Seq<char>| #[trigger] text_under(a, key) == text_under(b, key)
}

// ---------------------------------------------------------------------------
// Documents under edit

#[verifier::external_type_specification]
#[verifier::external_body]
pub struct ExDocumentMut(toml_edit::DocumentMut);

#[verifier::external_type_specification]
#[verifier::external_body]
pub struct ExItem(toml_edit::Item);

/// A document that was parsed, or that started out empty, and was edited through
/// this module alone: what stands between its items is blank or a comment.
pub struct ConfigDocument {
    pub(crate) doc: toml_edit::DocumentMut,
}

/// What the root of a document holds.
pub uninterp spec fn document_held(doc: toml_edit::DocumentMut) -> Toml;

/// What an item of a document holds.
pub uninterp spec fn item_held(item: toml_edit::Item) -> Toml;

/// The root table that a text spells, or the message of the parser.
pub uninterp spec fn document_spelled(text: Seq<char>) -> Result<Map<Seq<char>, Toml>, Seq<char>>;

/// The text that a document is written as.
pub uninterp spec fn document_spelling(doc: toml_edit::DocumentMut) -> Seq<char>;

/// `toml_edit::DocumentMut::new`: a document that holds nothing.
#[verifier::external_body]
pub(crate) fn new_document() -> (r: ConfigDocument)
    ensures
        document_held(r.doc) == Toml::Table(no_entries()),
{
    ConfigDocument { doc: toml_edit::DocumentMut::new() }
}

/// `FromStr` of `toml_edit::DocumentMut`: the document that a text spells, or the
/// message of the error. The outcome depends on the text alone; it is named by
/// `document_spelled`, and the grammar of TOML is not spelled out.
#[verifier::external_body]
pub(crate) fn parse_document(text: &str) -> (r: Result<ConfigDocument, String>)
    ensures
        match document_spelled(text@) {
            Ok(entries) => r is Ok && document_held(r->Ok_0.doc) == Toml::Table(entries),
            Err(message) => r is Err && r->Err_0@ == message,
        },
{
    text.parse().map(|doc| ConfigDocument { doc }).map_err(|e: toml_edit::TomlError| e.to_string())
}

/// `toml_edit::DocumentMut::as_item_mut`: the root. What becomes of it becomes of
/// the document.
#[verifier::external_body]
pub(crate) fn root_mut<'a>(config: &'a mut ConfigDocument) -> (r: &'a mut toml_edit::Item)
    ensures
        item_held(*r) == document_held(old(config).doc),
        document_held(final(config).doc) == item_held(*final(r)),
{
    config.doc.as_item_mut()
}

/// `Display` of `toml_edit::DocumentMut`: the document as text, named by
/// `document_spelling`. Claimed is what `toml::from_str` finds in that text where
/// it accepts it: a table, unless the root holds the mark of a date, and one
/// that agrees with the document. Whether it accepts the text, and how the text
/// is laid out, is left unsaid.
#[verifier::external_body]
pub(crate) fn document_text(config: &ConfigDocument) -> (r: String)
    ensures
        r@ == document_spelling(config.doc),
        config_spelled(r@) is Some && !document_held(config.doc).contents().contains_key(DATE_MARK@)
            ==> config_spelled(r@)->0 is Table,
        config_spelled(r@) is Some && config_spelled(r@)->0 is Table ==> agrees(
            config_spelled(r@)->0.contents(),
            document_held(config.doc).contents(),
        ),
{
    config.doc.to_string()
}

/// `toml_edit::TableLike::entry`, and an assignment to what it holds: the key of
/// a table holds a string, whatever it held.
#[verifier::external_body]
pub(crate) fn put_text(item: &mut toml_edit::Item, key: &str, text: &str)
    requires
        item_held(*old(item)).is_tabular(),
    ensures
        item_held(*final(item)) == item_held(*old(item)).holding(
            item_held(*old(item)).contents().insert(key@, Toml::Text(text@)),
        ),
{
    if let Some(table) = item.as_table_like_mut() {
        *table.entry(key).or_insert(toml_edit::Item::None) = toml_edit::value(text);
    }
}

/// The same with an integer.
#[verifier::external_body]
pub(crate) fn put_integer(item: &mut toml_edit::Item, key: &str, number: i64)
    requires
        item_held(*old(item)).is_tabular(),
    ensures
        item_held(*final(item)) == item_held(*old(item)).holding(
            item_held(*old(item)).contents().insert(key@, Toml::Integer(number as int)),
        ),
{
    if let Some(table) = item.as_table_like_mut() {
        *table.entry(key).or_insert(toml_edit::Item::None) = toml_edit::value(number);
    }
}

/// `toml_edit::Table::insert` of a new table: the key of a table that is not
/// inline holds an empty table, whatever it held.
#[verifier::external_body]
pub(crate) fn put_table(item: &mut toml_edit::Item, key: &str)
    requires
        item_held(*old(item)) is Table,
    ensures
        item_held(*final(item)) == Toml::Table(
            item_held(*old(item)).contents().insert(key@, Toml::Table(no_entries())),
        ),
{
    if let Some(table) = item.as_table_mut() {
        table.insert(key, toml_edit::Item::Table(toml_edit::Table::new()));
    }
}

/// `toml_edit::TableLike::remove`: the key of a table holds nothing.
#[verifier::external_body]
pub(crate) fn remove_item(item: &mut toml_edit::Item, key: &str)
    requires
        item_held(*old(item)).is_tabular(),
    ensures
        item_held(*final(item)) == item_held(*old(item)).holding(
            item_held(*old(item)).contents().remove(key@),
        ),
{
    if let Some(table) = item.as_table_like_mut() {
        table.remove(key);
    }
}

/// `toml_edit::TableLike::get`, for whether the key of a table holds anything.
#[verifier::external_body]
pub(crate) fn has_item(item: &toml_edit::Item, key: &str) -> (r: bool)
    ensures
        r == item_held(*item).contents().contains_key(key@),
{
    item.as_table_like().and_then(|table| table.get(key)).is_some()
}

/// `toml_edit::Item::as_str` of what `toml_edit::TableLike::get` gives: whether
/// the key of a table holds a string.
#[verifier::external_body]
pub(crate) fn has_text(item: &toml_edit::Item, key: &str) -> (r: bool)
    ensures
        r == (text_under(item_held(*item).contents(), key@) is Some),
{
    item.as_table_like().and_then(|table| table.get(key)).and_then(|item| item.as_str()).is_some()
}

/// `toml_edit::Item::as_integer` of what `toml_edit::TableLike::get` gives:
/// whether the key of a table holds an integer.
#[verifier::external_body]
pub(crate) fn has_integer(item: &toml_edit::Item, key: &str) -> (r: bool)
    ensures
        r == (item_held(*item).contents().contains_key(key@)
            && item_held(*item).contents()[key@] is Integer),
{
    item.as_table_like()
        .and_then(|table| table.get(key))
        .and_then(|item| item.as_integer())
        .is_some()
}

/// `toml_edit::Item::is_table`: whether an item is a table that is not inline.
#[verifier::external_body]
pub(crate) fn is_table(item: &toml_edit::Item) -> (r: bool)
    ensures
        r == (item_held(*item) is Table),
{
    item.is_table()
}

/// `toml_edit::Item::is_table_like`: whether an item is a table of either kind.
#[verifier::external_body]
pub(crate) fn is_table_like(item: &toml_edit::Item) -> (r: bool)
    ensures
        r == item_held(*item).is_tabular(),
{
    item.is_table_like()
}

/// `toml_edit::TableLike::get`: what a key of a table holds.
#[verifier::external_body]
pub(crate) fn item_under<'a>(item: &'a toml_edit::Item, key: &str) -> (r: Option<
    &'a toml_edit::Item,
>)
    ensures
        r is Some <==> item_held(*item).contents().contains_key(key@),
        r is Some ==> item_held(*r->0) == item_held(*item).contents()[key@],
{
    item.as_table_like()?.get(key)
}

/// `toml_edit::TableLike::get_mut`: what a key of a table holds. What becomes of
/// it becomes of the table.
#[verifier::external_body]
pub(crate) fn item_under_mut<'a>(item: &'a mut toml_edit::Item, key: &str) -> (r: Option<
    &'a mut toml_edit::Item,
>)
    ensures
        match r {
            Some(inner) => {
                &&& item_held(*old(item)).contents().contains_key(key@)
                &&& item_held(*inner) == item_held(*old(item)).contents()[key@]
                &&& item_held(*final(item)) == item_held(*old(item)).holding(
                    item_held(*old(item)).contents().insert(key@, item_held(*final(inner))),
                )
            },
            None => {
                &&& !item_held(*old(item)).contents().contains_key(key@)
                &&& item_held(*final(item)) == item_held(*old(item))
            },
        },
{
    item.as_table_like_mut()?.get_mut(key)
}

/// The keys that `toml_edit::TableLike::iter` gives: each key of a table, once.
#[verifier::external_body]
pub(crate) fn item_names(item: &toml_edit::Item) -> (r: Vec<String>)
    requires
        item_held(*item).is_tabular(),
    ensures
        strings(r@).no_duplicates(),
        forall|key: Seq<char>| #[trigger]
            strings(r@).contains(key) <==> item_held(*item).contents().contains_key(key),
{
    match item.as_table_like() {
        Some(table) => table.iter().map(|(key, _)| key.to_owned()).collect(),
        None => Vec::new(),
    }
}

// ---------------------------------------------------------------------------
// Reading

#[verifier::external_type_specification]
#[verifier::external_body]
pub struct ExTomlValue(toml::Value);

/// What a value holds.
pub uninterp spec fn value_held(value: toml::Value) -> Toml;

/// What a configuration text spells, where it is accepted: mostly a table.
pub uninterp spec fn config_spelled(text: Seq<char>) -> Option<Toml>;

/// `toml::from_str` into a `toml::Value`: what a text spells, and nothing where it
/// is not accepted. The outcome depends on the text alone; it is named by
/// `config_spelled`, and the grammar of TOML is not spelled out.
#[verifier::external_body]
pub(crate) fn parse_config(text: &str) -> (r: Option<toml::Value>)
    ensures
        match config_spelled(text@) {
            Some(held) => r is Some && value_held(r->0) == held,
            None => r is None,
        },
{
    toml::from_str(text).ok()
}

/// `toml::Value::get` with a string: what a table holds under the key; nothing
/// of a value that is no table.
#[verifier::external_body]
pub(crate) fn value_under<'a>(value: &'a toml::Value, key: &str) -> (r: Option<&'a toml::Value>)
    ensures
        match value_held(*value) {
            Toml::Table(entries) => {
                &&& r is Some <==> entries.contains_key(key@)
                &&& r is Some ==> value_held(*r->0) == entries[key@]
            },
            _ => r is None,
        },
{
    value.get(key)
}

/// `toml::Value::as_str`: the string that a value is.
#[verifier::external_body]
pub(crate) fn value_text(value: &toml::Value) -> (r: Option<String>)
    ensures
        opt(r) == (match value_held(*value) {
            Toml::Text(text) => Some(text),
            _ => None,
        }),
{
    value.as_str().map(|s| s.to_owned())
}

/// `toml::Value::as_table` and the keys of that table, which come in order: each
/// key of the table, once.
#[verifier::external_body]
pub(crate) fn value_names(value: &toml::Value) -> (r: Option<Vec<String>>)
    ensures
        match value_held(*value) {
            Toml::Table(entries) => {
                &&& r is Some
                &&& is_sorted_set(strings(r->0@))
                &&& forall|key: Seq<char>| #[trigger]
                    strings(r->0@).contains(key) <==> entries.contains_key(key)
            },
            _ => r is None,
        },
{
    value.as_table().map(|table| table.keys().cloned().collect())
}

} // verus!
