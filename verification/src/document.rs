//! TOML documents that keep their comments and their layout while they are edited.

use vstd::prelude::*;
use crate::api::types::text_option;
use crate::text::{is_blank, pair_views, texts};

verus! {

/// `toml_edit::DocumentMut`: a TOML document in memory.
#[verifier::external_type_specification]
#[verifier::external_body]
pub struct ExDocument(toml_edit::DocumentMut);

/// An item of a document.
pub enum ItemView {
    /// A string.
    Text(Seq<char>),
    /// An integer.
    Integer(int),
    /// A boolean.
    Boolean(bool),
    /// A number with a fraction or a date, as it is written.
    Literal(Seq<char>),
    /// An array.
    Array,
    /// A table that has a header, or that dotted keys make.
    Table,
    /// A table between braces.
    Braces,
    /// A list of tables that have headers.
    Tables,
}

/// What a document holds, by the path of keys that leads there.
pub type Items = Map<Seq<Seq<char>>, ItemView>;

/// What a document holds.
pub uninterp spec fn document_items(document: toml_edit::DocumentMut) -> Map<
    Seq<Seq<char>>,
    ItemView,
>;

/// The document that a text is, where it is one.
pub uninterp spec fn parsed_document(text: Seq<char>) -> Option<toml_edit::DocumentMut>;

/// The text of a document.
pub uninterp spec fn document_text(document: toml_edit::DocumentMut) -> Seq<char>;

/// A document with a string under a key.
pub uninterp spec fn document_with_string(
    document: toml_edit::DocumentMut,
    key: Seq<char>,
    value: Seq<char>,
) -> toml_edit::DocumentMut;

/// A document with an empty table under a key.
pub uninterp spec fn document_with_table(
    document: toml_edit::DocumentMut,
    key: Seq<char>,
) -> toml_edit::DocumentMut;

/// A document with a table of strings as an entry of a table.
pub uninterp spec fn document_with_entry(
    document: toml_edit::DocumentMut,
    table: Seq<char>,
    name: Seq<char>,
    fields: Seq<(Seq<char>, Seq<char>)>,
) -> toml_edit::DocumentMut;

/// A document with a copy of one of its items in an entry of a table.
pub uninterp spec fn document_with_copy(
    document: toml_edit::DocumentMut,
    source: Seq<char>,
    table: Seq<char>,
    name: Seq<char>,
    key: Seq<char>,
) -> toml_edit::DocumentMut;

/// Whether a document can be had by reading a text and by edits of this module, where they
/// leave a layout that can be read: a comment or a line break in front of a key does not
/// come into a header, nor a comment behind a value between braces.
pub uninterp spec fn is_from_text(document: toml_edit::DocumentMut) -> bool;

/// The document that a new configuration starts from.
pub const NEW_DOCUMENT: &'static str =
    "permission_mode = \"default\"\nmax_tokens = 16384\nauto_compact_threshold = 0.8\n# claux configuration\n";

/// What a new configuration starts from.
pub open spec fn new_items() -> Items {
    Map::empty().insert(seq!["permission_mode"@], ItemView::Text("default"@)).insert(
        seq!["max_tokens"@],
        ItemView::Integer(16384),
    ).insert(seq!["auto_compact_threshold"@], ItemView::Literal("0.8"@))
}

/// The string at a path.
pub open spec fn text_at(items: Items, path: Seq<Seq<char>>) -> Option<Seq<char>> {
    if items.dom().contains(path) {
        match items[path] {
            ItemView::Text(t) => Some(t),
            _ => None,
        }
    } else {
        None
    }
}

/// Whether there is a table at a path.
pub open spec fn is_table(items: Items, path: Seq<Seq<char>>) -> bool {
    items.dom().contains(path) && (items[path] is Table || items[path] is Braces)
}

/// Whether a table has an entry of a name.
pub open spec fn has_entry(items: Items, table: Seq<char>, name: Seq<char>) -> bool {
    items.dom().contains(seq![table, name])
}

/// Whether an item is written as the value of a key, and not under a header.
pub open spec fn is_value(item: ItemView) -> bool {
    !(item is Table) && !(item is Tables)
}

/// Whether an item is not written: it has a header, or is below one that has, but stands in
/// a table between braces, where there are no headers.
pub open spec fn is_dropped(items: Items, path: Seq<Seq<char>>) -> bool {
    exists|n: int, m: int|
        0 < n < m <= path.len() && is_braced(items, #[trigger] path.take(n)) && is_headed(
            items,
            #[trigger] path.take(m),
        )
}

/// Whether there is a table between braces at a path.
pub open spec fn is_braced(items: Items, path: Seq<Seq<char>>) -> bool {
    items.dom().contains(path) && items[path] is Braces
}

/// Whether there is something at a path that is written under a header.
pub open spec fn is_headed(items: Items, path: Seq<Seq<char>>) -> bool {
    items.dom().contains(path) && !is_value(items[path])
}

/// Whether an entry of a table can be set under a header: it is not the value of a key, or
/// it is between braces, where it is not written.
pub open spec fn takes_header(items: Items, table: Seq<char>, name: Seq<char>) -> bool {
    ||| !has_entry(items, table, name)
    ||| !is_value(items[seq![table, name]])
    ||| is_braced(items, seq![table])
}

/// What is written of items.
pub open spec fn written(items: Items) -> Items {
    Map::new(
        |path: Seq<Seq<char>>| items.dom().contains(path) && !is_dropped(items, path),
        |path: Seq<Seq<char>>| items[path],
    )
}

/// Whether items are those of a document that was read: there are so many of them, each is
/// in the ones that its path leads through, and all of them are written.
pub open spec fn is_whole(items: Items) -> bool {
    &&& items.dom().finite()
    &&& forall|path: Seq<Seq<char>>, n: int|
        #![trigger items.dom().contains(path), path.take(n)]
        items.dom().contains(path) && 0 < n <= path.len() ==> items.dom().contains(path.take(n))
    &&& written(items) == items
}

/// Whether a text is a document, and holds what is written of items.
pub open spec fn reads_as(text: Seq<char>, items: Items) -> bool {
    match parsed_document(text) {
        Some(document) => document_items(document) == written(items),
        None => false,
    }
}

/// The last value of a field.
pub open spec fn field_value(fields: Seq<(Seq<char>, Seq<char>)>, key: Seq<char>) -> Option<
    Seq<char>,
>
    decreases fields.len(),
{
    if fields.len() == 0 {
        None
    } else if fields.last().0 == key {
        Some(fields.last().1)
    } else {
        field_value(fields.drop_last(), key)
    }
}

/// Items with a table of strings as an entry of a table, in place of what was there.
pub open spec fn with_entry(
    items: Items,
    table: Seq<char>,
    name: Seq<char>,
    fields: Seq<(Seq<char>, Seq<char>)>,
) -> Items {
    let entry = seq![table, name];
    Map::new(
        |path: Seq<Seq<char>>|
            if entry.is_prefix_of(path) {
                path == entry || path.len() == 3 && field_value(fields, path[2]) is Some
            } else {
                items.dom().contains(path)
            },
        |path: Seq<Seq<char>>|
            if entry.is_prefix_of(path) {
                if path == entry {
                    ItemView::Table
                } else {
                    ItemView::Text(field_value(fields, path[2])->Some_0)
                }
            } else {
                items[path]
            },
    )
}

/// Items with a copy of one of them in an entry of a table, in place of what was there.
pub open spec fn with_copy(
    items: Items,
    source: Seq<char>,
    table: Seq<char>,
    name: Seq<char>,
    key: Seq<char>,
) -> Items {
    let target = seq![table, name, key];
    Map::new(
        |path: Seq<Seq<char>>|
            if target.is_prefix_of(path) {
                items.dom().contains(seq![source] + path.skip(3))
            } else {
                items.dom().contains(path)
            },
        |path: Seq<Seq<char>>|
            if target.is_prefix_of(path) {
                items[seq![source] + path.skip(3)]
            } else {
                items[path]
            },
    )
}

/// `str::parse` reads a `toml_edit::DocumentMut`. A document that was read holds nothing
/// that is not written.
#[verifier::external_body]
pub(crate) fn parse_document(text: &str) -> (r: Option<toml_edit::DocumentMut>)
    ensures
        r == parsed_document(text@),
        r is Some ==> is_from_text(r->Some_0) && is_whole(document_items(r->Some_0)),
        text@ == NEW_DOCUMENT@ ==> r is Some && document_items(r->Some_0) == new_items(),
{
    text.parse::<toml_edit::DocumentMut>().ok()
}

/// `toml_edit::DocumentMut::to_string` writes a document. What was had from a text is read
/// again from the new one, as far as it is written. A key with its value is not blank.
#[verifier::external_body]
pub(crate) fn print_document(document: &toml_edit::DocumentMut) -> (r: String)
    ensures
        r@ == document_text(*document),
        is_from_text(*document) ==> reads_as(r@, document_items(*document)),
        (exists|key: Seq<char>| text_at(document_items(*document), seq![key]) is Some)
            ==> !is_blank(r@),
{
    document.to_string()
}

/// `toml_edit::Item::get` follows keys, and `toml_edit::Item::as_str` gives a string.
#[verifier::external_body]
pub(crate) fn read_string(document: &toml_edit::DocumentMut, path: &[&str]) -> (r: Option<String>)
    ensures
        text_option(r) == text_at(document_items(*document), path@.map_values(|k: &str| k@)),
{
    let item = path.iter().try_fold(document.as_item(), |item, key| item.get(*key))?;
    item.as_str().map(|s| s.to_owned())
}

/// `toml_edit::Item::get` follows keys to an item, where there is one.
#[verifier::external_body]
pub(crate) fn holds(document: &toml_edit::DocumentMut, path: &[&str]) -> (r: bool)
    requires
        path@.len() > 0,
    ensures
        r == document_items(*document).dom().contains(path@.map_values(|k: &str| k@)),
{
    path.iter().try_fold(document.as_item(), |item, key| item.get(*key)).is_some()
}

/// `toml_edit::Item::as_table_like` gives a table, and `toml_edit::TableLike::iter` walks
/// through it: every key is among those that it comes to. What is no table has no keys.
#[verifier::external_body]
pub(crate) fn read_keys(document: &toml_edit::DocumentMut, table: &str) -> (r: Option<Vec<String>>)
    ensures
        r is Some <==> is_table(document_items(*document), seq![table@]),
        r is Some ==> (forall|name: Seq<char>| #[trigger]
            has_entry(document_items(*document), table@, name) ==> texts(r->Some_0@).contains(
                name,
            )),
        r is None ==> (forall|name: Seq<char>|
            !#[trigger] has_entry(document_items(*document), table@, name)),
{
    let entries = document.get(table)?.as_table_like()?;
    Some(entries.iter().map(|entry| entry.0.to_owned()).collect())
}

/// Assignment to an index of a `toml_edit::DocumentMut` sets a string.
#[verifier::external_body]
pub(crate) fn set_string(document: &mut toml_edit::DocumentMut, key: &str, value: &str)
    requires
        !document_items(*old(document)).dom().contains(seq![key@]),
    ensures
        *final(document) == document_with_string(*old(document), key@, value@),
        document_items(*final(document)) == document_items(*old(document)).insert(
            seq![key@],
            ItemView::Text(value@),
        ),
        is_from_text(*old(document)) ==> is_from_text(*final(document)),
{
    document[key] = toml_edit::value(value);
}

/// Assignment to an index of a `toml_edit::DocumentMut` sets an empty table.
#[verifier::external_body]
pub(crate) fn set_table(document: &mut toml_edit::DocumentMut, key: &str)
    requires
        !document_items(*old(document)).dom().contains(seq![key@]),
    ensures
        *final(document) == document_with_table(*old(document), key@),
        document_items(*final(document)) == document_items(*old(document)).insert(
            seq![key@],
            ItemView::Table,
        ),
        is_from_text(*old(document)) ==> is_from_text(*final(document)),
{
    document[key] = toml_edit::Item::Table(toml_edit::Table::new());
}

/// Assignment to an index of a table of a `toml_edit::DocumentMut` sets a table of strings;
/// on anything but a table it would panic. What stands in front of a key that had a value
/// comes into the header, so that nothing is said of reading the document again then.
#[verifier::external_body]
pub(crate) fn set_entry(
    document: &mut toml_edit::DocumentMut,
    table: &str,
    name: &str,
    fields: &[(String, String)],
)
    requires
        is_table(document_items(*old(document)), seq![table@]),
    ensures
        *final(document) == document_with_entry(
            *old(document),
            table@,
            name@,
            pair_views(fields@),
        ),
        document_items(*final(document)) == with_entry(
            document_items(*old(document)),
            table@,
            name@,
            pair_views(fields@),
        ),
        is_from_text(*old(document)) && takes_header(document_items(*old(document)), table@, name@)
            ==> is_from_text(*final(document)),
{
    let entry = fields.iter().map(|f| (f.0.as_str(), toml_edit::value(f.1.as_str()))).collect();
    document[table][name] = toml_edit::Item::Table(entry);
}

/// Assignment of a clone of an item to an index of an entry of a `toml_edit::DocumentMut`; on
/// anything but tables it would panic. A copy of a table under a header can get headers that
/// are too long for the parser, and the comment behind a value can come between braces, so
/// that nothing is said of reading the document again then.
#[verifier::external_body]
pub(crate) fn copy_item(
    document: &mut toml_edit::DocumentMut,
    source: &str,
    table: &str,
    name: &str,
    key: &str,
)
    requires
        document_items(*old(document)).dom().contains(seq![source@]),
        is_table(document_items(*old(document)), seq![table@]),
        is_table(document_items(*old(document)), seq![table@, name@]),
    ensures
        *final(document) == document_with_copy(*old(document), source@, table@, name@, key@),
        document_items(*final(document)) == with_copy(
            document_items(*old(document)),
            source@,
            table@,
            name@,
            key@,
        ),
        is_from_text(*old(document)) && is_value(document_items(*old(document))[seq![source@]])
            && document_items(*old(document))[seq![table@, name@]] is Table ==> is_from_text(
            *final(document),
        ),
{
    let item = document[source].clone();
    document[table][name][key] = item;
}

} // verus!
