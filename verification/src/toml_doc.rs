//! TOML documents, held by `toml_edit`, which keeps their comments and layout.

use vstd::prelude::*;

verus! {

/// A table of `toml_edit`.
#[verifier::external_type_specification]
#[verifier::external_body]
pub struct ExTomlTable(toml_edit::Table);

/// An array of tables of `toml_edit`.
#[verifier::external_type_specification]
#[verifier::external_body]
pub struct ExTomlTables(toml_edit::ArrayOfTables);

/// A value of `toml_edit`.
#[verifier::external_type_specification]
#[verifier::external_body]
pub struct ExTomlValue(toml_edit::Value);

/// An item of `toml_edit`: nothing, a value, a table, or an array of tables.
#[verifier::external_type_specification]
pub struct ExTomlItem(toml_edit::Item);

/// A document of `toml_edit`.
#[verifier::external_type_specification]
#[verifier::external_body]
pub struct ExTomlDocument(toml_edit::DocumentMut);

/// What a value is, as far as it is looked at.
pub enum Toml {
    Text(Seq<char>),
    Integer(int),
    Texts(Seq<Seq<char>>),
    Other,
}

/// What a value of `toml_edit` is.
pub uninterp spec fn toml_value(v: toml_edit::Value) -> Toml;

/// The items of a table by their names, placeholders for nothing among them.
pub uninterp spec fn table_of(t: toml_edit::Table) -> Map<Seq<char>, toml_edit::Item>;

/// The items of an array of tables.
pub uninterp spec fn tables_of(a: toml_edit::ArrayOfTables) -> Seq<toml_edit::Item>;

/// The root of a document.
pub uninterp spec fn doc_root(d: toml_edit::DocumentMut) -> toml_edit::Item;

/// What stands round a table: what is written before and behind its header, whether it is left
/// unwritten where it is empty, whether it stands for dotted keys, and where in a document it is.
pub struct Frame {
    pub before: Option<Seq<char>>,
    pub behind: Option<Seq<char>>,
    pub implicit: bool,
    pub dotted: bool,
    pub position: Option<int>,
}

/// What stands round a table of `toml_edit`.
pub uninterp spec fn table_frame(t: toml_edit::Table) -> Frame;

/// The names in a table in their order, each with how it is written, what stands round it
/// included.
pub uninterp spec fn table_layout(t: toml_edit::Table) -> Seq<(Seq<char>, Seq<char>)>;

/// What is written behind everything in a document.
pub uninterp spec fn doc_trailing(d: toml_edit::DocumentMut) -> Option<Seq<char>>;

/// How a document is written.
pub uninterp spec fn doc_written(d: toml_edit::DocumentMut) -> Seq<char>;

/// How an item is written.
pub uninterp spec fn item_written(i: toml_edit::Item) -> Seq<char>;

/// What `toml_edit` reads in a text: a document, or what is wrong with it.
pub uninterp spec fn toml_read(text: Seq<char>) -> Result<toml_edit::DocumentMut, Seq<char>>;

/// A table without items.
pub open spec fn no_items() -> Map<Seq<char>, toml_edit::Item> {
    Map::empty()
}

/// No names.
pub open spec fn no_names() -> Seq<(Seq<char>, Seq<char>)> {
    Seq::empty()
}

/// Nothing round a table.
pub open spec fn no_frame() -> Frame {
    Frame { before: None, behind: None, implicit: false, dotted: false, position: None }
}

/// An array of tables without any.
pub open spec fn no_tables() -> Seq<toml_edit::Item> {
    Seq::empty()
}

/// The table that an item is.
pub open spec fn table_in(i: toml_edit::Item) -> Option<toml_edit::Table> {
    match i {
        toml_edit::Item::Table(t) => Some(t),
        _ => None,
    }
}

/// The table at the root of a document that has one there.
pub open spec fn root_of(d: toml_edit::DocumentMut) -> toml_edit::Table {
    table_in(doc_root(d))->0
}

/// The items in it.
pub open spec fn doc_items(d: toml_edit::DocumentMut) -> Map<Seq<char>, toml_edit::Item> {
    table_of(root_of(d))
}

/// A name put behind the others.
pub open spec fn appended(
    before: Seq<(Seq<char>, Seq<char>)>,
    after: Seq<(Seq<char>, Seq<char>)>,
    key: Seq<char>,
) -> bool {
    after.len() == before.len() + 1 && after.drop_last() == before && after.last().0 == key
}

/// The same names in the same order, written as they were but for one.
pub open spec fn rewritten(
    before: Seq<(Seq<char>, Seq<char>)>,
    after: Seq<(Seq<char>, Seq<char>)>,
    key: Seq<char>,
) -> bool {
    &&& after.len() == before.len()
    &&& forall|i: int|
        0 <= i < before.len() ==> (#[trigger] after[i]).0 == before[i].0 && (before[i].0 != key
            ==> after[i] == before[i])
}

/// A name that is there stays as it is written, and one that is not comes behind the others.
pub open spec fn led_to(before: toml_edit::Table, after: toml_edit::Table, key: Seq<char>) -> bool {
    if table_of(before).contains_key(key) {
        table_layout(after) == table_layout(before)
    } else {
        appended(table_layout(before), table_layout(after), key)
    }
}

/// A name that is there keeps its place, and one that is not comes behind the others; no other is
/// written otherwise.
pub open spec fn put_in(before: toml_edit::Table, after: toml_edit::Table, key: Seq<char>) -> bool {
    if table_of(before).contains_key(key) {
        rewritten(table_layout(before), table_layout(after), key)
    } else {
        appended(table_layout(before), table_layout(after), key)
    }
}

/// The item under a name, where there is one that is not a placeholder.
pub open spec fn item_at(m: Map<Seq<char>, toml_edit::Item>, key: Seq<char>) -> Option<
    toml_edit::Item,
> {
    if m.contains_key(key) && !(m[key] is None) {
        Some(m[key])
    } else {
        None
    }
}

/// The texts of a list of literals.
pub open spec fn each_text(items: Seq<&str>) -> Seq<Seq<char>> {
    items.map_values(|s: &str| s@)
}

/// `str::parse` for `toml_edit::DocumentMut`: reads a text as TOML. The document or the error is a
/// function of the text, and a document that was read has a table at its root.
#[verifier::external_body]
pub(crate) fn parse_toml(text: &str) -> (r: Result<toml_edit::DocumentMut, String>)
    ensures
        (match r {
            Ok(d) => Ok(d),
            Err(m) => Err(m@),
        }) == toml_read(text@),
        r matches Ok(d) ==> doc_root(d) is Table,
{
    text.parse::<toml_edit::DocumentMut>().map_err(|e: toml_edit::TomlError| e.to_string())
}

/// `toml_edit::DocumentMut::as_table_mut`: the table at the root, to change; the rest of the
/// document stays. It panics where there is none.
pub assume_specification[ toml_edit::DocumentMut::as_table_mut ](d: &mut toml_edit::DocumentMut) -> (r:
    &mut toml_edit::Table)
    requires
        doc_root(*old(d)) is Table,
    ensures
        *r == table_in(doc_root(*old(d)))->0,
        doc_root(*final(d)) == toml_edit::Item::Table(*final(r)),
        doc_trailing(*final(d)) == doc_trailing(*old(d)),
;

/// `to_string` of a `toml_edit::DocumentMut`: the document's text. It panics where there is no
/// table at the root.
#[verifier::external_body]
pub(crate) fn write_doc(d: &toml_edit::DocumentMut) -> (s: String)
    requires
        doc_root(*d) is Table,
    ensures
        s@ == doc_written(*d),
{
    d.to_string()
}

/// `to_string` of a `toml_edit::Item`: the item's text.
#[verifier::external_body]
pub(crate) fn write_item(i: &toml_edit::Item) -> (s: String)
    ensures
        s@ == item_written(*i),
{
    i.to_string()
}

/// `toml_edit::Table::new`: a table without items, and without anything round it.
pub assume_specification[ toml_edit::Table::new ]() -> (t: toml_edit::Table)
    ensures
        table_of(t) == no_items(),
        table_layout(t) == no_names(),
        table_frame(t) == no_frame(),
;

/// `toml_edit::Table::get`: the item under a name; a placeholder counts as none.
pub assume_specification<'a>[ toml_edit::Table::get ](t: &'a toml_edit::Table, key: &str) -> (r:
    Option<&'a toml_edit::Item>)
    ensures
        (match r {
            Some(i) => Some(*i),
            None => None,
        }) == item_at(table_of(*t), key@),
;

/// `toml_edit::Table::insert`: the table with an item under a name, in place of what was there. A
/// new name comes behind the others, an old one keeps its place and is written anew; what stands
/// round the table and the other names stays.
pub assume_specification[ toml_edit::Table::insert ](
    t: &mut toml_edit::Table,
    key: &str,
    item: toml_edit::Item,
) -> (r: Option<toml_edit::Item>)
    ensures
        table_of(*final(t)) == table_of(*old(t)).insert(key@, item),
        r is Some == table_of(*old(t)).contains_key(key@),
        r matches Some(i) ==> i == table_of(*old(t))[key@],
        table_frame(*final(t)) == table_frame(*old(t)),
        put_in(*old(t), *final(t), key@),
;

/// `toml_edit::Table::entry` and `or_insert`: the item under a name, put there first where there is
/// none, to change. A new name comes behind the others; what stands round the table and the names
/// that are there stay as they are.
#[verifier::external_body]
pub(crate) fn item_or<'a>(
    t: &'a mut toml_edit::Table,
    key: &str,
    default: toml_edit::Item,
) -> (r: &'a mut toml_edit::Item)
    ensures
        *r == (if table_of(*old(t)).contains_key(key@) {
            table_of(*old(t))[key@]
        } else {
            default
        }),
        table_of(*final(t)) == table_of(*old(t)).insert(key@, *final(r)),
        table_frame(*final(t)) == table_frame(*old(t)),
        led_to(*old(t), *final(t), key@),
{
    t.entry(key).or_insert(default)
}

/// `toml_edit::ArrayOfTables::new`: an array without tables.
pub assume_specification[ toml_edit::ArrayOfTables::new ]() -> (a: toml_edit::ArrayOfTables)
    ensures
        tables_of(a) == no_tables(),
;

/// `toml_edit::ArrayOfTables::len`: how many items the array holds.
pub assume_specification[ toml_edit::ArrayOfTables::len ](a: &toml_edit::ArrayOfTables) -> (n:
    usize)
    ensures
        n == tables_of(*a).len(),
;

/// `toml_edit::ArrayOfTables::get`: the item of an index, where it is a table.
pub assume_specification[ toml_edit::ArrayOfTables::get ](
    a: &toml_edit::ArrayOfTables,
    index: usize,
) -> (r: Option<&toml_edit::Table>)
    ensures
        r matches Some(t) ==> index < tables_of(*a).len() && tables_of(*a)[index as int]
            == toml_edit::Item::Table(*t),
        r is None ==> index >= tables_of(*a).len() || !(tables_of(*a)[index as int] is Table),
;

/// `toml_edit::ArrayOfTables::push`: one more table at the end.
pub assume_specification[ toml_edit::ArrayOfTables::push ](
    a: &mut toml_edit::ArrayOfTables,
    table: toml_edit::Table,
)
    ensures
        tables_of(*final(a)) == tables_of(*old(a)).push(toml_edit::Item::Table(table)),
;

/// `toml_edit::Value::as_str`: the text of a value that is one.
pub assume_specification[ toml_edit::Value::as_str ](v: &toml_edit::Value) -> (r: Option<&str>)
    ensures
        r matches Some(s) ==> toml_value(*v) == Toml::Text(s@),
        r is None ==> !(toml_value(*v) is Text),
;

/// `toml_edit::Value::from` of a text.
#[verifier::external_body]
pub(crate) fn toml_text(s: &str) -> (v: toml_edit::Value)
    ensures
        toml_value(v) == Toml::Text(s@),
{
    toml_edit::Value::from(s)
}

/// `toml_edit::Value::from` of an integer.
#[verifier::external_body]
pub(crate) fn toml_integer(n: i64) -> (v: toml_edit::Value)
    ensures
        toml_value(v) == Toml::Integer(n as int),
{
    toml_edit::Value::from(n)
}

/// `toml_edit::Value` collected from texts: an array of them.
#[verifier::external_body]
pub(crate) fn toml_texts(items: &[&str]) -> (v: toml_edit::Value)
    ensures
        toml_value(v) == Toml::Texts(each_text(items@)),
{
    items.iter().copied().collect()
}

} // verus!
