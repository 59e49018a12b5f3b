//! Reading TOML documents through `toml_edit`.
//!
//! The library reads project manifests, `Cargo.toml` files and its own
//! settings file. What it reads of a parsed document is modelled by
//! [`TomlNode`]; the parse itself and each lookup are calls into
//! `toml_edit` whose contracts are stated over that model.

use vstd::prelude::*;

use toml_edit::{DocumentMut, Item};

verus! {

#[verifier::external_type_specification]
#[verifier::external_body]
pub struct ExTomlItem(Item);

/// What a TOML item holds, as far as this library reads it: a string, an
/// integer, a table (a `[table]` or an inline table, with its entries), an
/// array of tables, an inline array, or anything else.
pub enum TomlNode {
    Str(Seq<char>),
    Integer(i64),
    Table(Map<Seq<char>, TomlNode>),
    TableArray(Seq<Map<Seq<char>, TomlNode>>),
    Array(Seq<TomlNode>),
    Other,
}

/// The document `toml_edit` parses from `source` (its root table), or the
/// text of its parse error.
pub uninterp spec fn toml_parse(source: Seq<char>) -> Result<TomlNode, Seq<char>>;

/// What an item of a parsed document holds.
pub uninterp spec fn item_node(item: Item) -> TomlNode;

/// The entry `key` of a table node.
pub open spec fn entry(node: TomlNode, key: Seq<char>) -> Option<TomlNode> {
    match node {
        TomlNode::Table(m) => if m.contains_key(key) {
            Some(m[key])
        } else {
            None
        },
        _ => None,
    }
}

/// The string a node holds, if it holds one.
pub open spec fn node_str(node: Option<TomlNode>) -> Option<Seq<char>> {
    match node {
        Some(TomlNode::Str(s)) => Some(s),
        _ => None,
    }
}

/// The integer a node holds, if it holds one.
pub open spec fn node_integer(node: Option<TomlNode>) -> Option<i64> {
    match node {
        Some(TomlNode::Integer(n)) => Some(n),
        _ => None,
    }
}

/// Whether a node is a table (a `[table]` or an inline table).
pub open spec fn node_is_table(node: Option<TomlNode>) -> bool {
    match node {
        Some(TomlNode::Table(_)) => true,
        _ => false,
    }
}

/// Parses `source` with `DocumentMut`'s `FromStr` and keeps the document's
/// root item (`DocumentMut::into_item`); a parse error is rendered with
/// `TomlError`'s `Display`. The root of a document is always a table.
#[verifier::external_body]
pub(crate) fn parse_toml(source: &str) -> (r: Result<Item, String>)
    ensures
        match r {
            Ok(item) => toml_parse(source@) == Ok::<TomlNode, Seq<char>>(item_node(item))
                && item_node(item) is Table,
            Err(e) => toml_parse(source@) == Err::<TomlNode, Seq<char>>(e@),
        },
{
    match source.parse::<DocumentMut>() {
        Ok(document) => Ok(document.into_item()),
        Err(error) => Err(error.to_string()),
    }
}

/// `Item::get` with a string key: the entry of a table or inline table
/// (entries that hold nothing are not found); nothing for other items.
#[verifier::external_body]
pub(crate) fn item_get<'a>(item: &'a Item, key: &str) -> (r: Option<&'a Item>)
    ensures
        match r {
            Some(found) => entry(item_node(*item), key@) == Some(item_node(*found)),
            None => entry(item_node(*item), key@) is None,
        },
{
    item.get(key)
}

/// `Item::get` with a position: the table at that position of an array of
/// tables, or the value at that position of an inline array.
#[verifier::external_body]
pub(crate) fn item_at<'a>(item: &'a Item, index: usize) -> (r: Option<&'a Item>)
    ensures
        match item_node(*item) {
            TomlNode::TableArray(s) => match r {
                Some(found) => index < s.len() && item_node(*found) == TomlNode::Table(
                    s[index as int],
                ),
                None => index >= s.len(),
            },
            TomlNode::Array(s) => match r {
                Some(found) => index < s.len() && item_node(*found) == s[index as int],
                None => index >= s.len(),
            },
            _ => r is None,
        },
{
    item.get(index)
}

/// `Item::as_str`.
#[verifier::external_body]
pub(crate) fn item_str(item: &Item) -> (r: Option<String>)
    ensures
        match r {
            Some(s) => node_str(Some(item_node(*item))) == Some(s@),
            None => node_str(Some(item_node(*item))) is None,
        },
{
    match item.as_str() {
        Some(s) => Some(s.to_string()),
        None => None,
    }
}

/// `Item::as_integer`.
#[verifier::external_body]
pub(crate) fn item_integer(item: &Item) -> (r: Option<i64>)
    ensures
        r == node_integer(Some(item_node(*item))),
{
    item.as_integer()
}

/// `Item::as_table_like`, whether it finds a table or an inline table.
#[verifier::external_body]
pub(crate) fn item_is_table(item: &Item) -> (r: bool)
    ensures
        r == node_is_table(Some(item_node(*item))),
{
    item.as_table_like().is_some()
}

/// `Item::as_array_of_tables`, whether it finds an array of tables (whose
/// tables are held in a `Vec`).
#[verifier::external_body]
pub(crate) fn item_is_table_array(item: &Item) -> (r: bool)
    ensures
        r == (item_node(*item) is TableArray),
        r ==> item_node(*item)->TableArray_0.len() <= usize::MAX,
{
    item.as_array_of_tables().is_some()
}

/// The string at `key` of a table node, looked up as the library does it.
pub(crate) fn lookup_str(item: &Item, key: &str) -> (r: Option<String>)
    ensures
        match r {
            Some(s) => node_str(entry(item_node(*item), key@)) == Some(s@),
            None => node_str(entry(item_node(*item), key@)) is None,
        },
{
    match item_get(item, key) {
        Some(found) => item_str(found),
        None => None,
    }
}

/// The integer at `key` of a table node.
pub(crate) fn lookup_integer(item: &Item, key: &str) -> (r: Option<i64>)
    ensures
        r == node_integer(entry(item_node(*item), key@)),
{
    match item_get(item, key) {
        Some(found) => item_integer(found),
        None => None,
    }
}

} // verus!
