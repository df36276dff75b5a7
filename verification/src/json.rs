//! The dictionary file as `serde_json` reads and writes it, held in an
//! `indexmap::IndexMap` that keeps the entries in the order of the file.
//!
//! Nothing here is proved: these are the contracts that the library takes on
//! trust from the two crates.

use vstd::prelude::*;
use indexmap::IndexMap;
use serde_json::Value;

verus! {

#[verifier::external_type_specification]
#[verifier::external_body]
#[verifier::reject_recursive_types(K)]
#[verifier::reject_recursive_types(V)]
#[verifier::reject_recursive_types(S)]
pub struct ExIndexMap<K, V, S>(IndexMap<K, V, S>);

#[verifier::external_type_specification]
#[verifier::external_body]
pub struct ExJsonValue(Value);

#[verifier::external_type_specification]
#[verifier::external_body]
pub struct ExJsonError(serde_json::Error);

/// An entry of a dictionary: its key, and its value as compact JSON text.
pub type Entry = (Seq<char>, Seq<char>);

/// The entries of a map, in its order: each key with the compact JSON text of
/// its value.
pub uninterp spec fn map_entries(map: IndexMap<String, Value>) -> Seq<Entry>;

/// The entries that `serde_json` reads from `text`, in the order of the text;
/// `None` where it does not take `text` for one JSON object.
pub uninterp spec fn parsed_object(text: Seq<char>) -> Option<Seq<Entry>>;

/// The compact JSON text of the JSON string that holds `content`.
pub uninterp spec fn json_string(content: Seq<char>) -> Seq<char>;

/// The pretty-printed JSON text that `serde_json` writes for the object with
/// these entries; `None` where it fails to write one.
pub uninterp spec fn pretty_object(entries: Seq<Entry>) -> Option<Seq<char>>;

/// Some entry has this key.
pub open spec fn has_key(entries: Seq<Entry>, key: Seq<char>) -> bool {
    exists|i: int| 0 <= i < entries.len() && (#[trigger] entries[i]).0 == key
}

/// `serde_json::from_str`, reading a JSON object into a map.
///
/// The contract claims that the call fails exactly on the texts that
/// `parsed_object` has no entries for, and else hands out a map with the
/// entries that it names.
#[verifier::external_body]
pub(crate) fn parse_object(text: &str) -> (r: Result<IndexMap<String, Value>, serde_json::Error>)
    ensures
        match r {
            Ok(map) => parsed_object(text@) == Some(map_entries(map)),
            Err(_) => parsed_object(text@) is None,
        },
{
    serde_json::from_str(text)
}

/// `IndexMap::contains_key`: whether the map holds an entry with this key.
#[verifier::external_body]
pub(crate) fn map_contains_key(map: &IndexMap<String, Value>, key: &str) -> (r: bool)
    ensures
        r == has_key(map_entries(*map), key@),
{
    map.contains_key(key)
}

/// `IndexMap::insert` of a JSON string value.
///
/// As the crate documents it: a new key goes last in the order; a key that
/// the map holds keeps its place and takes the new value.
#[verifier::external_body]
pub(crate) fn map_insert_string(map: &mut IndexMap<String, Value>, key: String, content: String)
    ensures
        !has_key(map_entries(*old(map)), key@) ==> map_entries(*final(map)) == map_entries(
            *old(map),
        ).push((key@, json_string(content@))),
        has_key(map_entries(*old(map)), key@) ==> exists|i: int|
            0 <= i < map_entries(*old(map)).len() && (#[trigger] map_entries(*old(map))[i]).0
                == key@ && map_entries(*final(map)) == map_entries(*old(map)).update(
                i,
                (key@, json_string(content@)),
            ),
{
    map.insert(key, Value::String(content));
}

/// `serde_json::to_string_pretty` of a map.
///
/// The contract claims that the call fails exactly where `pretty_object` has
/// no text for the entries of the map, and else hands out the text that it
/// names.
#[verifier::external_body]
pub(crate) fn pretty_text(map: &IndexMap<String, Value>) -> (r: Result<String, serde_json::Error>)
    ensures
        match r {
            Ok(text) => pretty_object(map_entries(*map)) == Some(text@),
            Err(_) => pretty_object(map_entries(*map)) is None,
        },
{
    serde_json::to_string_pretty(map)
}

} // verus!
