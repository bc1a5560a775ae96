//! The insertion-ordered map that carries named metrics, and the few of its
//! operations that the library uses.
//!
//! Nothing in this file is proved: each contract restates what the `indexmap`
//! crate documents of the method that the body calls.

use crate::data::AdditionalData;
use indexmap::IndexMap;
use vstd::prelude::*;

verus! {

/// `indexmap::IndexMap`, opaque to the verifier.
#[verifier::external_type_specification]
#[verifier::external_body]
#[verifier::reject_recursive_types(K)]
#[verifier::reject_recursive_types(V)]
#[verifier::reject_recursive_types(S)]
pub struct ExIndexMap<K, V, S>(IndexMap<K, V, S>);

/// The key-value pairs of a map in its iteration order, which is the order in
/// which the keys were first inserted. Keys are given by their characters.
pub uninterp spec fn map_entries(m: IndexMap<String, AdditionalData>) -> Seq<
    (Seq<char>, AdditionalData),
>;

/// The keys of `entries`, in order.
pub open spec fn keys_of(entries: Seq<(Seq<char>, AdditionalData)>) -> Seq<Seq<char>> {
    entries.map_values(|e: (Seq<char>, AdditionalData)| e.0)
}

/// The value that `entries` holds under `key`, if any. A map holds a key at
/// most once; of several entries with the key this is the first.
pub open spec fn lookup(entries: Seq<(Seq<char>, AdditionalData)>, key: Seq<char>) -> Option<
    AdditionalData,
> {
    match keys_of(entries).index_of_first(key) {
        Some(i) => Some(entries[i].1),
        None => None,
    }
}

/// `entries` after `value` is stored under `key`: in the place of the old
/// value if the key is present, else at the end.
pub open spec fn stored(
    entries: Seq<(Seq<char>, AdditionalData)>,
    key: Seq<char>,
    value: AdditionalData,
) -> Seq<(Seq<char>, AdditionalData)> {
    match keys_of(entries).index_of_first(key) {
        Some(i) => entries.update(i, (key, value)),
        None => entries.push((key, value)),
    }
}

/// The characters of each string of `strings`.
pub open spec fn texts(strings: Seq<String>) -> Seq<Seq<char>> {
    strings.map_values(|s: String| s@)
}

/// `IndexMap::new`: a map without entries.
#[verifier::external_body]
pub(crate) fn map_new() -> (m: IndexMap<String, AdditionalData>)
    ensures
        map_entries(m) == Seq::<(Seq<char>, AdditionalData)>::empty(),
{
    IndexMap::new()
}

/// `IndexMap::keys`: the keys in iteration order, each copied out.
#[verifier::external_body]
pub(crate) fn map_keys(m: &IndexMap<String, AdditionalData>) -> (keys: Vec<String>)
    ensures
        texts(keys@) == keys_of(map_entries(*m)),
{
    m.keys().cloned().collect()
}

/// `IndexMap::get`: the value stored under `key`, if the key is present.
#[verifier::external_body]
pub(crate) fn map_get(m: &IndexMap<String, AdditionalData>, key: &String) -> (value: Option<
    AdditionalData,
>)
    ensures
        value == lookup(map_entries(*m), key@),
{
    m.get(key).copied()
}

/// `IndexMap::insert`: stores `value` under `key`. A key that is present
/// keeps its place and gets the new value; a new key goes to the end.
#[verifier::external_body]
pub(crate) fn map_insert(
    m: &mut IndexMap<String, AdditionalData>,
    key: String,
    value: AdditionalData,
)
    ensures
        map_entries(*final(m)) == stored(map_entries(*old(m)), key@, value),
{
    m.insert(key, value);
}

} // verus!
