//! Hash tables of `rustc_hash`, behind contracts over their contents.
//!
//! The tables are those of `std::collections` with the hasher of `rustc_hash`; their methods are
//! the ones that the standard library documents. Keys are integers or texts, whose equality and
//! hash agree.
use rustc_hash::{FxBuildHasher, FxHashMap, FxHashSet};
use std::hash::Hash;
use vstd::prelude::*;
use vstd::std_specs::hash::obeys_key_model;

verus! {

/// The hasher that every table of this crate is built with.
#[verifier::external_type_specification]
#[verifier::external_body]
pub struct ExFxBuildHasher(FxBuildHasher);

/// `FxHashSet::default`: the empty set.
#[verifier::external_body]
pub(crate) fn set_new<K: Eq + Hash>() -> (set: FxHashSet<K>)
    requires
        obeys_key_model::<K>(),
    ensures
        set@ == Set::<K>::empty(),
{
    FxHashSet::default()
}

/// `HashSet::insert`: adds the key and tells whether it was absent.
#[verifier::external_body]
pub(crate) fn set_insert<K: Eq + Hash>(set: &mut FxHashSet<K>, key: K) -> (fresh: bool)
    requires
        obeys_key_model::<K>(),
    ensures
        final(set)@ == old(set)@.insert(key),
        fresh == !old(set)@.contains(key),
{
    set.insert(key)
}

/// `HashSet::remove`: takes the key out and tells whether it was there.
#[verifier::external_body]
pub(crate) fn set_remove<K: Eq + Hash>(set: &mut FxHashSet<K>, key: &K) -> (there: bool)
    requires
        obeys_key_model::<K>(),
    ensures
        final(set)@ == old(set)@.remove(*key),
        there == old(set)@.contains(*key),
{
    set.remove(key)
}

/// `HashSet::contains`: whether the key is in the set.
#[verifier::external_body]
pub(crate) fn set_contains<K: Eq + Hash>(set: &FxHashSet<K>, key: &K) -> (there: bool)
    requires
        obeys_key_model::<K>(),
    ensures
        there == set@.contains(*key),
{
    set.contains(key)
}

/// `HashSet::iter`: every key once. In which order they come is left open.
#[verifier::external_body]
pub(crate) fn set_keys<K: Eq + Hash + Copy>(set: &FxHashSet<K>) -> (keys: Vec<K>)
    requires
        obeys_key_model::<K>(),
    ensures
        keys@.no_duplicates(),
        keys@.to_set() == set@,
{
    set.iter().copied().collect()
}

/// `FxHashMap::default`: the empty map.
#[verifier::external_body]
pub(crate) fn map_new<K: Eq + Hash, V>() -> (table: FxHashMap<K, V>)
    requires
        obeys_key_model::<K>(),
    ensures
        (table@ == Map::<K, V>::empty()),
{
    FxHashMap::default()
}

/// `HashMap::insert`: binds the key to the value, and returns what it was bound to.
#[verifier::external_body]
pub(crate) fn map_insert<K: Eq + Hash, V>(table: &mut FxHashMap<K, V>, key: K, value: V) -> (had:
    Option<V>)
    requires
        obeys_key_model::<K>(),
    ensures
        final(table)@ == old(table)@.insert(key, value),
        had == (if old(table)@.contains_key(key) {
            Some(old(table)@[key])
        } else {
            None
        }),
{
    table.insert(key, value)
}

/// `HashMap::remove`: takes the key out, and returns what it was bound to.
#[verifier::external_body]
pub(crate) fn map_remove<K: Eq + Hash, V>(table: &mut FxHashMap<K, V>, key: &K) -> (had: Option<V>)
    requires
        obeys_key_model::<K>(),
    ensures
        final(table)@ == old(table)@.remove(*key),
        had == (if old(table)@.contains_key(*key) {
            Some(old(table)@[*key])
        } else {
            None
        }),
{
    table.remove(key)
}

/// `HashMap::keys`: every key once. In which order they come is left open.
#[verifier::external_body]
pub(crate) fn map_keys<K: Eq + Hash + Copy, V>(table: &FxHashMap<K, V>) -> (keys: Vec<K>)
    requires
        obeys_key_model::<K>(),
    ensures
        keys@.no_duplicates(),
        keys@.to_set() == table@.dom(),
{
    table.keys().copied().collect()
}

/// What a table whose keys are texts binds each text to.
pub open spec fn text_entries<V>(table: Map<String, V>) -> Map<Seq<char>, V> {
    Map::new(
        |text: Seq<char>| exists|key: String| table.contains_key(key) && key@ == text,
        |text: Seq<char>| table[choose|key: String| table.contains_key(key) && key@ == text],
    )
}

/// `FxHashMap::default`: the empty map.
#[verifier::external_body]
pub(crate) fn text_map_new<V>() -> (table: FxHashMap<String, V>)
    ensures
        (text_entries(table@) == Map::<Seq<char>, V>::empty()),
{
    FxHashMap::default()
}

/// `HashMap::contains_key`: whether the text is bound.
#[verifier::external_body]
pub(crate) fn text_map_contains<V>(table: &FxHashMap<String, V>, key: &str) -> (there: bool)
    ensures
        there == text_entries(table@).contains_key(key@),
{
    table.contains_key(key)
}

/// `HashMap::insert`: binds the text to the value. What it was bound to is dropped.
#[verifier::external_body]
pub(crate) fn text_map_insert<V>(table: &mut FxHashMap<String, V>, key: String, value: V)
    ensures
        text_entries(final(table)@) == text_entries(old(table)@).insert(key@, value),
{
    table.insert(key, value);
}

/// `HashMap::get_mut`: access to what the text is bound to, where it is bound.
#[verifier::external_body]
pub(crate) fn text_map_get_mut<'a, V>(table: &'a mut FxHashMap<String, V>, key: &str) -> (value:
    Option<&'a mut V>)
    ensures
        match value {
            Some(v) => text_entries(old(table)@).contains_key(key@) && *v == text_entries(
                old(table)@,
            )[key@] && text_entries(final(table)@) == text_entries(old(table)@).insert(
                key@,
                *final(v),
            ),
            None => !text_entries(old(table)@).contains_key(key@) && text_entries(final(table)@)
                == text_entries(old(table)@),
        },
{
    table.get_mut(key)
}

/// `HashMap::remove`: takes the text out, and returns what it was bound to.
#[verifier::external_body]
pub(crate) fn text_map_remove<V>(table: &mut FxHashMap<String, V>, key: &str) -> (had: Option<V>)
    ensures
        text_entries(final(table)@) == text_entries(old(table)@).remove(key@),
        had == (if text_entries(old(table)@).contains_key(key@) {
            Some(text_entries(old(table)@)[key@])
        } else {
            None
        }),
{
    table.remove(key)
}

/// `HashMap::keys`: every text that is bound, once. In which order they come is left open.
#[verifier::external_body]
pub(crate) fn text_map_keys<V>(table: &FxHashMap<String, V>) -> (keys: Vec<&String>)
    ensures
        forall|i: int|
            0 <= i < keys@.len() ==> text_entries(table@).contains_key((#[trigger] keys@[i])@),
        forall|text: Seq<char>|
            text_entries(table@).contains_key(text) ==> exists|i: int|
                0 <= i < keys@.len() && (#[trigger] keys@[i])@ == text,
        forall|i: int, j: int|
            0 <= i < j < keys@.len() ==> (#[trigger] keys@[i])@ != (#[trigger] keys@[j])@,
{
    table.keys().collect()
}

} // verus!
