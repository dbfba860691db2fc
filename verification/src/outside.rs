//! The outside types this library works with, and the calls it makes into
//! their crates. Every item here is believed by Verus; its doc comment says
//! what it claims of the outside code.
use vstd::prelude::*;
use bevy::platform::collections::HashMap;
use bevy::platform::hash::FixedHasher;
use bevy::prelude::Entity;
use bevy_rand::prelude::WyRand;
use indexmap::IndexMap;
use isolang::Language;
use rand::RngExt;

use crate::model::{Dialogue, SequenceItem, Tracker};

verus! {

/// `bevy::platform::collections::HashMap`, a hash map with a fixed hasher.
#[verifier::external_type_specification]
#[verifier::external_body]
#[verifier::reject_recursive_types(K)]
#[verifier::reject_recursive_types(V)]
#[verifier::reject_recursive_types(S)]
pub struct ExHashMap<K, V, S>(HashMap<K, V, S>);

/// The hasher that bevy's `HashMap` uses by default.
#[verifier::external_type_specification]
#[verifier::external_body]
pub struct ExFixedHasher(FixedHasher);

/// `indexmap::IndexMap`, a hash map that keeps its entries in insertion order.
#[verifier::external_type_specification]
#[verifier::external_body]
#[verifier::reject_recursive_types(K)]
#[verifier::reject_recursive_types(V)]
#[verifier::reject_recursive_types(S)]
pub struct ExIndexMap<K, V, S>(IndexMap<K, V, S>);

/// `isolang::Language`, a fieldless enum of ISO 639 languages.
#[verifier::external_type_specification]
#[verifier::external_body]
pub struct ExLanguage(Language);

/// `bevy::prelude::Entity`, the id of an entity of the ECS world.
#[verifier::external_type_specification]
#[verifier::external_body]
pub struct ExEntity(Entity);

/// `bevy_rand::prelude::WyRand`, the global random number generator.
#[verifier::external_type_specification]
#[verifier::external_body]
pub struct ExWyRand(WyRand);

// ---------------------------------------------------------------------------
// isolang

/// `<Language as PartialEq>::eq`. `Language` derives `PartialEq` and has no
/// fields, so two languages are equal exactly when they are the same variant.
#[verifier::external_body]
pub(crate) fn language_eq(a: Language, b: Language) -> (r: bool)
    ensures
        r == (a == b),
{
    a == b
}

// ---------------------------------------------------------------------------
// bevy Entity

/// `<Entity as PartialEq>::eq`. It compares `to_bits`, which packs the index
/// and the generation, the only two fields, without loss; so two entities
/// are equal exactly when they are the same value.
#[verifier::external_body]
pub(crate) fn entity_eq(a: Entity, b: Entity) -> (r: bool)
    ensures
        r == (a == b),
{
    a == b
}

// ---------------------------------------------------------------------------
// rand

/// `rand::RngExt::random_range` on the range `0..n`. Its documentation says
/// that it panics on an empty range (left out by `requires`) and returns a
/// value of the range. Which value comes back is left open: it depends on the
/// generator's state.
#[verifier::external_body]
pub(crate) fn random_below(rng: &mut WyRand, n: usize) -> (r: usize)
    requires
        n > 0,
    ensures
        r < n,
{
    rng.random_range(0..n)
}

// ---------------------------------------------------------------------------
// Shared facts about ordered entries

/// Position `i` of `s` holds key `k`, and no other position does.
pub open spec fn unique_key_at<K, V>(s: Seq<(K, V)>, i: int, k: K) -> bool {
    &&& 0 <= i < s.len()
    &&& s[i].0 == k
    &&& forall|j: int| 0 <= j < s.len() && j != i ==> #[trigger] s[j].0 != k
}

/// Some position of `s` holds key `k`.
pub open spec fn has_key<K, V>(s: Seq<(K, V)>, k: K) -> bool {
    exists|i: int| 0 <= i < s.len() && #[trigger] s[i].0 == k
}

/// The value stored under key `k` in the entries `s`, if any.
pub open spec fn value_of<K, V>(s: Seq<(K, V)>, k: K) -> Option<V> {
    if has_key(s, k) {
        Some(s[choose|i: int| 0 <= i < s.len() && #[trigger] s[i].0 == k].1)
    } else {
        None
    }
}

// ---------------------------------------------------------------------------
// indexmap: the languages of a dialogue

/// The entries of a dialogue's content map, in the map's order.
pub uninterp spec fn content_entries(m: IndexMap<Language, String>) -> Seq<(Language, Seq<char>)>;

/// `IndexMap::len`: the number of entries.
#[verifier::external_body]
pub(crate) fn contents_len(m: &IndexMap<Language, String>) -> (r: usize)
    ensures
        r == content_entries(*m).len(),
{
    m.len()
}

/// `IndexMap::get_index`: the entry at position `i` in the map's order, or
/// `None` past the end.
#[verifier::external_body]
pub(crate) fn contents_get_index(m: &IndexMap<Language, String>, i: usize) -> (r: Option<(Language, &String)>)
    ensures
        r is Some <==> i < content_entries(*m).len(),
        r matches Some(p) ==> p.0 == content_entries(*m)[i as int].0 && p.1@ == content_entries(*m)[i as int].1,
{
    m.get_index(i).map(|(l, c)| (*l, c))
}

// ---------------------------------------------------------------------------
// indexmap: the states of a class

/// The entries of a class's state map (state id, dialogues), in the map's order.
pub uninterp spec fn state_entries(m: IndexMap<u64, Vec<Dialogue>>) -> Seq<(u64, Vec<Dialogue>)>;

/// `IndexMap::get`: the dialogues of state `k`. Keys of an `IndexMap` are
/// unique, so the entry found is the only one with that key.
#[verifier::external_body]
pub(crate) fn states_get(m: &IndexMap<u64, Vec<Dialogue>>, k: u64) -> (r: Option<&Vec<Dialogue>>)
    ensures
        r is None ==> !has_key(state_entries(*m), k),
        r matches Some(v) ==> exists|i: int| unique_key_at(state_entries(*m), i, k) && state_entries(*m)[i].1 == *v,
{
    m.get(&k)
}

/// `IndexMap::keys`, collected: the state ids in the map's order.
/// The keys of an `IndexMap` are unique, so the ids are distinct.
#[verifier::external_body]
pub(crate) fn states_keys(m: &IndexMap<u64, Vec<Dialogue>>) -> (r: Vec<u64>)
    ensures
        r@.len() == state_entries(*m).len(),
        forall|i: int| 0 <= i < r@.len() ==> r@[i] == #[trigger] state_entries(*m)[i].0,
        forall|i: int, j: int| 0 <= i < r@.len() && 0 <= j < r@.len() && i != j ==> r@[i] != r@[j],
{
    m.keys().copied().collect()
}

/// `IndexMap::first`: the key of the first entry, if the map is not empty.
#[verifier::external_body]
pub(crate) fn states_first(m: &IndexMap<u64, Vec<Dialogue>>) -> (r: Option<u64>)
    ensures
        r is Some <==> state_entries(*m).len() > 0,
        r matches Some(k) ==> k == state_entries(*m)[0].0,
{
    m.first().map(|(k, _)| *k)
}

// ---------------------------------------------------------------------------
// indexmap: the sequences of an asset

/// The entries of an asset's sequence map (sequence id, items), in the map's order.
pub uninterp spec fn sequence_entries(m: IndexMap<u64, Vec<SequenceItem>>) -> Seq<(u64, Vec<SequenceItem>)>;

/// `IndexMap::get`: the items of sequence `k`. Keys are unique.
#[verifier::external_body]
pub(crate) fn sequences_get(m: &IndexMap<u64, Vec<SequenceItem>>, k: u64) -> (r: Option<&Vec<SequenceItem>>)
    ensures
        r is None ==> !has_key(sequence_entries(*m), k),
        r matches Some(v) ==> exists|i: int| unique_key_at(sequence_entries(*m), i, k) && sequence_entries(*m)[i].1 == *v,
{
    m.get(&k)
}

// ---------------------------------------------------------------------------
// bevy HashMap: the classes of an asset

/// The contents of an asset's class map (class id to its states).
pub uninterp spec fn class_map(m: HashMap<u64, IndexMap<u64, Vec<Dialogue>>>) -> Map<u64, IndexMap<u64, Vec<Dialogue>>>;

/// `HashMap::get`: the states of class `k`.
#[verifier::external_body]
pub(crate) fn classes_get(m: &HashMap<u64, IndexMap<u64, Vec<Dialogue>>>, k: u64) -> (r: Option<&IndexMap<u64, Vec<Dialogue>>>)
    ensures
        r is Some <==> class_map(*m).contains_key(k),
        r matches Some(v) ==> *v == class_map(*m)[k],
{
    m.get(&k)
}

// ---------------------------------------------------------------------------
// bevy HashMap: what a dialogue does to the state of a listener

/// The contents of a dialogue's affect map (listener class to new state).
pub uninterp spec fn affect_map(m: HashMap<u64, u64>) -> Map<u64, u64>;

/// `HashMap::get`, copied: the state that class `k` changes to.
#[verifier::external_body]
pub(crate) fn affects_get(m: &HashMap<u64, u64>, k: u64) -> (r: Option<u64>)
    ensures
        r is Some <==> affect_map(*m).contains_key(k),
        r matches Some(v) ==> v == affect_map(*m)[k],
{
    m.get(&k).copied()
}

// ---------------------------------------------------------------------------
// bevy HashMap: template variables

/// The contents of the variable map (name to value), by the strings' characters.
pub uninterp spec fn variable_map(m: HashMap<String, String>) -> Map<Seq<char>, Seq<char>>;

/// `HashMap::get` with a `&str` key. `String` hashes and compares as its
/// characters do, so the entry found is the one whose name has the key's characters.
#[verifier::external_body]
pub(crate) fn variables_get<'a>(m: &'a HashMap<String, String>, key: &str) -> (r: Option<&'a String>)
    ensures
        r is Some <==> variable_map(*m).contains_key(key@),
        r matches Some(v) ==> v@ == variable_map(*m)[key@],
{
    m.get(key)
}

// ---------------------------------------------------------------------------
// bevy HashMap: the participants of a sequence

/// The contents of a participant map (class id to entity).
pub uninterp spec fn participant_map(m: HashMap<u64, Entity>) -> Map<u64, Entity>;

/// `HashMap::new`: an empty map.
#[verifier::external_body]
pub(crate) fn participants_new() -> (r: HashMap<u64, Entity>)
    ensures
        participant_map(r).dom() == Set::<u64>::empty(),
{
    HashMap::new()
}

/// `HashMap::get`, copied: the entity of class `k`.
#[verifier::external_body]
pub(crate) fn participants_get(m: &HashMap<u64, Entity>, k: u64) -> (r: Option<Entity>)
    ensures
        r is Some <==> participant_map(*m).contains_key(k),
        r matches Some(e) ==> e == participant_map(*m)[k],
{
    m.get(&k).copied()
}

/// What a map of the library holds, read through its name.
pub trait Contents<K, V> {
    spec fn contents(&self) -> Map<K, V>;
}

impl Contents<u64, Entity> for HashMap<u64, Entity> {
    open spec fn contents(&self) -> Map<u64, Entity> {
        participant_map(*self)
    }
}

impl Contents<u64, Tracker> for HashMap<u64, Tracker> {
    open spec fn contents(&self) -> Map<u64, Tracker> {
        tracker_map(*self)
    }
}

/// `HashMap::insert`: afterwards class `k` maps to `e`, the rest unchanged.
#[verifier::external_body]
pub(crate) fn participants_insert(m: &mut HashMap<u64, Entity>, k: u64, e: Entity)
    ensures
        final(m).contents() == participant_map(*old(m)).insert(k, e),
{
    m.insert(k, e);
}

/// `HashMap::clone`: a map with the same entries.
#[verifier::external_body]
pub(crate) fn participants_clone(m: &HashMap<u64, Entity>) -> (r: HashMap<u64, Entity>)
    ensures
        participant_map(r) == participant_map(*m),
{
    m.clone()
}

// ---------------------------------------------------------------------------
// bevy HashMap: the trackers of running sequences

/// The contents of the tracker map (sequence id to its tracker).
pub uninterp spec fn tracker_map(m: HashMap<u64, Tracker>) -> Map<u64, Tracker>;

/// `HashMap::new`: an empty map.
#[verifier::external_body]
pub(crate) fn trackers_new() -> (r: HashMap<u64, Tracker>)
    ensures
        tracker_map(r).dom() == Set::<u64>::empty(),
{
    HashMap::new()
}

/// `HashMap::contains_key`.
#[verifier::external_body]
pub(crate) fn trackers_contains(m: &HashMap<u64, Tracker>, k: u64) -> (r: bool)
    ensures
        r == tracker_map(*m).contains_key(k),
{
    m.contains_key(&k)
}

/// `HashMap::insert`: afterwards sequence `k` maps to `t`, the rest unchanged.
#[verifier::external_body]
pub(crate) fn trackers_insert(m: &mut HashMap<u64, Tracker>, k: u64, t: Tracker)
    ensures
        final(m).contents() == tracker_map(*old(m)).insert(k, t),
{
    m.insert(k, t);
}

/// `HashMap::get_mut`: the tracker of sequence `k`, to be changed in place.
/// Whatever it is changed to is what the map holds for `k` afterwards.
#[verifier::external_body]
pub(crate) fn trackers_get_mut<'a>(m: &'a mut HashMap<u64, Tracker>, k: u64) -> (r: Option<&'a mut Tracker>)
    ensures
        r is Some <==> tracker_map(*old(m)).contains_key(k),
        r is None ==> final(m).contents() == tracker_map(*old(m)),
        r matches Some(t) ==> *t == tracker_map(*old(m))[k]
            && final(m).contents() == tracker_map(*old(m)).insert(k, *final(t)),
{
    m.get_mut(&k)
}

} // verus!
