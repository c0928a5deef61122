//! The concurrent maps by which rooms and participants are found. A map holds
//! places in a table that its owner keeps.

use vstd::prelude::*;

use crate::transport::addr::AddrKey;

verus! {

/// A place in a table, and for a connection whether it is the subscribing one.
pub type Place = (usize, bool);

/// `dashmap::DashMap`.
#[verifier::external_type_specification]
#[verifier::external_body]
#[verifier::reject_recursive_types(K)]
#[verifier::reject_recursive_types(V)]
#[verifier::reject_recursive_types(S)]
pub struct ExDashMap<K, V, S>(dashmap::DashMap<K, V, S>);

/// What a map from names holds.
pub uninterp spec fn names_of(m: dashmap::DashMap<String, Place>) -> Map<Seq<char>, Place>;

/// What a map from addresses holds.
pub uninterp spec fn addrs_of(m: dashmap::DashMap<AddrKey, Place>) -> Map<AddrKey, Place>;

/// What a map from numbers holds.
pub uninterp spec fn keys_of(m: dashmap::DashMap<u64, Place>) -> Map<u64, Place>;

/// No number is known.
pub open spec fn no_keys() -> Map<u64, Place> {
    Map::empty()
}

/// The place at a number.
pub open spec fn keyed_at(m: Map<u64, Place>, key: u64) -> Option<Place> {
    if m.dom().contains(key) {
        Some(m[key])
    } else {
        None
    }
}

/// No name is known.
pub open spec fn no_names() -> Map<Seq<char>, Place> {
    Map::empty()
}

/// No address is known.
pub open spec fn no_addrs() -> Map<AddrKey, Place> {
    Map::empty()
}

/// The place at a name.
pub open spec fn named(m: Map<Seq<char>, Place>, name: Seq<char>) -> Option<Place> {
    if m.dom().contains(name) {
        Some(m[name])
    } else {
        None
    }
}

/// The place at an address.
pub open spec fn at_addr(m: Map<AddrKey, Place>, key: AddrKey) -> Option<Place> {
    if m.dom().contains(key) {
        Some(m[key])
    } else {
        None
    }
}

/// `DashMap::new`: an empty map.
#[verifier::external_body]
pub(crate) fn names_new() -> (m: dashmap::DashMap<String, Place>)
    ensures
        names_of(m) == no_names(),
{
    dashmap::DashMap::new()
}

/// `DashMap::insert`: the name has the new place, all others keep theirs.
#[verifier::external_body]
pub(crate) fn names_insert(m: &mut dashmap::DashMap<String, Place>, name: &str, place: Place)
    ensures
        names_of(*final(m)) == names_of(*old(m)).insert(name@, place),
{
    m.insert(name.to_string(), place);
}

/// `DashMap::remove`: the name is gone, all others keep their places.
#[verifier::external_body]
pub(crate) fn names_remove(m: &mut dashmap::DashMap<String, Place>, name: &str)
    ensures
        names_of(*final(m)) == names_of(*old(m)).remove(name@),
{
    m.remove(name);
}

/// `DashMap::get`: the place at a name.
#[verifier::external_body]
pub(crate) fn names_get(m: &dashmap::DashMap<String, Place>, name: &str) -> (r: Option<Place>)
    ensures
        r == named(names_of(*m), name@),
{
    m.get(name).map(|entry| *entry.value())
}

/// `DashMap::len`: how many names the map holds.
#[verifier::external_body]
pub(crate) fn names_len(m: &dashmap::DashMap<String, Place>) -> (r: usize)
    ensures
        r == names_of(*m).dom().len(),
{
    m.len()
}

/// `DashMap::new`: an empty map.
#[verifier::external_body]
pub(crate) fn addrs_new() -> (m: dashmap::DashMap<AddrKey, Place>)
    ensures
        addrs_of(m) == no_addrs(),
{
    dashmap::DashMap::new()
}

/// `DashMap::insert`: the address has the new place, all others keep theirs.
#[verifier::external_body]
pub(crate) fn addrs_insert(m: &mut dashmap::DashMap<AddrKey, Place>, key: AddrKey, place: Place)
    ensures
        addrs_of(*final(m)) == addrs_of(*old(m)).insert(key, place),
{
    m.insert(key, place);
}

/// `DashMap::remove`: the address is gone, all others keep their places.
#[verifier::external_body]
pub(crate) fn addrs_remove(m: &mut dashmap::DashMap<AddrKey, Place>, key: AddrKey)
    ensures
        addrs_of(*final(m)) == addrs_of(*old(m)).remove(key),
{
    m.remove(&key);
}

/// `DashMap::get`: the place at an address.
#[verifier::external_body]
pub(crate) fn addrs_get(m: &dashmap::DashMap<AddrKey, Place>, key: AddrKey) -> (r: Option<Place>)
    ensures
        r == at_addr(addrs_of(*m), key),
{
    m.get(&key).map(|entry| *entry.value())
}

/// `DashMap::new`: an empty map.
#[verifier::external_body]
pub(crate) fn keys_new() -> (m: dashmap::DashMap<u64, Place>)
    ensures
        keys_of(m) == no_keys(),
{
    dashmap::DashMap::new()
}

/// `DashMap::insert`: the number has the new place, all others keep theirs.
#[verifier::external_body]
pub(crate) fn keys_insert(m: &mut dashmap::DashMap<u64, Place>, key: u64, place: Place)
    ensures
        keys_of(*final(m)) == keys_of(*old(m)).insert(key, place),
{
    m.insert(key, place);
}

/// `DashMap::remove`: the number is gone, all others keep their places.
#[verifier::external_body]
pub(crate) fn keys_remove(m: &mut dashmap::DashMap<u64, Place>, key: u64)
    ensures
        keys_of(*final(m)) == keys_of(*old(m)).remove(key),
{
    m.remove(&key);
}

/// `DashMap::get`: the place at a number.
#[verifier::external_body]
pub(crate) fn keys_get(m: &dashmap::DashMap<u64, Place>, key: u64) -> (r: Option<Place>)
    ensures
        r == keyed_at(keys_of(*m), key),
{
    m.get(&key).map(|entry| *entry.value())
}

/// `DashMap::len`: how many numbers the map holds.
#[verifier::external_body]
pub(crate) fn keys_len(m: &dashmap::DashMap<u64, Place>) -> (r: usize)
    ensures
        r == keys_of(*m).dom().len(),
{
    m.len()
}

} // verus!
