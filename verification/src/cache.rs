//! The flat cache: the local mirror of the device's path-addressed store.
//!
//! The mirror is a concurrent map so the poll loop may write while other
//! tasks read; the concurrency itself comes from the `dashmap` crate and is
//! trusted, with the map's contents named and each operation's effect on
//! them stated.

use vstd::prelude::*;

use crate::value::{Value, ValueView};

verus! {

#[verifier::external_type_specification]
#[verifier::external_body]
#[verifier::reject_recursive_types(K)]
#[verifier::reject_recursive_types(V)]
#[verifier::reject_recursive_types(S)]
pub struct ExDashMap<K, V, S>(dashmap::DashMap<K, V, S>);

/// What the mirror currently holds: each stored path mapped to the view of
/// its value.
pub uninterp spec fn cache_entries(m: &dashmap::DashMap<String, Value>) -> Map<Seq<char>, ValueView>;

/// The empty mirror.
pub open spec fn spec_empty_cache() -> Map<Seq<char>, ValueView> {
    Map::<Seq<char>, ValueView>::empty()
}

/// The flat cache: a mapping from store path to decoded value, mirror of
/// the remote store. Keys are unique; entries are overwritten, never
/// deleted.
#[derive(Debug)]
pub struct FlatCache {
    /// The backing concurrent map.
    pub map: dashmap::DashMap<String, Value>,
}

impl View for FlatCache {
    type V = Map<Seq<char>, ValueView>;

    closed spec fn view(&self) -> Map<Seq<char>, ValueView> {
        cache_entries(&self.map)
    }
}

impl FlatCache {
    /// Relies on `dashmap::DashMap::new`: a fresh map holds nothing.
    #[verifier::external_body]
    pub fn new() -> (r: FlatCache)
        ensures
            cache_entries(&r.map) == spec_empty_cache(),
            r@ == spec_empty_cache(),
    {
        FlatCache { map: dashmap::DashMap::new() }
    }

    /// Relies on `dashmap::DashMap::get` returning the value stored under
    /// the key, or nothing when the key is absent.
    #[verifier::external_body]
    pub fn get(&self, key: &str) -> (r: Option<Value>)
        ensures
            match r {
                Some(v) => cache_entries(&self.map).contains_key(key@) && v@ == cache_entries(
                    &self.map,
                )[key@],
                None => !cache_entries(&self.map).contains_key(key@),
            },
            match r {
                Some(v) => self@.contains_key(key@) && v@ == self@[key@],
                None => !self@.contains_key(key@),
            },
    {
        self.map.get(key).map(|entry| entry.value().clone())
    }

    /// Relies on `dashmap::DashMap::insert` storing the value under the
    /// key, replacing any previous value there.
    #[verifier::external_body]
    pub fn insert(&mut self, key: String, value: Value)
        ensures
            cache_entries(&final(self).map) == cache_entries(&old(self).map).insert(key@, value@),
            final(self)@ == old(self)@.insert(key@, value@),
    {
        self.map.insert(key, value);
    }

    /// Relies on `dashmap::DashMap::iter` visiting every entry exactly
    /// once. No order is promised, so none is stated.
    #[verifier::external_body]
    pub fn snapshot(&self) -> (r: Vec<(String, Value)>)
        ensures
            forall|i: int|
                0 <= i < r@.len() ==> cache_entries(&self.map).contains_key(
                    (#[trigger] r@[i]).0@,
                ) && cache_entries(&self.map)[r@[i].0@] == r@[i].1@,
            forall|i: int, j: int|
                0 <= i < j < r@.len() ==> (#[trigger] r@[i]).0@ != (#[trigger] r@[j]).0@,
            forall|k: Seq<char>|
                cache_entries(&self.map).contains_key(k) ==> exists|i: int|
                    0 <= i < r@.len() && (#[trigger] r@[i]).0@ == k,
            forall|i: int|
                0 <= i < r@.len() ==> self@.contains_key((#[trigger] r@[i]).0@) && self@[r@[i].0@]
                    == r@[i].1@,
            forall|k: Seq<char>|
                self@.contains_key(k) ==> exists|i: int|
                    0 <= i < r@.len() && (#[trigger] r@[i]).0@ == k,
    {
        self.map.iter().map(|entry| (entry.key().clone(), entry.value().clone())).collect()
    }
}

} // verus!
