//! Columns under keys, in a map that many threads can read.

use vstd::prelude::*;

use crate::fields::qm31::QM31;

verus! {

/// A concurrent map (`dashmap::DashMap`).
#[verifier::external_type_specification]
#[verifier::external_body]
#[verifier::reject_recursive_types(K)]
#[verifier::reject_recursive_types(V)]
#[verifier::reject_recursive_types(S)]
pub struct ExDashMap<K, V, S>(dashmap::DashMap<K, V, S>);

/// What a map holds: the elements of the column under the words of each key.
pub uninterp spec fn columns_of(
    map: dashmap::DashMap<[u32; 9], std::sync::Arc<Vec<QM31>>>,
) -> Map<Seq<u32>, Seq<QM31>>;

/// Nothing under any key.
pub open spec fn no_columns() -> Map<Seq<u32>, Seq<QM31>> {
    Map::empty()
}

/// An empty map (`dashmap::DashMap::new`).
#[verifier::external_body]
fn new_columns() -> (r: dashmap::DashMap<[u32; 9], std::sync::Arc<Vec<QM31>>>)
    ensures
        columns_of(r) == no_columns(),
{
    dashmap::DashMap::new()
}

/// Puts a column under a key (`dashmap::DashMap::insert`) in place of what was there; no other key
/// changes.
#[verifier::external_body]
fn put_column(
    map: &mut dashmap::DashMap<[u32; 9], std::sync::Arc<Vec<QM31>>>,
    key: [u32; 9],
    column: Vec<QM31>,
)
    ensures
        columns_of(*final(map)) == columns_of(*old(map)).insert(key@, column@),
{
    map.insert(key, std::sync::Arc::new(column));
}

/// The column under a key (`dashmap::DashMap::get`), shared with the map; nothing if the key has
/// none.
#[verifier::external_body]
fn column_under(
    map: &dashmap::DashMap<[u32; 9], std::sync::Arc<Vec<QM31>>>,
    key: &[u32; 9],
) -> (r: Option<std::sync::Arc<Vec<QM31>>>)
    ensures
        r is Some <==> columns_of(*map).dom().contains(key@),
        r is Some ==> r->0@ == columns_of(*map)[key@],
{
    map.get(key).map(|found| found.value().clone())
}

/// The number of keys (`dashmap::DashMap::len`).
#[verifier::external_body]
fn key_count(map: &dashmap::DashMap<[u32; 9], std::sync::Arc<Vec<QM31>>>) -> (r: usize)
    ensures
        r == columns_of(*map).dom().len(),
{
    map.len()
}

/// Columns of weights under keys. Only its owner adds to it.
pub struct WeightsHashMap {
    map: dashmap::DashMap<[u32; 9], std::sync::Arc<Vec<QM31>>>,
}

impl View for WeightsHashMap {
    type V = Map<Seq<u32>, Seq<QM31>>;

    closed spec fn view(&self) -> Map<Seq<u32>, Seq<QM31>> {
        columns_of(self.map)
    }
}

impl WeightsHashMap {
    /// Whether there is a column under a key.
    pub open spec fn has(self, key: Seq<u32>) -> bool {
        self@.dom().contains(key)
    }

    /// Whether every column is the one that `column` gives for its key.
    pub open spec fn all_are(self, column: spec_fn(Seq<u32>) -> Seq<QM31>) -> bool {
        forall|key: Seq<u32>| #[trigger] self.has(key) ==> self@[key] == column(key)
    }

    pub fn new() -> (r: WeightsHashMap)
        ensures
            r@ == no_columns(),
    {
        WeightsHashMap { map: new_columns() }
    }

    /// The column under a key.
    pub fn get(&self, key: &[u32; 9]) -> (r: Option<std::sync::Arc<Vec<QM31>>>)
        ensures
            r is Some <==> self.has(key@),
            r is Some ==> r->0@ == self@[key@],
    {
        column_under(&self.map, key)
    }

    /// Puts a column under a key in place of what was there.
    pub fn insert(&mut self, key: [u32; 9], column: Vec<QM31>)
        ensures
            final(self)@ == old(self)@.insert(key@, column@),
    {
        put_column(&mut self.map, key, column);
    }

    /// The number of keys.
    pub fn len(&self) -> (r: usize)
        ensures
            r == self@.dom().len(),
    {
        key_count(&self.map)
    }
}

} // verus!
