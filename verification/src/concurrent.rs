//! The concurrent hash maps the store, the change detector and the compile
//! cache are built on. The maps come from the dashmap crate, keyed by the
//! ahash hasher; each concrete map shape used by this crate is declared here
//! together with the trusted view of its contents and the small set of
//! operations the verified code calls.
//!
//! Verified callers take the maps through `&mut` where they write, so the
//! mutation is visible to the verifier; the containers themselves remain safe
//! under concurrent readers.

use vstd::prelude::*;

verus! {

/// A path-to-content map.
pub type FileMap = dashmap::DashMap<String, Vec<u8>, ahash::RandomState>;

/// A path-to-hash map.
pub type HashTable = dashmap::DashMap<String, u64, ahash::RandomState>;

/// A key-to-output map.
pub type CacheMap = dashmap::DashMap<u64, Vec<u8>, ahash::RandomState>;

#[verifier::external_type_specification]
#[verifier::external_body]
#[verifier::reject_recursive_types(K)]
#[verifier::reject_recursive_types(V)]
#[verifier::reject_recursive_types(S)]
pub struct ExDashMap<K, V, S>(dashmap::DashMap<K, V, S>);

#[verifier::external_type_specification]
#[verifier::external_body]
pub struct ExAhashRandomState(ahash::RandomState);

/// Relies on ahash::RandomState::new: a hasher state with randomly drawn
/// keys, of which nothing is promised.
#[verifier::external_body]
pub(crate) fn random_state_new() -> ahash::RandomState {
    ahash::RandomState::new()
}

/// The empty contents each map starts with.
pub open spec fn empty_file_map() -> Map<Seq<char>, Seq<u8>> {
    Map::empty()
}

pub open spec fn empty_hash_table() -> Map<Seq<char>, u64> {
    Map::empty()
}

pub open spec fn empty_cache_map() -> Map<u64, Seq<u8>> {
    Map::empty()
}

/// The entries of a path-to-content map, as a map from the path's characters
/// to the content's bytes.
pub uninterp spec fn file_map_view(
    m: FileMap,
) -> Map<Seq<char>, Seq<u8>>;

/// Relies on dashmap::DashMap::with_hasher: the map starts empty.
#[verifier::external_body]
pub(crate) fn file_map_new(s: ahash::RandomState) -> (r: FileMap)
    ensures
        file_map_view(r) == empty_file_map(),
{
    dashmap::DashMap::with_hasher(s)
}

/// Relies on dashmap::DashMap::insert: afterwards the map holds `v` under
/// `k` and is otherwise unchanged.
#[verifier::external_body]
pub(crate) fn file_map_insert(
    m: &mut FileMap,
    k: String,
    v: Vec<u8>,
)
    ensures
        file_map_view(*final(m)) == file_map_view(*old(m)).insert(k@, v@),
{
    m.insert(k, v);
}

/// Relies on dashmap::DashMap::get: the value stored under `k`, if any,
/// cloned out.
#[verifier::external_body]
pub(crate) fn file_map_get(
    m: &FileMap,
    k: &String,
) -> (r: Option<Vec<u8>>)
    ensures
        match r {
            Some(v) => file_map_view(*m).dom().contains(k@) && v@ == file_map_view(*m)[k@],
            None => !file_map_view(*m).dom().contains(k@),
        },
{
    m.get(k).map(|e| e.value().clone())
}

/// Relies on dashmap::DashMap::iter: every entry exactly once, in no
/// promised order.
#[verifier::external_body]
pub(crate) fn file_map_entries(
    m: &FileMap,
) -> (r: Vec<(String, Vec<u8>)>)
    ensures
        forall|i: int|
            0 <= i < r@.len() ==> #[trigger] file_map_view(*m).contains_pair(r@[i].0@, r@[i].1@),
        forall|k: Seq<char>|
            #[trigger] file_map_view(*m).dom().contains(k) ==> exists|i: int|
                0 <= i < r@.len() && #[trigger] r@[i].0@ == k,
        forall|i: int, j: int| 0 <= i < j < r@.len() ==> r@[i].0@ != r@[j].0@,
{
    m.iter().map(|e| (e.key().clone(), e.value().clone())).collect()
}

/// The entries of a path-to-hash map.
pub uninterp spec fn hash_map_view(m: HashTable) -> Map<
    Seq<char>,
    u64,
>;

/// Relies on dashmap::DashMap::with_hasher: the map starts empty.
#[verifier::external_body]
pub(crate) fn hash_map_new(s: ahash::RandomState) -> (r: HashTable)
    ensures
        hash_map_view(r) == empty_hash_table(),
{
    dashmap::DashMap::with_hasher(s)
}

/// Relies on dashmap::DashMap::insert: afterwards the map holds `v` under
/// `k` and is otherwise unchanged.
#[verifier::external_body]
pub(crate) fn hash_map_insert(
    m: &mut HashTable,
    k: String,
    v: u64,
)
    ensures
        hash_map_view(*final(m)) == hash_map_view(*old(m)).insert(k@, v),
{
    m.insert(k, v);
}

/// Relies on dashmap::DashMap::get: the value stored under `k`, if any.
#[verifier::external_body]
pub(crate) fn hash_map_get(
    m: &HashTable,
    k: &String,
) -> (r: Option<u64>)
    ensures
        match r {
            Some(v) => hash_map_view(*m).dom().contains(k@) && v == hash_map_view(*m)[k@],
            None => !hash_map_view(*m).dom().contains(k@),
        },
{
    m.get(k).map(|e| *e.value())
}

/// The entries of a key-to-output map.
pub uninterp spec fn cache_map_view(m: CacheMap) -> Map<
    u64,
    Seq<u8>,
>;

/// Relies on dashmap::DashMap::with_hasher: the map starts empty.
#[verifier::external_body]
pub(crate) fn cache_map_new(s: ahash::RandomState) -> (r: CacheMap)
    ensures
        cache_map_view(r) == empty_cache_map(),
{
    dashmap::DashMap::with_hasher(s)
}

/// Relies on dashmap::DashMap::insert: afterwards the map holds `v` under
/// `k` and is otherwise unchanged.
#[verifier::external_body]
pub(crate) fn cache_map_insert(
    m: &mut CacheMap,
    k: u64,
    v: Vec<u8>,
)
    ensures
        cache_map_view(*final(m)) == cache_map_view(*old(m)).insert(k, v@),
{
    m.insert(k, v);
}

/// Relies on dashmap::DashMap::get: the value stored under `k`, if any,
/// cloned out.
#[verifier::external_body]
pub(crate) fn cache_map_get(
    m: &CacheMap,
    k: &u64,
) -> (r: Option<Vec<u8>>)
    ensures
        match r {
            Some(v) => cache_map_view(*m).dom().contains(*k) && v@ == cache_map_view(*m)[*k],
            None => !cache_map_view(*m).dom().contains(*k),
        },
{
    m.get(k).map(|e| e.value().clone())
}

} // verus!
