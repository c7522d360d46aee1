//! Trusted boundary to the concurrent chunk table. The library sees the
//! table only through these wrappers; their contracts speak of the one
//! abstraction `chunk_table`, the map of tracked chunks by position.

use vstd::prelude::*;

use crate::pos::ChunkPos;
use crate::world::TrackedChunk;

verus! {

#[verifier::external_type_specification]
#[verifier::external_body]
#[verifier::reject_recursive_types(K)]
#[verifier::reject_recursive_types(V)]
#[verifier::reject_recursive_types(S)]
pub struct ExDashMap<K, V, S>(dashmap::DashMap<K, V, S>);

/// What the chunk table holds: the tracked chunk filed under each
/// position. The table is always finite; `chunk_map_new` starts it
/// empty and every wrapper states how it changes.
pub uninterp spec fn chunk_table(m: dashmap::DashMap<ChunkPos, TrackedChunk>) -> Map<
    ChunkPos,
    TrackedChunk,
>;

/// Relies on dashmap::DashMap::new; nothing is assumed of the result,
/// callers clear it before use.
#[verifier::external_body]
pub(crate) fn chunk_map_new() -> dashmap::DashMap<ChunkPos, TrackedChunk> {
    dashmap::DashMap::new()
}

/// Relies on dashmap::DashMap::clear: afterwards the map has no
/// entries, whatever it held before.
#[verifier::external_body]
pub(crate) fn chunk_map_clear(m: &mut dashmap::DashMap<ChunkPos, TrackedChunk>)
    ensures
        chunk_table(*final (m)) == chunk_table(*old(m)).restrict(Set::<ChunkPos>::empty()),
{
    m.clear();
}

/// Relies on dashmap::DashMap::insert: files `value` under `key`,
/// replacing any previous entry.
#[verifier::external_body]
pub(crate) fn chunk_map_insert(
    m: &mut dashmap::DashMap<ChunkPos, TrackedChunk>,
    key: ChunkPos,
    value: TrackedChunk,
)
    ensures
        chunk_table(*final (m)) == chunk_table(*old(m)).insert(key, value),
{
    m.insert(key, value);
}

/// Relies on dashmap::DashMap::remove: takes the entry under `key` out
/// of the map and hands its value back.
#[verifier::external_body]
pub(crate) fn chunk_map_remove(
    m: &mut dashmap::DashMap<ChunkPos, TrackedChunk>,
    key: &ChunkPos,
) -> (r: Option<TrackedChunk>)
    ensures
        chunk_table(*old(m)).contains_key(*key) ==> r == Some(chunk_table(*old(m))[*key])
            && chunk_table(*final (m)) == chunk_table(*old(m)).remove(*key),
        !chunk_table(*old(m)).contains_key(*key) ==> r is None && chunk_table(*final (m))
            == chunk_table(*old(m)),
{
    m.remove(key).map(|kv| kv.1)
}

/// Relies on dashmap::DashMap::get and the derived clone of the value:
/// a copy of the entry under `key`, if there is one.
#[verifier::external_body]
pub(crate) fn chunk_map_get_clone(
    m: &dashmap::DashMap<ChunkPos, TrackedChunk>,
    key: &ChunkPos,
) -> (r: Option<TrackedChunk>)
    ensures
        chunk_table(*m).contains_key(*key) ==> r == Some(chunk_table(*m)[*key]),
        !chunk_table(*m).contains_key(*key) ==> r is None,
{
    m.get(key).map(|entry| entry.value().clone())
}

/// Relies on dashmap::DashMap::contains_key.
#[verifier::external_body]
pub(crate) fn chunk_map_contains(
    m: &dashmap::DashMap<ChunkPos, TrackedChunk>,
    key: &ChunkPos,
) -> (r: bool)
    ensures
        r == chunk_table(*m).contains_key(*key),
{
    m.contains_key(key)
}

/// Relies on dashmap::DashMap::len: the table holds finitely many
/// entries, and `len` counts them.
#[verifier::external_body]
pub(crate) fn chunk_map_len(m: &dashmap::DashMap<ChunkPos, TrackedChunk>) -> (r: usize)
    ensures
        chunk_table(*m).dom().finite() ==> r == chunk_table(*m).dom().len(),
{
    m.len()
}

/// Relies on dashmap::DashMap::iter: every key of the table, each
/// exactly once; the order is not promised.
#[verifier::external_body]
pub(crate) fn chunk_map_keys(m: &dashmap::DashMap<ChunkPos, TrackedChunk>) -> (r: Vec<ChunkPos>)
    ensures
        r@.to_set() == chunk_table(*m).dom(),
        r@.no_duplicates(),
{
    m.iter().map(|entry| *entry.key()).collect()
}

} // verus!
