//! The durable storage layer: thin trusted wrappers around the stable
//! structures that hold the service's persistent state — a keyed byte store
//! for encoded records and a scalar cell for the id counter.
//!
//! Both structures write their effect durably before returning. The two
//! constructors build both components at once over one backing memory,
//! partitioned by the memory manager into one region per component, so the
//! two never overlap whatever the host's memory is.

use vstd::prelude::*;
use ic_stable_structures::memory_manager::MemoryId;
use ic_stable_structures::memory_manager::MemoryManager;
use ic_stable_structures::memory_manager::VirtualMemory;
use ic_stable_structures::DefaultMemoryImpl;
use ic_stable_structures::StableBTreeMap;
use ic_stable_structures::StableCell;

verus! {

/// Durable keyed byte store: each entry is the encoded bytes of one record,
/// keyed by its id. Relies on ic_stable_structures::BTreeMap over the
/// crate's default memory.
#[verifier::external_body]
pub struct StableByteMap {
    inner: StableBTreeMap<u64, Vec<u8>, VirtualMemory<DefaultMemoryImpl>>,
}

/// What the durable byte store holds: a map from id to stored bytes.
pub uninterp spec fn byte_map_contents(m: StableByteMap) -> Map<u64, Seq<u8>>;

/// The contents of a store that holds nothing.
pub open spec fn no_contents() -> Map<u64, Seq<u8>> {
    Map::empty()
}

/// Relies on ic_stable_structures::Cell::new and BTreeMap::new, which
/// overwrite whatever their region held: the fresh cell holds zero and the
/// fresh map is empty, on every target. The memory manager gives each
/// component its own region of the one backing memory.
#[verifier::external_body]
pub fn stable_fresh() -> (parts: (StableU64Cell, StableByteMap))
    ensures
        cell_value(parts.0) == 0,
        byte_map_contents(parts.1) == no_contents(),
{
    let mm = MemoryManager::init(DefaultMemoryImpl::default());
    let cell = StableCell::new(mm.get(MemoryId::new(0)), 0);
    let map = StableBTreeMap::new(mm.get(MemoryId::new(1)));
    (StableU64Cell { inner: cell }, StableByteMap { inner: map })
}

/// Relies on ic_stable_structures::Cell::init and BTreeMap::init: each loads
/// whatever its region of the backing memory already holds — the state a
/// previous run persisted — and falls back to zero or empty only when the
/// region is fresh. Nothing is claimed of the loaded values here: the
/// service validates them after loading. Cell::init panics when the region
/// holds an incompatible persisted layout, an unrecoverable condition.
#[verifier::external_body]
pub fn stable_load() -> (parts: (StableU64Cell, StableByteMap))
{
    let mm = MemoryManager::init(DefaultMemoryImpl::default());
    let cell = StableCell::init(mm.get(MemoryId::new(0)), 0);
    let map = StableBTreeMap::init(mm.get(MemoryId::new(1)));
    (StableU64Cell { inner: cell }, StableByteMap { inner: map })
}

/// Relies on ic_stable_structures::BTreeMap::keys: iterates exactly the keys
/// present in the map.
#[verifier::external_body]
pub fn byte_map_keys(m: &StableByteMap) -> (keys: Vec<u64>)
    ensures
        forall|k: u64| #[trigger] byte_map_contents(*m).dom().contains(k) ==> keys@.contains(k),
        forall|i: int| 0 <= i < keys@.len() ==> byte_map_contents(*m).dom().contains(
            #[trigger] keys@[i],
        ),
{
    m.inner.keys().collect()
}

/// Relies on ic_stable_structures::BTreeMap::insert: upserts the value under
/// the key and returns the previous value, if any.
#[verifier::external_body]
pub fn byte_map_insert(m: &mut StableByteMap, key: u64, value: Vec<u8>) -> (prev: Option<Vec<u8>>)
    ensures
        byte_map_contents(*final(m)) == byte_map_contents(*old(m)).insert(key, value@),
        match prev {
            Some(p) => byte_map_contents(*old(m)).dom().contains(key) && p@ == byte_map_contents(
                *old(m),
            )[key],
            None => !byte_map_contents(*old(m)).dom().contains(key),
        },
{
    m.inner.insert(key, value)
}

/// Relies on ic_stable_structures::BTreeMap::get: returns a copy of the
/// value under the key, if any.
#[verifier::external_body]
pub fn byte_map_get(m: &StableByteMap, key: &u64) -> (r: Option<Vec<u8>>)
    ensures
        match r {
            Some(v) => byte_map_contents(*m).dom().contains(*key) && v@ == byte_map_contents(
                *m,
            )[*key],
            None => !byte_map_contents(*m).dom().contains(*key),
        },
{
    m.inner.get(key)
}

/// Relies on ic_stable_structures::BTreeMap::remove: removes and returns the
/// value under the key, if any.
#[verifier::external_body]
pub fn byte_map_remove(m: &mut StableByteMap, key: &u64) -> (r: Option<Vec<u8>>)
    ensures
        byte_map_contents(*final(m)) == byte_map_contents(*old(m)).remove(*key),
        match r {
            Some(v) => byte_map_contents(*old(m)).dom().contains(*key) && v@ == byte_map_contents(
                *old(m),
            )[*key],
            None => !byte_map_contents(*old(m)).dom().contains(*key),
        },
{
    m.inner.remove(key)
}

/// Durable scalar cell holding the last issued identifier. Relies on
/// ic_stable_structures::Cell over the crate's default memory.
#[verifier::external_body]
pub struct StableU64Cell {
    inner: StableCell<u64, VirtualMemory<DefaultMemoryImpl>>,
}

/// What the durable cell holds.
pub uninterp spec fn cell_value(c: StableU64Cell) -> u64;

/// Relies on ic_stable_structures::Cell::get: returns the held value.
#[verifier::external_body]
pub fn cell_get(c: &StableU64Cell) -> (v: u64)
    ensures
        v == cell_value(*c),
{
    *c.inner.get()
}

/// Relies on ic_stable_structures::Cell::set: writes the value durably
/// before returning. Panics if the backing memory cannot grow — an
/// unrecoverable storage failure.
#[verifier::external_body]
pub fn cell_set(c: &mut StableU64Cell, v: u64)
    ensures
        cell_value(*final(c)) == v,
{
    let _ = c.inner.set(v);
}

} // verus!
