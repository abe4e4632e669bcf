//! The per-car hash maps of the ingest loop, kept in `ahash`'s
//! `AHashMap` as trusted items.
//!
//! `AHashMap` delegates `new`, `get` and `insert` to
//! `std::collections::HashMap` (it is a newtype around one, with a
//! faster hasher).  Verus sees the type opaquely; what each map holds
//! is named by an uninterpreted contents function, and the three
//! operations the loop uses are wrapped with contracts stating the
//! standard map semantics over that name.

use vstd::prelude::*;

use crate::packets::SectorTriple;

verus! {

/// The per-car last-sample-timestamp map of the ingest loop.
pub type StampMap = ahash::AHashMap<u8, u64>;

/// The per-car last-accepted-sector-triple map of the ingest loop.
pub type SectorMap = ahash::AHashMap<u8, SectorTriple>;

#[verifier::external_type_specification]
#[verifier::external_body]
pub struct ExRandomState(ahash::RandomState);

#[verifier::external_type_specification]
#[verifier::external_body]
#[verifier::reject_recursive_types(K)]
#[verifier::reject_recursive_types(V)]
#[verifier::reject_recursive_types(S)]
pub struct ExAHashMap<K, V, S>(ahash::AHashMap<K, V, S>);

/// What a per-car timestamp map holds.
pub uninterp spec fn stamp_entries(m: StampMap) -> Map<u8, u64>;

/// What a per-car sector-triple map holds.
pub uninterp spec fn sector_entries(m: SectorMap) -> Map<u8, SectorTriple>;

/// Relies on ahash::AHashMap::new: a fresh map is empty.
#[verifier::external_body]
pub fn stamp_map_new() -> (r: StampMap)
    ensures
        forall|c: u8| !stamp_entries(r).dom().contains(c),
{
    ahash::AHashMap::new()
}

/// Relies on ahash::AHashMap::get: lookup of the key's value.
#[verifier::external_body]
pub fn stamp_map_get(m: &StampMap, k: u8) -> (r: Option<u64>)
    ensures
        r == if stamp_entries(*m).dom().contains(k) {
            Some(stamp_entries(*m)[k])
        } else {
            None::<u64>
        },
{
    m.get(&k).copied()
}

/// Relies on ahash::AHashMap::insert: binds the key to the value.
#[verifier::external_body]
pub fn stamp_map_insert(m: &mut StampMap, k: u8, v: u64)
    ensures
        stamp_entries(*final(m)) == stamp_entries(*old(m)).insert(k, v),
{
    m.insert(k, v);
}

/// Relies on ahash::AHashMap::new: a fresh map is empty.
#[verifier::external_body]
pub fn sector_map_new() -> (r: SectorMap)
    ensures
        forall|c: u8| !sector_entries(r).dom().contains(c),
{
    ahash::AHashMap::new()
}

/// Relies on ahash::AHashMap::get: lookup of the key's value.
#[verifier::external_body]
pub fn sector_map_get(m: &SectorMap, k: u8) -> (r: Option<SectorTriple>)
    ensures
        r == if sector_entries(*m).dom().contains(k) {
            Some(sector_entries(*m)[k])
        } else {
            None::<SectorTriple>
        },
{
    m.get(&k).copied()
}

/// Relies on ahash::AHashMap::insert: binds the key to the value.
#[verifier::external_body]
pub fn sector_map_insert(m: &mut SectorMap, k: u8, v: SectorTriple)
    ensures
        sector_entries(*final(m)) == sector_entries(*old(m)).insert(k, v),
{
    m.insert(k, v);
}

} // verus!
