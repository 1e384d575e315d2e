//! Integer tile arithmetic for web-mercator XYZ tiles: tile identity,
//! parents, children, siblings and neighbours, quadkeys, PMTiles tile ids,
//! tile-set simplification, tile type sniffing and the small pieces of
//! MBTiles bookkeeping that are plain computation.
use vstd::prelude::*;

pub mod children;
pub mod dbpath;
pub mod decimal;
pub mod errors;
pub mod hash_types;
pub mod insert_strategy;
pub mod libtiletype;
pub mod mbtiles_check;
pub mod metadata;
pub mod mbtstats;
pub mod pmtiles;
pub mod pyfns;
pub mod pytile;
pub mod quadkey;
pub mod simplify;
pub mod squealite;
pub mod sqlite_u64;
pub mod tile;
pub mod tile_order;
pub mod tile_text;
pub mod tiles_range;
pub mod zoom;

verus! {

/// Adds two counts.
pub fn add(left: usize, right: usize) -> (r: usize)
    requires
        left + right <= usize::MAX,
    ensures
        r == left + right,
{
    left + right
}

} // verus!
