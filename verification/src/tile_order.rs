//! The total order on tiles: by zoom, then row, then column.
use std::cmp::Ordering;
use crate::tile::Tile;
use vstd::prelude::*;

verus! {

/// `a` comes strictly before `b`: lower zoom first, then lower row, then lower column.
pub open spec fn tile_before(a: Tile, b: Tile) -> bool {
    ||| a.z < b.z
    ||| (a.z == b.z && a.y < b.y)
    ||| (a.z == b.z && a.y == b.y && a.x < b.x)
}

impl PartialOrd for Tile {
    fn partial_cmp(&self, other: &Self) -> (r: Option<Ordering>) {
        if self.z != other.z {
            if self.z < other.z {
                Some(Ordering::Less)
            } else {
                Some(Ordering::Greater)
            }
        } else if self.y != other.y {
            if self.y < other.y {
                Some(Ordering::Less)
            } else {
                Some(Ordering::Greater)
            }
        } else if self.x != other.x {
            if self.x < other.x {
                Some(Ordering::Less)
            } else {
                Some(Ordering::Greater)
            }
        } else {
            Some(Ordering::Equal)
        }
    }
}

impl vstd::std_specs::cmp::PartialOrdSpecImpl for Tile {
    open spec fn obeys_partial_cmp_spec() -> bool {
        true
    }

    open spec fn partial_cmp_spec(&self, other: &Self) -> Option<Ordering> {
        if tile_before(*self, *other) {
            Some(Ordering::Less)
        } else if tile_before(*other, *self) {
            Some(Ordering::Greater)
        } else {
            Some(Ordering::Equal)
        }
    }
}

/// The order is total and agrees with equality: exactly one of `a < b`,
/// `a == b`, `b < a` holds.
pub proof fn lemma_tile_order_trichotomy(a: Tile, b: Tile)
    ensures
        tile_before(a, b) || tile_before(b, a) || a == b,
        !(tile_before(a, b) && tile_before(b, a)),
        !(tile_before(a, b) && a == b),
{
}

/// The order is transitive.
pub proof fn lemma_tile_order_transitive(a: Tile, b: Tile, c: Tile)
    requires
        tile_before(a, b),
        tile_before(b, c),
    ensures
        tile_before(a, c),
{
}

} // verus!
