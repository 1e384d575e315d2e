//! The checks that the Python functions make on their zoom arguments before
//! they compute.
use crate::children::{children_fit, level};
use crate::errors::UtilesError;
use crate::tile::{ancestor, minmax, neighbors_spec, Tile};
use vstd::arithmetic::power2::pow2;
use vstd::prelude::*;

verus! {

/// The smallest and largest column (or row) at `zoom`, for a zoom given as
/// a Python integer; zooms outside `0..=32` are an error.
pub fn py_minmax(zoom: i32) -> (r: Result<(u32, u32), UtilesError>)
    requires
        zoom != 32,
    ensures
        match r {
            Ok(m) => 0 <= zoom < 32 && m == (0u32, (pow2(zoom as nat) - 1) as u32),
            Err(e) => !(0 <= zoom <= 32) && e == UtilesError::InvalidZoom,
        },
{
    if zoom < 0 || zoom > 32 {
        return Err(UtilesError::InvalidZoom);
    }
    Ok(minmax(zoom as u32))
}

/// The parent of `tile` at `zoom` (one level up when `zoom` is `None`);
/// `None` for a zoom-0 tile, and an error when `zoom` is not above the tile.
pub fn py_parent(tile: Tile, zoom: Option<u8>) -> (r: Result<Option<Tile>, UtilesError>)
    ensures
        tile.z == 0 ==> r == Ok::<Option<Tile>, UtilesError>(None),
        tile.z > 0 ==> match zoom {
            Some(zm) => if zm >= tile.z {
                r == Err::<Option<Tile>, UtilesError>(UtilesError::InvalidZoom)
            } else {
                r == Ok::<Option<Tile>, UtilesError>(
                    Some(ancestor(tile.x, tile.y, tile.z, (tile.z - zm) as nat)),
                )
            },
            None => r == Ok::<Option<Tile>, UtilesError>(
                Some(ancestor(tile.x, tile.y, tile.z, 1)),
            ),
        },
{
    if tile.z == 0 {
        return Ok(None);
    }
    let zoom: u8 = match zoom {
        Some(zm) => zm,
        None => tile.z - 1,
    };
    if zoom >= tile.z {
        return Err(UtilesError::InvalidZoom);
    }
    Ok(Some(tile.parent(Some(tile.z - zoom - 1))))
}

/// The descendants of `tile` at `zoom` (one level down when `zoom` is
/// `None`); an error when `zoom` is above the tile.
pub fn py_children(tile: Tile, zoom: Option<u8>) -> (r: Result<Vec<Tile>, UtilesError>)
    requires
        tile.z < 255,
        match zoom {
            Some(zm) => zm >= tile.z ==> children_fit(tile.x, tile.y, (zm - tile.z) as nat),
            None => children_fit(tile.x, tile.y, 1),
        },
    ensures
        match zoom {
            Some(zm) => if zm < tile.z {
                r matches Err(e) && e == UtilesError::InvalidZoom
            } else {
                r matches Ok(v) && v@ == level(tile, (zm - tile.z) as nat)
            },
            None => r matches Ok(v) && v@ == level(tile, 1),
        },
{
    let zoom: u8 = match zoom {
        Some(zm) => zm,
        None => tile.z + 1,
    };
    if zoom < tile.z {
        return Err(UtilesError::InvalidZoom);
    }
    Ok(tile.children(Some(zoom)))
}

/// The neighbours of `tile`; an error when `zoom` is given and lies above
/// the tile.
pub fn py_neighbors(tile: Tile, zoom: Option<u8>) -> (r: Result<Vec<Tile>, UtilesError>)
    requires
        (zoom matches Some(zm) && zm < tile.z) || tile.z == 0 || (tile.z < 32 && tile.x < u32::MAX
            && tile.y < u32::MAX),
    ensures
        match zoom {
            Some(zm) if zm < tile.z => r matches Err(e) && e == UtilesError::InvalidZoom,
            _ => r matches Ok(v) && v@ == neighbors_spec(tile.x, tile.y, tile.z),
        },
{
    let zoom: u8 = match zoom {
        Some(zm) => zm,
        None => tile.z,
    };
    if zoom < tile.z {
        return Err(UtilesError::InvalidZoom);
    }
    Ok(tile.neighbors())
}

} // verus!
