//! The `Tile` type and its integer relations.
use vstd::arithmetic::power2::{lemma_pow2_adds, lemma_pow2_pos, lemma2_to64, pow2};
use vstd::arithmetic::div_mod::lemma_div_denominator;
use vstd::bits::{lemma_u32_pow2_no_overflow, lemma_u32_shl_is_mul, lemma_u32_shr_is_div};
use vstd::prelude::*;

verus! {

/// A web-mercator tile: column `x`, row `y` (counted from the top) and zoom `z`.
///
/// Fields are declared zoom first so that the derived total order sorts by
/// zoom, then row, then column.
#[derive(Debug, Clone, Copy, PartialEq, Eq, Ord, Hash, Structural)]
pub struct Tile {
    pub z: u8,
    pub y: u32,
    pub x: u32,
}

/// A bare `(x, y, z)` triple.
#[derive(Debug, Clone, Copy, PartialEq, Eq, Hash, Structural)]
pub struct XYZ(pub u32, pub u32, pub u8);

/// A bare `(x, y)` pair.
#[derive(Debug, Clone, Copy, PartialEq, Eq, Hash, Structural)]
pub struct XY {
    pub x: u32,
    pub y: u32,
}

/// The tile with the given coordinates, as a spec value.
pub open spec fn mk_tile(x: int, y: int, z: int) -> Tile {
    Tile { x: x as u32, y: y as u32, z: z as u8 }
}

/// Number of tiles along one side of the grid at zoom `z`.
pub open spec fn side(z: nat) -> nat {
    pow2(z)
}

/// The tile lies inside the grid of its zoom.
pub open spec fn in_grid(x: int, y: int, z: nat) -> bool {
    0 <= x < side(z) && 0 <= y < side(z)
}

/// The ancestor of `(x, y, z)` that lies `k` zoom levels higher up.
pub open spec fn ancestor(x: u32, y: u32, z: u8, k: nat) -> Tile {
    mk_tile((x as nat / pow2(k)) as int, (y as nat / pow2(k)) as int, z - k)
}

/// Climbing `i` levels and then `j` more is climbing `i + j` levels.
pub proof fn lemma_ancestor_compose(x: u32, y: u32, z: u8, i: nat, j: nat)
    requires
        i + j <= z,
    ensures
        ({
            let a = ancestor(x, y, z, i);
            ancestor(a.x, a.y, a.z, j) == ancestor(x, y, z, i + j)
        }),
        ancestor(x, y, z, i).x == x as nat / pow2(i),
        ancestor(x, y, z, i).y == y as nat / pow2(i),
        ancestor(x, y, z, i).z == z - i,
{
    lemma_pow2_pos(i);
    lemma_pow2_pos(j);
    lemma_pow2_adds(i, j);
    assert(x as nat / pow2(i) <= x) by {
        vstd::arithmetic::div_mod::lemma_div_is_ordered_by_denominator(x as int, 1, pow2(i) as int);
    }
    assert(y as nat / pow2(i) <= y) by {
        vstd::arithmetic::div_mod::lemma_div_is_ordered_by_denominator(y as int, 1, pow2(i) as int);
    }
    lemma_div_denominator(x as int, pow2(i) as int, pow2(j) as int);
    lemma_div_denominator(y as int, pow2(i) as int, pow2(j) as int);
}

/// `2^z` as a `u32`, for `z < 32`.
fn pow2_u32(z: u32) -> (r: u32)
    requires
        z < 32,
    ensures
        r == pow2(z as nat),
        r > 0,
{
    proof {
        lemma_u32_pow2_no_overflow(z as nat);
        lemma_u32_shl_is_mul(1, z);
    }
    1u32 << z
}

/// The smallest and largest column (or row) index at zoom `zoom`.
pub fn minmax(zoom: u32) -> (r: (u32, u32))
    requires
        zoom < 32,
    ensures
        r.0 == 0,
        r.1 == pow2(zoom as nat) - 1,
{
    let p = pow2_u32(zoom);
    (0, p - 1)
}

/// Whether `(x, y)` is a tile of the grid at zoom `z`.
pub fn valid(x: u32, y: u32, z: u8) -> (r: bool)
    requires
        z < 32,
    ensures
        r == in_grid(x as int, y as int, z as nat),
{
    let (minx, maxx) = minmax(z as u32);
    let (miny, maxy) = minmax(z as u32);
    x >= minx && x <= maxx && y >= miny && y <= maxy
}

/// Row index counted from the bottom instead of the top (TMS rows).
pub fn flipy(y: u32, z: u8) -> (r: u32)
    requires
        z < 32,
        y < pow2(z as nat),
    ensures
        r == pow2(z as nat) - 1 - y,
{
    let p = pow2_u32(z as u32);
    p - 1 - y
}

/// Flipping a row twice gives the row back.
pub proof fn lemma_flipy_involution(y: u32, z: u8)
    requires
        z < 32,
        y < pow2(z as nat),
    ensures
        pow2(z as nat) - 1 - (pow2(z as nat) - 1 - y) == y,
        0 <= pow2(z as nat) - 1 - y < pow2(z as nat),
{
}

impl Tile {
    /// A tile from its column, row and zoom.
    pub fn new(x: u32, y: u32, z: u8) -> (t: Tile)
        ensures
            t.x == x,
            t.y == y,
            t.z == z,
    {
        Tile { x, y, z }
    }

    /// Whether the tile lies inside the grid of its zoom.
    pub fn valid(&self) -> (r: bool)
        requires
            self.z < 32,
        ensures
            r == in_grid(self.x as int, self.y as int, self.z as nat),
    {
        valid(self.x, self.y, self.z)
    }

    /// The column.
    pub fn x(&self) -> (r: u32)
        ensures
            r == self.x,
    {
        self.x
    }

    /// The row.
    pub fn y(&self) -> (r: u32)
        ensures
            r == self.y,
    {
        self.y
    }

    /// The zoom.
    pub fn z(&self) -> (r: u8)
        ensures
            r == self.z,
    {
        self.z
    }

    /// The zoom.
    pub fn zoom(&self) -> (r: u8)
        ensures
            r == self.z,
    {
        self.z
    }
}

impl From<XYZ> for Tile {
    fn from(xyz: XYZ) -> (t: Tile) {
        Tile { x: xyz.0, y: xyz.1, z: xyz.2 }
    }
}

impl vstd::std_specs::convert::FromSpecImpl<XYZ> for Tile {
    open spec fn obeys_from_spec() -> bool {
        true
    }

    open spec fn from_spec(xyz: XYZ) -> Tile {
        Tile { x: xyz.0, y: xyz.1, z: xyz.2 }
    }
}

impl From<Tile> for (u32, u32, u8) {
    fn from(tile: Tile) -> (r: (u32, u32, u8)) {
        (tile.x, tile.y, tile.z)
    }
}

impl vstd::std_specs::convert::FromSpecImpl<Tile> for (u32, u32, u8) {
    open spec fn obeys_from_spec() -> bool {
        true
    }

    open spec fn from_spec(tile: Tile) -> (u32, u32, u8) {
        (tile.x, tile.y, tile.z)
    }
}

/// The number of levels that `parent` climbs above the tile: one more than `n`.
pub open spec fn parent_levels(n: Option<u8>) -> nat {
    match n {
        Some(k) => k as nat + 1,
        None => 1,
    }
}

proof fn lemma_half_div_pow2(x: u32, k: nat)
    ensures
        (x as nat / 2) / pow2(k) == x as nat / pow2(k + 1),
{
    lemma_pow2_pos(k);
    lemma_div_denominator(x as int, 2, pow2(k) as int);
    lemma_pow2_adds(1, k);
    lemma2_to64();
    assert(2 * pow2(k) == pow2(k + 1)) by {
        assert(pow2(1) == 2);
    }
}

/// The ancestor of `(x, y, z)` that lies `n + 1` levels up (one level when
/// `n` is `None`).
pub fn parent(x: u32, y: u32, z: u8, n: Option<u8>) -> (t: Tile)
    requires
        z >= parent_levels(n),
    ensures
        t == ancestor(x, y, z, parent_levels(n)),
    decreases parent_levels(n),
{
    let k: u8 = match n {
        Some(k) => k,
        None => 0,
    };
    proof {
        lemma_u32_shr_is_div(x, 1);
        lemma_u32_shr_is_div(y, 1);
        assert(pow2(1) == 2) by { lemma2_to64(); }
        lemma_half_div_pow2(x, k as nat);
        lemma_half_div_pow2(y, k as nat);
    }
    if k == 0 {
        proof {
            assert(pow2(0) == 1) by { lemma2_to64(); }
        }
        Tile { x: x >> 1, y: y >> 1, z: z - 1 }
    } else {
        parent(x >> 1, y >> 1, z - 1, Some(k - 1))
    }
}

impl Tile {
    /// The ancestor of this tile `n + 1` levels up (one level when `n` is `None`).
    pub fn parent(&self, n: Option<u8>) -> (t: Tile)
        requires
            self.z >= parent_levels(n),
        ensures
            t == ancestor(self.x, self.y, self.z, parent_levels(n)),
    {
        parent(self.x, self.y, self.z, n)
    }
}

/// The tile offset by `(dx, dy)` at the same zoom.
pub open spec fn offset(x: u32, y: u32, z: u8, dx: int, dy: int) -> Tile {
    mk_tile(x + dx, y + dy, z as int)
}

/// Where a tile sits among the four children of its parent.
enum SiblingRelationship {
    UpperLeft,
    UpperRight,
    LowerLeft,
    LowerRight,
}

fn sibling_relationship(x: u32, y: u32) -> (r: SiblingRelationship)
    ensures
        r is UpperLeft <==> (x % 2 == 0 && y % 2 == 0),
        r is UpperRight <==> (x % 2 == 1 && y % 2 == 0),
        r is LowerLeft <==> (x % 2 == 0 && y % 2 == 1),
        r is LowerRight <==> (x % 2 == 1 && y % 2 == 1),
{
    if x % 2 == 0 {
        if y % 2 == 0 {
            SiblingRelationship::UpperLeft
        } else {
            SiblingRelationship::LowerLeft
        }
    } else {
        if y % 2 == 0 {
            SiblingRelationship::UpperRight
        } else {
            SiblingRelationship::LowerRight
        }
    }
}

/// The other three children of the tile's parent, in the order the
/// library lists them.
pub open spec fn siblings_spec(x: u32, y: u32, z: u8) -> Seq<Tile> {
    if x % 2 == 0 && y % 2 == 0 {
        seq![offset(x, y, z, 1, 0), offset(x, y, z, 0, 1), offset(x, y, z, 1, 1)]
    } else if x % 2 == 1 && y % 2 == 0 {
        seq![offset(x, y, z, -1, 0), offset(x, y, z, 0, 1), offset(x, y, z, -1, 1)]
    } else if x % 2 == 0 && y % 2 == 1 {
        seq![offset(x, y, z, 1, 0), offset(x, y, z, 0, -1), offset(x, y, z, 1, -1)]
    } else {
        seq![offset(x, y, z, -1, 0), offset(x, y, z, 0, -1), offset(x, y, z, -1, -1)]
    }
}

/// The other three children of the parent of `(x, y, z)`.
pub fn siblings(x: u32, y: u32, z: u8) -> (r: Vec<Tile>)
    ensures
        r@ == siblings_spec(x, y, z),
{
    let sibrel = sibling_relationship(x, y);
    match sibrel {
        SiblingRelationship::UpperLeft => vec![
            Tile::new(x + 1, y, z),
            Tile::new(x, y + 1, z),
            Tile::new(x + 1, y + 1, z),
        ],
        SiblingRelationship::UpperRight => vec![
            Tile::new(x - 1, y, z),
            Tile::new(x, y + 1, z),
            Tile::new(x - 1, y + 1, z),
        ],
        SiblingRelationship::LowerLeft => vec![
            Tile::new(x + 1, y, z),
            Tile::new(x, y - 1, z),
            Tile::new(x + 1, y - 1, z),
        ],
        SiblingRelationship::LowerRight => vec![
            Tile::new(x - 1, y, z),
            Tile::new(x, y - 1, z),
            Tile::new(x - 1, y - 1, z),
        ],
    }
}

/// Every sibling of a tile is a different tile with the same parent, and
/// the three siblings are pairwise different.
pub proof fn lemma_siblings_share_parent(x: u32, y: u32, z: u8)
    ensures
        siblings_spec(x, y, z).len() == 3,
        forall|i: int|
            0 <= i < 3 ==> {
                let s = #[trigger] siblings_spec(x, y, z)[i];
                &&& s.z == z
                &&& s.x / 2 == x / 2
                &&& s.y / 2 == y / 2
                &&& s != (Tile { x, y, z })
            },
        forall|i: int, j: int|
            0 <= i < j < 3 ==> siblings_spec(x, y, z)[i] != siblings_spec(x, y, z)[j],
{
}

/// Where a tile sits relative to the edges of the grid of its zoom.
pub enum TileEdgeInfo {
    Bottom,
    BottomLeft,
    BottomRight,
    Left,
    Right,
    Top,
    TopLeft,
    TopRight,
    Middle,
}

/// The edge classification, with `m = 2^z` as the edge coordinate.
pub open spec fn edge_spec(x: u32, y: u32, m: int) -> TileEdgeInfo {
    if x == 0 && y == 0 {
        TileEdgeInfo::TopLeft
    } else if x == m && y == 0 {
        TileEdgeInfo::TopRight
    } else if x == 0 && y == m {
        TileEdgeInfo::BottomLeft
    } else if x == m && y == m {
        TileEdgeInfo::BottomRight
    } else if x == 0 {
        TileEdgeInfo::Left
    } else if x == m {
        TileEdgeInfo::Right
    } else if y == 0 {
        TileEdgeInfo::Top
    } else if y == m {
        TileEdgeInfo::Bottom
    } else {
        TileEdgeInfo::Middle
    }
}

fn _tile_edge_info(x: u32, y: u32, z: u8) -> (r: TileEdgeInfo)
    requires
        z < 32,
    ensures
        r == edge_spec(x, y, pow2(z as nat) as int),
{
    if x == 0 && y == 0 {
        return TileEdgeInfo::TopLeft;
    }
    let max_xy = pow2_u32(z as u32);
    if x == max_xy && y == 0 {
        return TileEdgeInfo::TopRight;
    }
    if x == 0 && y == max_xy {
        return TileEdgeInfo::BottomLeft;
    }
    if x == max_xy && y == max_xy {
        return TileEdgeInfo::BottomRight;
    }
    if x == 0 {
        return TileEdgeInfo::Left;
    }
    if x == max_xy {
        return TileEdgeInfo::Right;
    }
    if y == 0 {
        return TileEdgeInfo::Top;
    }
    if y == max_xy {
        return TileEdgeInfo::Bottom;
    }
    TileEdgeInfo::Middle
}

/// The eight surrounding tiles, in the order the library lists them.
pub open spec fn middle_neighbors_spec(x: u32, y: u32, z: u8) -> Seq<Tile> {
    seq![
        offset(x, y, z, 1, 0),
        offset(x, y, z, 0, 1),
        offset(x, y, z, 1, 1),
        offset(x, y, z, -1, 0),
        offset(x, y, z, 0, -1),
        offset(x, y, z, -1, -1),
        offset(x, y, z, 1, -1),
        offset(x, y, z, -1, 1),
    ]
}

fn _neighbors_middle_tile(x: u32, y: u32, z: u8) -> (r: Vec<Tile>)
    requires
        0 < x < u32::MAX,
        0 < y < u32::MAX,
    ensures
        r@ == middle_neighbors_spec(x, y, z),
{
    vec![
        Tile::new(x + 1, y, z),
        Tile::new(x, y + 1, z),
        Tile::new(x + 1, y + 1, z),
        Tile::new(x - 1, y, z),
        Tile::new(x, y - 1, z),
        Tile::new(x - 1, y - 1, z),
        Tile::new(x + 1, y - 1, z),
        Tile::new(x - 1, y + 1, z),
    ]
}

/// The neighbouring tiles of `(x, y, z)`: none at zoom 0; otherwise the
/// surrounding tiles, leaving out the sides on which the column or row is
/// `0` or `2^z`.
pub open spec fn neighbors_spec(x: u32, y: u32, z: u8) -> Seq<Tile> {
    if z == 0 {
        Seq::empty()
    } else {
        match edge_spec(x, y, pow2(z as nat) as int) {
            TileEdgeInfo::Middle => middle_neighbors_spec(x, y, z),
            TileEdgeInfo::TopLeft => seq![
                offset(x, y, z, 1, 0),
                offset(x, y, z, 0, 1),
                offset(x, y, z, 1, 1),
            ],
            TileEdgeInfo::TopRight => seq![
                offset(x, y, z, -1, 0),
                offset(x, y, z, 0, 1),
                offset(x, y, z, -1, 1),
            ],
            TileEdgeInfo::BottomLeft => seq![
                offset(x, y, z, 1, 0),
                offset(x, y, z, 0, -1),
                offset(x, y, z, 1, -1),
            ],
            TileEdgeInfo::BottomRight => seq![
                offset(x, y, z, -1, 0),
                offset(x, y, z, 0, -1),
                offset(x, y, z, -1, -1),
            ],
            TileEdgeInfo::Left => seq![
                offset(x, y, z, 1, 0),
                offset(x, y, z, 0, 1),
                offset(x, y, z, 1, 1),
                offset(x, y, z, 0, -1),
                offset(x, y, z, 1, -1),
            ],
            TileEdgeInfo::Right => seq![
                offset(x, y, z, -1, 0),
                offset(x, y, z, 0, 1),
                offset(x, y, z, -1, 1),
                offset(x, y, z, 0, -1),
                offset(x, y, z, -1, -1),
            ],
            TileEdgeInfo::Top => seq![
                offset(x, y, z, 1, 0),
                offset(x, y, z, 0, 1),
                offset(x, y, z, 1, 1),
                offset(x, y, z, -1, 0),
                offset(x, y, z, -1, 1),
            ],
            TileEdgeInfo::Bottom => seq![
                offset(x, y, z, 1, 0),
                offset(x, y, z, 0, -1),
                offset(x, y, z, 1, -1),
                offset(x, y, z, -1, 0),
                offset(x, y, z, -1, -1),
            ],
        }
    }
}

/// The neighbouring tiles of `(x, y, z)` (see `neighbors_spec`).
pub fn neighbors(x: u32, y: u32, z: u8) -> (r: Vec<Tile>)
    requires
        z == 0 || (z < 32 && x < u32::MAX && y < u32::MAX),
    ensures
        r@ == neighbors_spec(x, y, z),
{
    if z == 0 {
        return Vec::new();
    }
    proof {
        lemma_u32_pow2_no_overflow(z as nat);
    }
    let edge_info = _tile_edge_info(x, y, z);
    match edge_info {
        TileEdgeInfo::Middle => _neighbors_middle_tile(x, y, z),
        TileEdgeInfo::TopLeft => vec![
            Tile::new(x + 1, y, z),
            Tile::new(x, y + 1, z),
            Tile::new(x + 1, y + 1, z),
        ],
        TileEdgeInfo::TopRight => vec![
            Tile::new(x - 1, y, z),
            Tile::new(x, y + 1, z),
            Tile::new(x - 1, y + 1, z),
        ],
        TileEdgeInfo::BottomLeft => vec![
            Tile::new(x + 1, y, z),
            Tile::new(x, y - 1, z),
            Tile::new(x + 1, y - 1, z),
        ],
        TileEdgeInfo::BottomRight => vec![
            Tile::new(x - 1, y, z),
            Tile::new(x, y - 1, z),
            Tile::new(x - 1, y - 1, z),
        ],
        TileEdgeInfo::Left => vec![
            Tile::new(x + 1, y, z),
            Tile::new(x, y + 1, z),
            Tile::new(x + 1, y + 1, z),
            Tile::new(x, y - 1, z),
            Tile::new(x + 1, y - 1, z),
        ],
        TileEdgeInfo::Right => vec![
            Tile::new(x - 1, y, z),
            Tile::new(x, y + 1, z),
            Tile::new(x - 1, y + 1, z),
            Tile::new(x, y - 1, z),
            Tile::new(x - 1, y - 1, z),
        ],
        TileEdgeInfo::Top => vec![
            Tile::new(x + 1, y, z),
            Tile::new(x, y + 1, z),
            Tile::new(x + 1, y + 1, z),
            Tile::new(x - 1, y, z),
            Tile::new(x - 1, y + 1, z),
        ],
        TileEdgeInfo::Bottom => vec![
            Tile::new(x + 1, y, z),
            Tile::new(x, y - 1, z),
            Tile::new(x + 1, y - 1, z),
            Tile::new(x - 1, y, z),
            Tile::new(x - 1, y - 1, z),
        ],
    }
}

/// Every neighbour of a tile is a different tile at the same zoom whose
/// column and row each differ from the tile's by at most one.
pub proof fn lemma_neighbors_adjacent(x: u32, y: u32, z: u8)
    requires
        z == 0 || (z < 32 && x < u32::MAX && y < u32::MAX),
    ensures
        forall|i: int|
            0 <= i < neighbors_spec(x, y, z).len() ==> {
                let n = #[trigger] neighbors_spec(x, y, z)[i];
                &&& n.z == z
                &&& -1 <= n.x - x <= 1
                &&& -1 <= n.y - y <= 1
                &&& n != (Tile { x, y, z })
            },
{
    if z != 0 {
        lemma_u32_pow2_no_overflow(z as nat);
    }
}

/// `offset` lands on `(x + dx, y + dy)` when that is a column and row.
proof fn lemma_offset_fields(x: u32, y: u32, z: u8, dx: int, dy: int)
    requires
        0 <= x + dx <= u32::MAX,
        0 <= y + dy <= u32::MAX,
    ensures
        offset(x, y, z, dx, dy).x == x + dx,
        offset(x, y, z, dx, dy).y == y + dy,
        offset(x, y, z, dx, dy).z == z,
{
}

/// The neighbours of a tile are all the tiles around it: a tile `c` of the
/// same zoom, other than the tile, whose column and row each differ from
/// the tile's by at most one, is a neighbour exactly when it does not lie
/// past the far edges the library uses (column or row `2^z`); and no
/// neighbour is listed twice. At zoom 0 there are none.
pub proof fn lemma_neighbors_complete(x: u32, y: u32, z: u8, c: Tile)
    requires
        z == 0 || (z < 32 && x < u32::MAX && y < u32::MAX),
    ensures
        z == 0 ==> neighbors_spec(x, y, z).len() == 0,
        z > 0 && c.z == z && -1 <= c.x - x <= 1 && -1 <= c.y - y <= 1 && c != (Tile { x, y, z })
            ==> (neighbors_spec(x, y, z).contains(c) <==> !(x == pow2(z as nat) && c.x == x + 1)
            && !(y == pow2(z as nat) && c.y == y + 1)),
        neighbors_spec(x, y, z).no_duplicates(),
{
    if z != 0 {
        lemma_u32_pow2_no_overflow(z as nat);
        let m = pow2(z as nat) as int;
        let n = neighbors_spec(x, y, z);
        lemma_offset_fields(x, y, z, 1, 0);
        lemma_offset_fields(x, y, z, 0, 1);
        lemma_offset_fields(x, y, z, 1, 1);
        if x >= 1 {
            lemma_offset_fields(x, y, z, -1, 0);
            lemma_offset_fields(x, y, z, -1, 1);
        }
        if y >= 1 {
            lemma_offset_fields(x, y, z, 0, -1);
            lemma_offset_fields(x, y, z, 1, -1);
        }
        if x >= 1 && y >= 1 {
            lemma_offset_fields(x, y, z, -1, -1);
        }
        let kept = c.z == z && -1 <= c.x - x <= 1 && -1 <= c.y - y <= 1 && c != (Tile { x, y, z })
            && !(x == m && c.x == x + 1) && !(y == m && c.y == y + 1);
        let near = c.z == z && -1 <= c.x - x <= 1 && -1 <= c.y - y <= 1 && c != (Tile { x, y, z });
        if near {
            match edge_spec(x, y, m) {
            TileEdgeInfo::Middle => {
                assert(n.len() == 8);
                if kept {
                    assert(n[0] == c || n[1] == c || n[2] == c || n[3] == c || n[4] == c || n[5] == c || n[6] == c || n[7] == c);
                }
                if n.contains(c) {
                    let i = choose|i: int| 0 <= i < n.len() && n[i] == c;
                    assert(i == 0 || i == 1 || i == 2 || i == 3 || i == 4 || i == 5 || i == 6 || i == 7);
                }
            },
            TileEdgeInfo::TopLeft => {
                assert(n.len() == 3);
                if kept {
                    assert(n[0] == c || n[1] == c || n[2] == c);
                }
                if n.contains(c) {
                    let i = choose|i: int| 0 <= i < n.len() && n[i] == c;
                    assert(i == 0 || i == 1 || i == 2);
                }
            },
            TileEdgeInfo::TopRight => {
                assert(n.len() == 3);
                if kept {
                    assert(n[0] == c || n[1] == c || n[2] == c);
                }
                if n.contains(c) {
                    let i = choose|i: int| 0 <= i < n.len() && n[i] == c;
                    assert(i == 0 || i == 1 || i == 2);
                }
            },
            TileEdgeInfo::BottomLeft => {
                assert(n.len() == 3);
                if kept {
                    assert(n[0] == c || n[1] == c || n[2] == c);
                }
                if n.contains(c) {
                    let i = choose|i: int| 0 <= i < n.len() && n[i] == c;
                    assert(i == 0 || i == 1 || i == 2);
                }
            },
            TileEdgeInfo::BottomRight => {
                assert(n.len() == 3);
                if kept {
                    assert(n[0] == c || n[1] == c || n[2] == c);
                }
                if n.contains(c) {
                    let i = choose|i: int| 0 <= i < n.len() && n[i] == c;
                    assert(i == 0 || i == 1 || i == 2);
                }
            },
            TileEdgeInfo::Left => {
                assert(n.len() == 5);
                if kept {
                    assert(n[0] == c || n[1] == c || n[2] == c || n[3] == c || n[4] == c);
                }
                if n.contains(c) {
                    let i = choose|i: int| 0 <= i < n.len() && n[i] == c;
                    assert(i == 0 || i == 1 || i == 2 || i == 3 || i == 4);
                }
            },
            TileEdgeInfo::Right => {
                assert(n.len() == 5);
                if kept {
                    assert(n[0] == c || n[1] == c || n[2] == c || n[3] == c || n[4] == c);
                }
                if n.contains(c) {
                    let i = choose|i: int| 0 <= i < n.len() && n[i] == c;
                    assert(i == 0 || i == 1 || i == 2 || i == 3 || i == 4);
                }
            },
            TileEdgeInfo::Top => {
                assert(n.len() == 5);
                if kept {
                    assert(n[0] == c || n[1] == c || n[2] == c || n[3] == c || n[4] == c);
                }
                if n.contains(c) {
                    let i = choose|i: int| 0 <= i < n.len() && n[i] == c;
                    assert(i == 0 || i == 1 || i == 2 || i == 3 || i == 4);
                }
            },
            TileEdgeInfo::Bottom => {
                assert(n.len() == 5);
                if kept {
                    assert(n[0] == c || n[1] == c || n[2] == c || n[3] == c || n[4] == c);
                }
                if n.contains(c) {
                    let i = choose|i: int| 0 <= i < n.len() && n[i] == c;
                    assert(i == 0 || i == 1 || i == 2 || i == 3 || i == 4);
                }
            },
            }
        }
    }
}

impl Tile {
    /// The tile offset by (1, 0) in (column, row) at the same zoom.
    pub fn up(&self) -> (t: Self)
        requires
            self.x < u32::MAX,
        ensures
            t == offset(self.x, self.y, self.z, 1, 0),
    {
        Self { x: self.x + 1, y: self.y, z: self.z }
    }

    /// The tile offset by (-1, 0) in (column, row) at the same zoom.
    pub fn down(&self) -> (t: Self)
        requires
            self.x > 0,
        ensures
            t == offset(self.x, self.y, self.z, -1, 0),
    {
        Self { x: self.x - 1, y: self.y, z: self.z }
    }

    /// The tile offset by (0, -1) in (column, row) at the same zoom.
    pub fn left(&self) -> (t: Self)
        requires
            self.y > 0,
        ensures
            t == offset(self.x, self.y, self.z, 0, -1),
    {
        Self { x: self.x, y: self.y - 1, z: self.z }
    }

    /// The tile offset by (0, 1) in (column, row) at the same zoom.
    pub fn right(&self) -> (t: Self)
        requires
            self.y < u32::MAX,
        ensures
            t == offset(self.x, self.y, self.z, 0, 1),
    {
        Self { x: self.x, y: self.y + 1, z: self.z }
    }

    /// The tile offset by (1, -1) in (column, row) at the same zoom.
    pub fn up_left(&self) -> (t: Self)
        requires
            self.x < u32::MAX && self.y > 0,
        ensures
            t == offset(self.x, self.y, self.z, 1, -1),
    {
        Self { x: self.x + 1, y: self.y - 1, z: self.z }
    }

    /// The tile offset by (1, 1) in (column, row) at the same zoom.
    pub fn up_right(&self) -> (t: Self)
        requires
            self.x < u32::MAX && self.y < u32::MAX,
        ensures
            t == offset(self.x, self.y, self.z, 1, 1),
    {
        Self { x: self.x + 1, y: self.y + 1, z: self.z }
    }

    /// The tile offset by (-1, -1) in (column, row) at the same zoom.
    pub fn down_left(&self) -> (t: Self)
        requires
            self.x > 0 && self.y > 0,
        ensures
            t == offset(self.x, self.y, self.z, -1, -1),
    {
        Self { x: self.x - 1, y: self.y - 1, z: self.z }
    }

    /// The tile offset by (-1, 1) in (column, row) at the same zoom.
    pub fn down_right(&self) -> (t: Self)
        requires
            self.x > 0 && self.y < u32::MAX,
        ensures
            t == offset(self.x, self.y, self.z, -1, 1),
    {
        Self { x: self.x - 1, y: self.y + 1, z: self.z }
    }

    /// The neighbouring tiles (see `neighbors_spec`).
    pub fn neighbors(&self) -> (r: Vec<Self>)
        requires
            self.z == 0 || (self.z < 32 && self.x < u32::MAX && self.y < u32::MAX),
        ensures
            r@ == neighbors_spec(self.x, self.y, self.z),
    {
        neighbors(self.x, self.y, self.z)
    }

    /// The other three children of this tile's parent.
    pub fn siblings(&self) -> (r: Vec<Self>)
        ensures
            r@ == siblings_spec(self.x, self.y, self.z),
    {
        siblings(self.x, self.y, self.z)
    }
}

/// Bit `k` of `v`.
pub open spec fn bit_of(v: u32, k: u32) -> u32 {
    (v >> k) & 1
}

/// The corners `(west, south, east, north)` (as 32-bit tile columns and
/// rows) first part ways at zoom `z`: bit `31 - z` of the columns or of the
/// rows differs.
pub open spec fn corners_split_at(bbox: (u32, u32, u32, u32), z: nat) -> bool {
    let k = (31 - z) as u32;
    bit_of(bbox.0, k) != bit_of(bbox.2, k) || bit_of(bbox.1, k) != bit_of(bbox.3, k)
}

/// The first zoom from `z` on (below 28) at which the corners part ways,
/// or 28 when they agree on every zoom below 28.
pub open spec fn bbox_zoom_from(bbox: (u32, u32, u32, u32), z: nat) -> nat
    decreases 28 - z,
{
    if z >= 28 {
        28
    } else if corners_split_at(bbox, z) {
        z
    } else {
        bbox_zoom_from(bbox, z + 1)
    }
}

/// The deepest zoom (at most 28) at which both corners of a box, given as
/// 32-bit tile columns and rows `(west, south, east, north)`, still fall in
/// one tile.
pub fn get_bbox_zoom(bbox: (u32, u32, u32, u32)) -> (r: u8)
    ensures
        r == bbox_zoom_from(bbox, 0),
        r <= 28,
{
    let max_zoom: u8 = 28;
    let (west, south, east, north) = bbox;
    let mut z: u8 = 0;
    while z < max_zoom
        invariant
            z <= max_zoom,
            max_zoom == 28,
            bbox == (west, south, east, north),
            bbox_zoom_from(bbox, 0) == bbox_zoom_from(bbox, z as nat),
        decreases max_zoom - z,
    {
        let k: u32 = (32 - (z + 1)) as u32;
        let mask: u32 = 1u32 << k;
        assert(((west & mask) != (east & mask)) == (bit_of(west, k) != bit_of(east, k))) by (bit_vector)
            requires
                k < 32,
                mask == 1u32 << k,
        ;
        assert(((south & mask) != (north & mask)) == (bit_of(south, k) != bit_of(north, k))) by (bit_vector)
            requires
                k < 32,
                mask == 1u32 << k,
        ;
        if (west & mask) != (east & mask) || (south & mask) != (north & mask) {
            return z;
        }
        z = z + 1;
    }
    max_zoom
}

/// The tile of zoom `z` that contains the 32-bit tile corner `(x, y)`.
pub open spec fn corner_tile(x: u32, y: u32, z: nat) -> Tile {
    if z == 0 {
        Tile { x: 0, y: 0, z: 0 }
    } else {
        mk_tile((x as nat / pow2((32 - z) as nat)) as int, (y as nat / pow2((32 - z) as nat)) as int, z as int)
    }
}

/// The zoom found from `s` lies between `s` and 28.
proof fn lemma_bbox_zoom_range(bbox: (u32, u32, u32, u32), s: nat)
    requires
        s <= 28,
    ensures
        s <= bbox_zoom_from(bbox, s) <= 28,
    decreases 28 - s,
{
    if s < 28 && !corners_split_at(bbox, s) {
        lemma_bbox_zoom_range(bbox, s + 1);
    }
}

/// The corners do not part ways at any zoom from `s` up to the zoom
/// `bbox_zoom_from` finds.
proof fn lemma_no_split_before(bbox: (u32, u32, u32, u32), s: nat)
    requires
        s <= bbox_zoom_from(bbox, s),
    ensures
        forall|j: nat| s <= j < bbox_zoom_from(bbox, s) ==> !#[trigger] corners_split_at(bbox, j),
        bbox_zoom_from(bbox, s) < 28 ==> corners_split_at(bbox, bbox_zoom_from(bbox, s)),
    decreases 28 - s,
{
    if s < 28 && !corners_split_at(bbox, s) {
        lemma_bbox_zoom_range(bbox, s + 1);
        lemma_no_split_before(bbox, s + 1);
    }
}

/// Bit `31 - j` of `v`: the `j`-th bit from the top.
pub open spec fn top_bit(v: u32, j: nat) -> u32 {
    bit_of(v, (31 - j) as u32)
}

/// Two words that agree on their top `z` bits agree after shifting out the
/// other `32 - z`.
proof fn lemma_top_bits_agree(a: u32, b: u32, z: nat)
    requires
        1 <= z <= 32,
        forall|j: nat| j < z ==> #[trigger] top_bit(a, j) == top_bit(b, j),
    ensures
        a >> ((32 - z) as u32) == b >> ((32 - z) as u32),
    decreases z,
{
    if z == 1 {
        assert(top_bit(a, 0) == top_bit(b, 0));
        assert(bit_of(a, 31) == bit_of(b, 31));
        assert(bit_of(a, 31) == bit_of(b, 31) ==> a >> 31u32 == b >> 31u32) by (bit_vector);
    } else {
        lemma_top_bits_agree(a, b, (z - 1) as nat);
        let k: u32 = (32 - z) as u32;
        assert(bit_of(a, k) == bit_of(b, k)) by {
            assert(top_bit(a, (z - 1) as nat) == top_bit(b, (z - 1) as nat));
            assert((31 - (z - 1)) as u32 == k);
        }
        assert(k < 31);
        assert(a >> ((k + 1) as u32) == b >> ((k + 1) as u32));
        assert((a >> ((k + 1) as u32) == b >> ((k + 1) as u32) && bit_of(a, k) == bit_of(b, k))
            ==> a >> k == b >> k) by (bit_vector)
            requires
                k < 31,
        ;
    }
}

/// Words whose bit `k` differs differ after shifting out the `k` bits below it.
proof fn lemma_bit_splits(a: u32, b: u32, k: u32)
    requires
        k < 32,
        bit_of(a, k) != bit_of(b, k),
    ensures
        a >> k != b >> k,
{
    assert(bit_of(a, k) != bit_of(b, k) ==> a >> k != b >> k) by (bit_vector)
        requires
            k < 32,
    ;
}

/// The smallest tile that holds both corners of a box, given the zoom-32
/// tiles of its north-west corner `tmin` and of its south-east corner `tmax`.
/// Both corners lie in the result, and below zoom 28 they lie in different
/// tiles one zoom further down.
pub fn bounding_tile_from_corners(tmin: Tile, tmax: Tile) -> (t: Tile)
    ensures
        t == corner_tile(tmin.x, tmin.y, bbox_zoom_from((tmin.x, tmin.y, tmax.x, tmax.y), 0)),
        t == corner_tile(tmax.x, tmax.y, bbox_zoom_from((tmin.x, tmin.y, tmax.x, tmax.y), 0)),
        bbox_zoom_from((tmin.x, tmin.y, tmax.x, tmax.y), 0) < 28 ==> corner_tile(
            tmin.x,
            tmin.y,
            bbox_zoom_from((tmin.x, tmin.y, tmax.x, tmax.y), 0) + 1,
        ) != corner_tile(tmax.x, tmax.y, bbox_zoom_from((tmin.x, tmin.y, tmax.x, tmax.y), 0) + 1),
{
    let ghost bbox = (tmin.x, tmin.y, tmax.x, tmax.y);
    let ghost zz = bbox_zoom_from(bbox, 0);
    proof {
        lemma_bbox_zoom_range(bbox, 0);
        lemma_no_split_before(bbox, 0);
        if zz >= 1 {
            assert forall|j: nat| j < zz implies #[trigger] top_bit(tmin.x, j) == top_bit(tmax.x, j) by {
                assert(!corners_split_at(bbox, j));
            }
            assert forall|j: nat| j < zz implies #[trigger] top_bit(tmin.y, j) == top_bit(tmax.y, j) by {
                assert(!corners_split_at(bbox, j));
            }
            lemma_top_bits_agree(tmin.x, tmax.x, zz);
            lemma_top_bits_agree(tmin.y, tmax.y, zz);
            let k: u32 = (32 - zz) as u32;
            lemma_u32_shr_is_div(tmin.x, k);
            lemma_u32_shr_is_div(tmin.y, k);
            lemma_u32_shr_is_div(tmax.x, k);
            lemma_u32_shr_is_div(tmax.y, k);
        }
        if zz < 28 {
            let k: u32 = (31 - zz) as u32;
            assert(corners_split_at(bbox, zz));
            lemma_u32_shr_is_div(tmin.x, k);
            lemma_u32_shr_is_div(tmin.y, k);
            lemma_u32_shr_is_div(tmax.x, k);
            lemma_u32_shr_is_div(tmax.y, k);
            if bit_of(tmin.x, k) != bit_of(tmax.x, k) {
                lemma_bit_splits(tmin.x, tmax.x, k);
            } else {
                lemma_bit_splits(tmin.y, tmax.y, k);
            }
            assert((32 - (zz + 1)) as nat == k as nat);
        }
    }
    let cell = (tmin.x, tmin.y, tmax.x, tmax.y);
    let z = get_bbox_zoom(cell);
    if z == 0 {
        return Tile::new(0, 0, 0);
    }
    let k: u32 = (32 - z) as u32;
    proof {
        lemma_u32_shr_is_div(cell.0, k);
        lemma_u32_shr_is_div(cell.1, k);
    }
    let x = cell.0 >> k;
    let y = cell.1 >> k;
    Tile::new(x, y, z)
}

} // verus!
