//! PMTiles tile ids: tiles numbered zoom by zoom, and along a Hilbert curve
//! within each zoom.
use crate::tile::{in_grid, Tile};
use vstd::arithmetic::power2::pow2;
use vstd::prelude::*;

verus! {

/// `4^n`.
pub open spec fn pow4(n: nat) -> nat
    decreases n,
{
    if n == 0 {
        1
    } else {
        4 * pow4((n - 1) as nat)
    }
}

/// How many tiles the zooms below `z` hold together: `4^0 + ... + 4^(z-1)`.
pub open spec fn tiles_before(z: nat) -> nat
    decreases z,
{
    if z == 0 {
        0
    } else {
        tiles_before((z - 1) as nat) + pow4((z - 1) as nat)
    }
}

/// The position of cell `(x, y)` along the Hilbert curve of order `order`,
/// as `fast_hilbert::xy2h` computes it.
pub uninterp spec fn hilbert_xy2h(x: u32, y: u32, order: u8) -> u64;

/// The cell at position `h` along the Hilbert curve of order `order`, as
/// `fast_hilbert::h2xy` computes it.
pub uninterp spec fn hilbert_h2xy(h: u64, order: u8) -> (u32, u32);

/// Calls `fast_hilbert::xy2h` on 32-bit coordinates. The result is named
/// `hilbert_xy2h`. The crate describes the pair `xy2h`/`h2xy` as the
/// conversion along the Hilbert curve and back (and tests that round trip),
/// so for a cell of the `order` grid the index is below `4^order` and
/// `h2xy` maps it back to the cell.
///
/// The curves of successive orders nest: `xy2h` reads the coordinates' bit
/// pairs from the most significant down, through its state table from state
/// 0, at an effective order that has the parity of `order` (the `order & 1`
/// term); so the index of the cell's parent `(x / 2, y / 2)` at `order - 1`
/// is the cell's index without its last base-4 digit, `h / 4`. This is
/// claimed for orders 2 to 31. What `xy2h` returns for cells outside the
/// grid is left unsaid.
#[verifier::external_body]
fn hilbert_index(x: u32, y: u32, order: u8) -> (h: u64)
    ensures
        h == hilbert_xy2h(x, y, order),
        order <= 32 && x < pow2(order as nat) && y < pow2(order as nat) ==> h < pow4(order as nat)
            && hilbert_h2xy(h, order) == (x, y),
        2 <= order <= 31 && x < pow2(order as nat) && y < pow2(order as nat) ==> h / 4
            == hilbert_xy2h(x / 2, y / 2, (order - 1) as u8),
{
    fast_hilbert::xy2h(x, y, order)
}

/// Calls `fast_hilbert::h2xy` for 32-bit coordinates. The result is named
/// `hilbert_h2xy`. As the inverse of `xy2h` along the curve, for an index
/// below `4^order` it gives a cell of the `order` grid that `xy2h` maps back
/// to the index. What it returns for larger indices is left unsaid.
#[verifier::external_body]
fn hilbert_cell(h: u64, order: u8) -> (r: (u32, u32))
    ensures
        r == hilbert_h2xy(h, order),
        order <= 32 && h < pow4(order as nat) ==> r.0 < pow2(order as nat) && r.1 < pow2(order as nat)
            && hilbert_xy2h(r.0, r.1, order) == h,
{
    fast_hilbert::h2xy::<u32>(h, order)
}

/// The PMTiles id of `(x, y, z)`: the tiles of all lower zooms, plus the
/// tile's position along the Hilbert curve of its zoom.
pub open spec fn xyz2id_spec(x: u32, y: u32, z: u8) -> int {
    if z == 0 {
        0
    } else {
        tiles_before(z as nat) + hilbert_xy2h(x, y, z)
    }
}

/// The PMTiles id of `(x, y, z)` fits in 64 bits (and the zoom is one the
/// id scheme covers).
pub open spec fn xyz2id_fits(x: u32, y: u32, z: u8) -> bool {
    z == 0 || (z <= 32 && xyz2id_spec(x, y, z) <= u64::MAX)
}

/// A tile of the grid of a zoom the id scheme numbers in 64 bits (0 to 31).
pub open spec fn grid_tile(x: u32, y: u32, z: u8) -> bool {
    z <= 31 && in_grid(x as int, y as int, z as nat)
}

/// The zoom whose id block holds id `i`: the first `z` from `from` on with
/// `i < tiles_before(z + 1)` (32 when there is none below 32).
pub open spec fn id_zoom_from(i: nat, from: nat) -> nat
    decreases 32 - from,
{
    if from >= 32 {
        32
    } else if i < tiles_before(from + 1) {
        from
    } else {
        id_zoom_from(i, from + 1)
    }
}

/// The zoom whose id block holds id `i`.
pub open spec fn id_zoom(i: nat) -> nat {
    id_zoom_from(i, 0)
}

/// The tile that PMTiles id `i` names.
pub open spec fn id2xyz_spec(i: u64) -> (u32, u32, u8) {
    if i == 0 {
        (0, 0, 0)
    } else {
        let z = id_zoom(i as nat);
        let c = hilbert_h2xy((i - tiles_before(z)) as u64, z as u8);
        (c.0, c.1, z as u8)
    }
}

/// The parent id of PMTiles id `i`, read off the id blocks: the offset in
/// the block, divided by four, into the block one zoom up.
pub open spec fn parent_id_spec(i: u64) -> int {
    let z = id_zoom(i as nat);
    if z == 0 {
        (i - tiles_before(0)) / 4
    } else {
        tiles_before((z - 1) as nat) + (i - tiles_before(z)) / 4
    }
}

/// The zooms below `z` hold `(4^z - 1) / 3` tiles together.
pub proof fn lemma_tiles_before_closed_form(z: nat)
    ensures
        3 * tiles_before(z) + 1 == pow4(z),
    decreases z,
{
    if z > 0 {
        lemma_tiles_before_closed_form((z - 1) as nat);
    }
}

proof fn lemma_pow4_pos(n: nat)
    ensures
        pow4(n) >= 1,
    decreases n,
{
    if n > 0 {
        lemma_pow4_pos((n - 1) as nat);
    }
}

proof fn lemma_pow4_is_pow2_double(n: nat)
    ensures
        pow4(n) == pow2(2 * n),
    decreases n,
{
    vstd::arithmetic::power2::lemma2_to64();
    if n > 0 {
        lemma_pow4_is_pow2_double((n - 1) as nat);
        vstd::arithmetic::power2::lemma_pow2_adds(2 * ((n - 1) as nat), 2);
        assert(2 * ((n - 1) as nat) + 2 == 2 * n);
    }
}

proof fn lemma_tiles_before_mono(a: nat, b: nat)
    requires
        a <= b,
    ensures
        tiles_before(a) <= tiles_before(b),
    decreases b - a,
{
    if a < b {
        lemma_tiles_before_mono(a, (b - 1) as nat);
    }
}

proof fn lemma_tiles_before_32()
    ensures
        tiles_before(32) == 0x5555_5555_5555_5555,
        pow4(31) == 0x4000_0000_0000_0000,
{
    lemma_tiles_before_closed_form(32);
    lemma_pow4_is_pow2_double(32);
    lemma_pow4_is_pow2_double(31);
    vstd::arithmetic::power2::lemma2_to64();
}

proof fn lemma_id_zoom_from(i: nat, from: nat)
    requires
        from <= 32,
        tiles_before(from) <= i < tiles_before(32),
    ensures
        from <= id_zoom_from(i, from) < 32,
        tiles_before(id_zoom_from(i, from)) <= i < tiles_before(id_zoom_from(i, from) + 1),
    decreases 32 - from,
{
    if from < 32 && i >= tiles_before(from + 1) {
        lemma_id_zoom_from(i, from + 1);
    }
}

proof fn lemma_id_zoom_unique(i: nat, z: nat)
    requires
        z < 32,
        tiles_before(z) <= i < tiles_before(z + 1),
    ensures
        id_zoom(i) == z,
{
    lemma_id_zoom_step(i, z, 0);
}

proof fn lemma_id_zoom_step(i: nat, z: nat, from: nat)
    requires
        from <= z < 32,
        tiles_before(z) <= i < tiles_before(z + 1),
    ensures
        id_zoom_from(i, from) == z,
    decreases z - from,
{
    if from < z {
        lemma_tiles_before_mono(from + 1, z);
        lemma_id_zoom_step(i, z, from + 1);
    }
}

/// The number of tiles of zoom `z`, `4^z`, for `z < 32`.
fn tiles_at_zoom(z: u8) -> (n: u64)
    requires
        z < 32,
    ensures
        n == pow4(z as nat),
{
    let two_z: u64 = 2 * (z as u64);
    proof {
        vstd::bits::lemma_u64_pow2_no_overflow(two_z as nat);
        vstd::bits::lemma_u64_shl_is_mul(1, two_z);
        lemma_pow4_is_pow2_double(z as nat);
    }
    1u64 << two_z
}

proof fn lemma_pow4_bound(n: nat)
    requires
        n < 32,
    ensures
        pow4(n) <= pow4(31),
        pow4(31) == 0x4000_0000_0000_0000,
    decreases 31 - n,
{
    lemma_tiles_before_32();
    if n < 31 {
        lemma_pow4_bound(n + 1);
    }
}

/// The PMTiles id of `(x, y, z)`.
pub fn xyz2id(x: u32, y: u32, z: u8) -> (id: u64)
    requires
        xyz2id_fits(x, y, z) || grid_tile(x, y, z),
    ensures
        id == xyz2id_spec(x, y, z),
        grid_tile(x, y, z) ==> xyz2id_fits(x, y, z) && tiles_before(z as nat) <= id < tiles_before(
            (z + 1) as nat,
        ) && id < tiles_before(32) && id2xyz_spec(id) == (x, y, z),
        grid_tile(x, y, z) && z >= 1 ==> parent_id_spec(id) == xyz2id_spec(
            x / 2,
            y / 2,
            (z - 1) as u8,
        ),
{
    if z == 0 {
        proof {
            lemma_tiles_before_32();
            vstd::arithmetic::power2::lemma2_to64();
            reveal_with_fuel(tiles_before, 2);
        }
        return 0;
    }
    let mut base_id: u64 = 1;
    let mut p: u64 = 1;
    let mut i: u8 = 1;
    proof {
        reveal_with_fuel(tiles_before, 2);
        lemma_tiles_before_32();
    }
    while i < z
        invariant
            1 <= i <= z <= 32,
            p == pow4((i - 1) as nat),
            base_id == tiles_before(i as nat),
        decreases z - i,
    {
        proof {
            lemma_pow4_bound((i - 1) as nat);
            lemma_tiles_before_mono((i + 1) as nat, 32);
            lemma_tiles_before_32();
        }
        p = p * 4;
        base_id = base_id + p;
        i = i + 1;
    }
    let h = hilbert_index(x, y, z);
    proof {
        if grid_tile(x, y, z) {
            let id: nat = tiles_before(z as nat) + h as nat;
            lemma_tiles_before_mono((z + 1) as nat, 32);
            lemma_tiles_before_32();
            lemma_id_zoom_unique(id, z as nat);
            lemma_parent_id_of_offset(z as nat, h as nat);
            if z == 1 {
                reveal_with_fuel(pow4, 2);
                reveal_with_fuel(tiles_before, 2);
            }
        }
    }
    base_id + h
}

/// The PMTiles id of `(x, y, z)`, given zoom first.
pub fn zxy2id(z: u8, x: u32, y: u32) -> (id: u64)
    requires
        xyz2id_fits(x, y, z) || grid_tile(x, y, z),
    ensures
        id == xyz2id_spec(x, y, z),
        grid_tile(x, y, z) ==> xyz2id_fits(x, y, z) && tiles_before(z as nat) <= id < tiles_before(
            (z + 1) as nat,
        ) && id < tiles_before(32) && id2xyz_spec(id) == (x, y, z),
        grid_tile(x, y, z) && z >= 1 ==> parent_id_spec(id) == xyz2id_spec(
            x / 2,
            y / 2,
            (z - 1) as u8,
        ),
{
    xyz2id(x, y, z)
}

/// The PMTiles id of `(x, y, z)`, or `None` when the zoom is past 32 or the
/// id does not fit in 64 bits.
pub fn checked_xyz2id(x: u32, y: u32, z: u8) -> (r: Option<u64>)
    ensures
        r matches Some(id) ==> xyz2id_fits(x, y, z) && id == xyz2id_spec(x, y, z),
        r is None ==> !xyz2id_fits(x, y, z),
        grid_tile(x, y, z) ==> r is Some,
{
    if z == 0 {
        return Some(zxy2id(z, x, y));
    }
    if z > 32 {
        return None;
    }
    let mut base_id: u64 = 1;
    let mut p: u64 = 1;
    let mut i: u8 = 1;
    proof {
        reveal_with_fuel(tiles_before, 2);
        lemma_tiles_before_32();
    }
    while i < z
        invariant
            1 <= i <= z <= 32,
            p == pow4((i - 1) as nat),
            base_id == tiles_before(i as nat),
        decreases z - i,
    {
        proof {
            lemma_pow4_bound((i - 1) as nat);
            lemma_tiles_before_mono((i + 1) as nat, 32);
            lemma_tiles_before_32();
        }
        p = p * 4;
        base_id = base_id + p;
        i = i + 1;
    }
    let h = hilbert_index(x, y, z);
    proof {
        if grid_tile(x, y, z) {
            lemma_tiles_before_mono((z + 1) as nat, 32);
            lemma_tiles_before_32();
            assert(base_id + h < tiles_before((z + 1) as nat));
        }
    }
    match base_id.checked_add(h) {
        Some(_) => Some(zxy2id(z, x, y)),
        None => None,
    }
}

/// The zoom of id `i` and the offset of `i` in that zoom's id block.
pub fn calculate_h_o(i: u64) -> (r: (u64, u8))
    requires
        i < tiles_before(32),
    ensures
        r.1 == id_zoom(i as nat),
        r.0 == i - tiles_before(id_zoom(i as nat)),
        r.1 < 32,
        r.0 < pow4(r.1 as nat),
{
    proof {
        lemma_id_zoom_from(i as nat, 0);
    }
    if i == 0 {
        proof {
            reveal_with_fuel(tiles_before, 2);
            reveal_with_fuel(id_zoom_from, 2);
        }
        return (0, 0);
    }
    let mut acc: u64 = 0;
    let mut z: u8 = 0;
    loop
        invariant
            z < 32,
            i < tiles_before(32),
            acc == tiles_before(z as nat),
            acc <= i,
            id_zoom(i as nat) == id_zoom_from(i as nat, z as nat),
        decreases 32 - z,
    {
        let num_tiles: u64 = tiles_at_zoom(z);
        proof {
            lemma_tiles_before_mono((z + 1) as nat, 32);
            lemma_tiles_before_32();
        }
        if acc + num_tiles > i {
            return (i - acc, z);
        }
        acc += num_tiles;
        z += 1;
        if z == 32 {
            proof {
                assert(false);
            }
        }
    }
}

/// The tile that PMTiles id `i` names.
pub fn id2xyz(i: u64) -> (r: (u32, u32, u8))
    requires
        i < tiles_before(32),
    ensures
        r == id2xyz_spec(i),
        r.2 < 32,
        in_grid(r.0 as int, r.1 as int, r.2 as nat),
        xyz2id_fits(r.0, r.1, r.2),
        xyz2id_spec(r.0, r.1, r.2) == i,
{
    if i == 0 {
        proof {
            vstd::arithmetic::power2::lemma2_to64();
        }
        return (0, 0, 0);
    }
    let (i_o, z) = calculate_h_o(i);
    let (x, y) = hilbert_cell(i_o, z);
    proof {
        if z == 0 {
            reveal_with_fuel(tiles_before, 2);
            assert(i < 1);
        }
    }
    (x, y, z)
}

/// The tile that PMTiles id `i` names, as `(z, x, y)`.
pub fn id2zxy(i: u64) -> (r: (u8, u32, u32))
    requires
        i < tiles_before(32),
    ensures
        (r.1, r.2, r.0) == id2xyz_spec(i),
        r.0 < 32,
        grid_tile(r.1, r.2, r.0),
        xyz2id_fits(r.1, r.2, r.0),
        xyz2id_spec(r.1, r.2, r.0) == i,
{
    let (x, y, z) = id2xyz(i);
    (z, x, y)
}

/// The PMTiles id of the parent of the tile with id `i`, computed from the
/// id blocks without going through the tile.
pub fn parent_id(i: u64) -> (r: u64)
    requires
        i < tiles_before(32),
    ensures
        r == parent_id_spec(i),
{
    proof {
        lemma_id_zoom_from(i as nat, 0);
    }
    let mut acc: u64 = 0;
    let mut last_acc: u64 = 0;
    let mut z: u8 = 0;
    loop
        invariant
            z < 32,
            i < tiles_before(32),
            acc == tiles_before(z as nat),
            z == 0 ==> last_acc == 0,
            z > 0 ==> last_acc == tiles_before((z - 1) as nat),
            acc <= i,
            id_zoom(i as nat) == id_zoom_from(i as nat, z as nat),
        decreases 32 - z,
    {
        let num_tiles: u64 = tiles_at_zoom(z);
        proof {
            lemma_tiles_before_mono((z + 1) as nat, 32);
            lemma_tiles_before_32();
        }
        if acc + num_tiles > i {
            return last_acc + (i - acc) / 4;
        }
        last_acc = acc;
        acc += num_tiles;
        z += 1;
        if z == 32 {
            proof {
                assert(false);
            }
        }
    }
}

/// The parent id of a tile id is the id one zoom up whose offset is the
/// tile's offset divided by four.
pub proof fn lemma_parent_id_of_offset(z: nat, h: nat)
    requires
        1 <= z < 32,
        h < pow4(z),
    ensures
        tiles_before(z) + h < tiles_before(32),
        parent_id_spec((tiles_before(z) + h) as u64) == tiles_before((z - 1) as nat) + h / 4,
        h / 4 < pow4((z - 1) as nat),
{
    lemma_tiles_before_mono(z + 1, 32);
    lemma_tiles_before_32();
    lemma_id_zoom_unique(tiles_before(z) + h, z);
}

impl Tile {
    /// The tile's PMTiles id.
    pub fn pmtileid(&self) -> (id: u64)
        requires
            xyz2id_fits(self.x, self.y, self.z) || grid_tile(self.x, self.y, self.z),
        ensures
            id == xyz2id_spec(self.x, self.y, self.z),
            grid_tile(self.x, self.y, self.z) ==> xyz2id_fits(self.x, self.y, self.z) && id
                < tiles_before(32) && id2xyz_spec(id) == (self.x, self.y, self.z),
            grid_tile(self.x, self.y, self.z) && self.z >= 1 ==> parent_id_spec(id) == xyz2id_spec(
                self.x / 2,
                self.y / 2,
                (self.z - 1) as u8,
            ),
    {
        xyz2id(self.x, self.y, self.z)
    }

    /// The tile's PMTiles id, or `None` when it does not fit in 64 bits.
    pub fn checked_pmtileid(&self) -> (r: Option<u64>)
        ensures
            r matches Some(id) ==> xyz2id_fits(self.x, self.y, self.z) && id == xyz2id_spec(
                self.x,
                self.y,
                self.z,
            ),
            r is None ==> !xyz2id_fits(self.x, self.y, self.z),
            grid_tile(self.x, self.y, self.z) ==> (r matches Some(id) && id < tiles_before(32)
                && id2xyz_spec(id) == (self.x, self.y, self.z)),
    {
        match checked_xyz2id(self.x, self.y, self.z) {
            Some(_) => Some(self.pmtileid()),
            None => None,
        }
    }

    /// The tile that PMTiles id `id` names.
    pub fn from_pmtileid(id: u64) -> (t: Tile)
        requires
            id < tiles_before(32),
        ensures
            (t.x, t.y, t.z) == id2xyz_spec(id),
            t.z < 32,
            grid_tile(t.x, t.y, t.z),
            xyz2id_fits(t.x, t.y, t.z),
            xyz2id_spec(t.x, t.y, t.z) == id,
    {
        let (x, y, z) = id2xyz(id);
        Tile::new(x, y, z)
    }

    /// The PMTiles id of the tile's parent, computed from the tile's own id.
    pub fn parent_id(&self) -> (r: u64)
        requires
            (xyz2id_fits(self.x, self.y, self.z) && xyz2id_spec(self.x, self.y, self.z) < tiles_before(
                32,
            )) || grid_tile(self.x, self.y, self.z),
        ensures
            r == parent_id_spec(xyz2id_spec(self.x, self.y, self.z) as u64),
            grid_tile(self.x, self.y, self.z) && self.z >= 1 ==> r == xyz2id_spec(
                self.x / 2,
                self.y / 2,
                (self.z - 1) as u8,
            ),
    {
        parent_id(xyz2id(self.x, self.y, self.z))
    }

    /// The PMTiles id of the tile's parent, or `None` when the tile's own id
    /// does not fit in 64 bits or lies past the ids that zooms 0 to 31 use.
    pub fn checked_parent_id(&self) -> (r: Option<u64>)
        ensures
            r matches Some(p) ==> xyz2id_fits(self.x, self.y, self.z) && xyz2id_spec(self.x, self.y, self.z)
                < tiles_before(32) && p == parent_id_spec(xyz2id_spec(self.x, self.y, self.z) as u64),
            r is None ==> !(xyz2id_fits(self.x, self.y, self.z) && xyz2id_spec(self.x, self.y, self.z)
                < tiles_before(32)),
            grid_tile(self.x, self.y, self.z) ==> r is Some,
    {
        match self.checked_pmtileid() {
            Some(id) => {
                proof {
                    lemma_tiles_before_32();
                }
                if id < 0x5555_5555_5555_5555 {
                    Some(self.parent_id())
                } else {
                    None
                }
            },
            None => None,
        }
    }
}

} // verus!
