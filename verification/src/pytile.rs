//! The tile as the Python module presents it: a three-member sequence
//! `(x, y, z)` with Python's indexing and comparison rules.
use crate::children::{children_fit, descent, level};
use crate::decimal::{decimal, push_decimal};
use crate::pmtiles::{
    grid_tile, id2xyz_spec, parent_id_spec, tiles_before, xyz2id_fits, xyz2id_spec,
};
use crate::quadkey::quadkey_spec;
use crate::tile::{
    ancestor, flipy, neighbors_spec, parent_levels, siblings_spec, Tile,
};
use vstd::arithmetic::power2::pow2;
use vstd::prelude::*;
use vstd::string::StringExecFns;

verus! {

broadcast use vstd::string::group_string_axioms;

/// A tile as a Python sequence `(x, y, z)`.
#[derive(Debug, Clone, Copy, PartialEq, Eq, Hash, Structural)]
pub struct PyTile {
    pub xyz: Tile,
}

/// One member, or the members a slice picked.
#[derive(Debug, Clone, PartialEq, Eq)]
pub enum TupleSliceResult<T> {
    It(T),
    Slice(Vec<T>),
}

/// A Python index: a plain integer, or a slice already resolved against a
/// length of three into `(start, stop, step)`.
#[derive(Debug, Clone, Copy, PartialEq, Eq, Structural)]
pub enum SliceOrInt {
    Slice(isize, isize, isize),
    Int(isize),
}

/// The comparison that Python asks for.
#[derive(Debug, Clone, Copy, PartialEq, Eq, Structural)]
pub enum CompareOp {
    Lt,
    Le,
    Eq,
    Ne,
    Gt,
    Ge,
}

/// The members `(x, y, z)` as a sequence.
pub open spec fn members_spec(t: Tile) -> Seq<u32> {
    seq![t.x, t.y, t.z as u32]
}

/// The member at a Python index in `-3..3` (negative indices count from the end).
pub open spec fn member_at(t: Tile, idx: int) -> u32 {
    members_spec(t)[if idx < 0 { idx + 3 } else { idx }]
}

/// The members at `start, start + step, ...` below `stop`.
pub open spec fn slice_spec(t: Tile, start: int, stop: int, step: int) -> Seq<u32> {
    Seq::new(
        (if stop > start { (stop - start + step - 1) / step } else { 0int }) as nat,
        |k: int| members_spec(t)[start + k * step],
    )
}

/// What a comparison gives. Against a tile's members `b` (`Some`), every
/// operator compares member by member: `Eq` when all are equal, `Ne` when
/// any differs, and `Lt`, `Le`, `Gt`, `Ge` when the relation holds for every
/// member. Against anything else (`None`), `Eq` is false, `Ne` is true and
/// the ordering operators are not offered (`None`).
pub open spec fn richcmp_spec(a: (u32, u32, u8), b: Option<(u32, u32, u8)>, op: CompareOp) -> Option<
    bool,
> {
    match b {
        Some(b) => match op {
            CompareOp::Lt => Some(a.0 < b.0 && a.1 < b.1 && a.2 < b.2),
            CompareOp::Le => Some(a.0 <= b.0 && a.1 <= b.1 && a.2 <= b.2),
            CompareOp::Eq => Some(a.0 == b.0 && a.1 == b.1 && a.2 == b.2),
            CompareOp::Ne => Some(a.0 != b.0 || a.1 != b.1 || a.2 != b.2),
            CompareOp::Gt => Some(a.0 > b.0 && a.1 > b.1 && a.2 > b.2),
            CompareOp::Ge => Some(a.0 >= b.0 && a.1 >= b.1 && a.2 >= b.2),
        },
        None => match op {
            CompareOp::Eq => Some(false),
            CompareOp::Ne => Some(true),
            _ => None,
        },
    }
}

/// `[x, y, z]`, in decimal.
pub open spec fn json_arr_text(t: Tile) -> Seq<char> {
    seq!['['] + decimal(t.x as nat) + seq![',', ' '] + decimal(t.y as nat) + seq![',', ' ']
        + decimal(t.z as nat) + seq![']']
}

/// `Tile(x=.., y=.., z=..)`, in decimal.
pub open spec fn repr_text(t: Tile) -> Seq<char> {
    "Tile(x="@ + decimal(t.x as nat) + ", y="@ + decimal(t.y as nat) + ", z="@ + decimal(
        t.z as nat,
    ) + ")"@
}

impl From<Tile> for PyTile {
    fn from(xyz: Tile) -> (r: Self) {
        PyTile { xyz }
    }
}

impl vstd::std_specs::convert::FromSpecImpl<Tile> for PyTile {
    open spec fn obeys_from_spec() -> bool {
        true
    }

    open spec fn from_spec(xyz: Tile) -> Self {
        PyTile { xyz }
    }
}

impl From<PyTile> for Tile {
    fn from(val: PyTile) -> (r: Self) {
        val.xyz
    }
}

impl vstd::std_specs::convert::FromSpecImpl<PyTile> for Tile {
    open spec fn obeys_from_spec() -> bool {
        true
    }

    open spec fn from_spec(val: PyTile) -> Self {
        val.xyz
    }
}

impl From<(u32, u32, u8)> for PyTile {
    fn from(t: (u32, u32, u8)) -> (r: Self) {
        PyTile { xyz: Tile { x: t.0, y: t.1, z: t.2 } }
    }
}

impl vstd::std_specs::convert::FromSpecImpl<(u32, u32, u8)> for PyTile {
    open spec fn obeys_from_spec() -> bool {
        true
    }

    open spec fn from_spec(t: (u32, u32, u8)) -> Self {
        PyTile { xyz: Tile { x: t.0, y: t.1, z: t.2 } }
    }
}

impl From<(u32, u32, u32)> for PyTile {
    fn from(t: (u32, u32, u32)) -> (r: Self) {
        PyTile { xyz: Tile { x: t.0, y: t.1, z: t.2 as u8 } }
    }
}

impl vstd::std_specs::convert::FromSpecImpl<(u32, u32, u32)> for PyTile {
    open spec fn obeys_from_spec() -> bool {
        true
    }

    /// The zoom keeps the low byte of the third member.
    open spec fn from_spec(t: (u32, u32, u32)) -> Self {
        PyTile { xyz: Tile { x: t.0, y: t.1, z: t.2 as u8 } }
    }
}

impl PyTile {
    /// The tile `(x, y, z)`.
    pub fn new(x: u32, y: u32, z: u8) -> (r: Self)
        ensures
            r.xyz == (Tile { x, y, z }),
    {
        PyTile { xyz: Tile::new(x, y, z) }
    }

    /// Whether the tile lies inside the grid of its zoom.
    pub fn valid(&self) -> (r: bool)
        requires
            self.xyz.z < 32,
        ensures
            r == (self.xyz.x < pow2(self.xyz.z as nat) && self.xyz.y < pow2(self.xyz.z as nat)),
    {
        self.xyz.valid()
    }

    /// The column.
    pub fn x(&self) -> (r: u32)
        ensures
            r == self.xyz.x,
    {
        self.xyz.x
    }

    /// The row.
    pub fn y(&self) -> (r: u32)
        ensures
            r == self.xyz.y,
    {
        self.xyz.y
    }

    /// The zoom.
    pub fn z(&self) -> (r: u8)
        ensures
            r == self.xyz.z,
    {
        self.xyz.z
    }

    /// The members as a JSON array, `[x, y, z]`.
    pub fn json_arr(&self) -> (r: String)
        ensures
            r@ == json_arr_text(self.xyz),
    {
        let mut s = String::new();
        proof {
            reveal_strlit("[");
            reveal_strlit(", ");
            reveal_strlit("]");
        }
        s.append("[");
        push_decimal(&mut s, self.xyz.x as u64);
        s.append(", ");
        push_decimal(&mut s, self.xyz.y as u64);
        s.append(", ");
        push_decimal(&mut s, self.xyz.z as u64);
        s.append("]");
        assert(s@ =~= json_arr_text(self.xyz));
        s
    }

    /// `Tile(x=.., y=.., z=..)`.
    pub fn __repr__(&self) -> (r: String)
        ensures
            r@ == repr_text(self.xyz),
    {
        let mut s = String::from_str("Tile(x=");
        push_decimal(&mut s, self.xyz.x as u64);
        s.append(", y=");
        push_decimal(&mut s, self.xyz.y as u64);
        s.append(", z=");
        push_decimal(&mut s, self.xyz.z as u64);
        s.append(")");
        assert(s@ =~= repr_text(self.xyz));
        s
    }

    /// Same as `__repr__`.
    pub fn __str__(&self) -> (r: String)
        ensures
            r@ == repr_text(self.xyz),
    {
        self.__repr__()
    }

    /// The tile's `z/x/y` path.
    pub fn fmt_zxy(&self) -> (r: String)
        ensures
            r@ == crate::tile_text::zxy_text(self.xyz),
    {
        self.xyz.fmt_zxy()
    }

    /// The tile's `z/x/y.ext` path.
    pub fn fmt_zxy_ext(&self, ext: &str) -> (r: String)
        ensures
            r@ == crate::tile_text::zxy_text(self.xyz) + seq!['.'] + ext@,
    {
        self.xyz.fmt_zxy_ext(ext)
    }

    /// The tile's quadkey.
    pub fn quadkey(&self) -> (r: String)
        requires
            self.xyz.z <= 32,
        ensures
            r@ == quadkey_spec(self.xyz.x, self.xyz.y, self.xyz.z as nat),
    {
        self.xyz.quadkey()
    }

    /// The tile's quadkey.
    pub fn qk(&self) -> (r: String)
        requires
            self.xyz.z <= 32,
        ensures
            r@ == quadkey_spec(self.xyz.x, self.xyz.y, self.xyz.z as nat),
    {
        self.xyz.quadkey()
    }

    /// The tile's PMTiles id.
    pub fn pmtileid(&self) -> (r: u64)
        requires
            xyz2id_fits(self.xyz.x, self.xyz.y, self.xyz.z) || grid_tile(self.xyz.x, self.xyz.y, self.xyz.z),
        ensures
            r == xyz2id_spec(self.xyz.x, self.xyz.y, self.xyz.z),
            grid_tile(self.xyz.x, self.xyz.y, self.xyz.z) ==> id2xyz_spec(r) == (
                self.xyz.x,
                self.xyz.y,
                self.xyz.z,
            ),
    {
        self.xyz.pmtileid()
    }

    /// The tile that PMTiles id `id` names.
    pub fn from_pmtileid(id: u64) -> (r: Self)
        requires
            id < tiles_before(32),
        ensures
            (r.xyz.x, r.xyz.y, r.xyz.z) == id2xyz_spec(id),
    {
        PyTile { xyz: Tile::from_pmtileid(id) }
    }

    /// The PMTiles id of the tile's parent, computed from the tile's id.
    pub fn parent_pmtileid(&self) -> (r: u64)
        requires
            (xyz2id_fits(self.xyz.x, self.xyz.y, self.xyz.z) && xyz2id_spec(self.xyz.x, self.xyz.y, self.xyz.z)
                < tiles_before(32)) || grid_tile(self.xyz.x, self.xyz.y, self.xyz.z),
        ensures
            r == parent_id_spec(xyz2id_spec(self.xyz.x, self.xyz.y, self.xyz.z) as u64),
    {
        self.xyz.parent_id()
    }

    /// The same tile with its row counted from the bottom.
    pub fn __invert__(&self) -> (r: Self)
        requires
            self.xyz.z < 32,
            self.xyz.y < pow2(self.xyz.z as nat),
        ensures
            r.xyz == (Tile {
                x: self.xyz.x,
                y: (pow2(self.xyz.z as nat) - 1 - self.xyz.y) as u32,
                z: self.xyz.z,
            }),
    {
        let y = flipy(self.xyz.y, self.xyz.z);
        PyTile { xyz: Tile::new(self.xyz.x, y, self.xyz.z) }
    }

    /// The same tile with its row counted from the bottom.
    pub fn flipy(&self) -> (r: Self)
        requires
            self.xyz.z < 32,
            self.xyz.y < pow2(self.xyz.z as nat),
        ensures
            r.xyz == (Tile {
                x: self.xyz.x,
                y: (pow2(self.xyz.z as nat) - 1 - self.xyz.y) as u32,
                z: self.xyz.z,
            }),
    {
        self.__invert__()
    }

    /// A tile has three members.
    pub fn __len__(&self) -> (r: usize)
        ensures
            r == 3,
    {
        3
    }

    /// The members `[x, y, z]`.
    pub fn members(&self) -> (r: Vec<u32>)
        ensures
            r@ == members_spec(self.xyz),
    {
        vec![self.xyz.x, self.xyz.y, self.xyz.z as u32]
    }

    /// The member at a Python index, or `None` at index 3, where iteration
    /// stops. Indices `-3..=-1` count from the end.
    pub fn getitem_int(&self, idx: isize) -> (r: Option<u32>)
        requires
            -3 <= idx <= 3,
        ensures
            idx == 3 ==> r is None,
            idx < 3 ==> r == Some(member_at(self.xyz, idx as int)),
    {
        if idx == 0 {
            Some(self.xyz.x)
        } else if idx == 1 {
            Some(self.xyz.y)
        } else if idx == 2 {
            Some(self.xyz.z as u32)
        } else if idx == -1 {
            Some(self.xyz.z as u32)
        } else if idx == -2 {
            Some(self.xyz.y)
        } else if idx == -3 {
            Some(self.xyz.x)
        } else {
            None
        }
    }

    /// The members at `start, start + step, ...` below `stop`.
    pub fn getitem_slice(&self, start: isize, stop: isize, step: isize) -> (r: Vec<u32>)
        requires
            0 <= start <= stop <= 3,
            step >= 1,
        ensures
            r@ == slice_spec(self.xyz, start as int, stop as int, step as int),
    {
        let m = self.members();
        let mut out: Vec<u32> = Vec::new();
        let mut i: usize = start as usize;
        let ghost mut k: int = 0;
        while i < stop as usize
            invariant
                m@ == members_spec(self.xyz),
                0 <= start <= stop <= 3,
                step >= 1,
                k >= 0,
                i == start + k * step,
                out@.len() == k,
                forall|j: int| 0 <= j < k ==> out@[j] == #[trigger] members_spec(self.xyz)[start + j * step],
                k * step < stop - start + step,
            decreases stop - i + step,
        {
            out.push(m[i]);
            proof {
                assert((k + 1) * step == k * step + step) by (nonlinear_arith);
                k = k + 1;
            }
            i = i + step as usize;
        }
        proof {
            let n = if stop > start { (stop - start + step - 1) / (step as int) } else { 0int };
            let s = stop - start;
            if s > 0 {
                assert(k * step >= s);
                assert((k - 1) * step < s) by (nonlinear_arith)
                    requires
                        k >= 1 || s <= 0,
                        k * step - step < s,
                        step >= 1,
                ;
                assert(n == k) by (nonlinear_arith)
                    requires
                        n == (s + step - 1) / (step as int),
                        k * step >= s,
                        k * step - step < s,
                        step >= 1,
                        s > 0,
                        k >= 0,
                ;
            } else {
                assert(k == 0) by (nonlinear_arith)
                    requires
                        k * step < s + step,
                        s <= 0,
                        step >= 1,
                        k >= 0,
                ;
            }
            assert(out@ =~= slice_spec(self.xyz, start as int, stop as int, step as int));
        }
        out
    }

    /// Python's `tile[idx]`: a member for an integer index (`None` at index
    /// 3, where iteration stops), or the picked members for a slice.
    pub fn __getitem__(&self, idx: SliceOrInt) -> (r: Option<TupleSliceResult<u32>>)
        requires
            match idx {
                SliceOrInt::Int(i) => -3 <= i <= 3,
                SliceOrInt::Slice(start, stop, step) => 0 <= start <= stop <= 3 && step >= 1,
            },
        ensures
            match idx {
                SliceOrInt::Int(i) => if i == 3 {
                    r is None
                } else {
                    r == Some(TupleSliceResult::It(member_at(self.xyz, i as int)))
                },
                SliceOrInt::Slice(start, stop, step) => r matches Some(TupleSliceResult::Slice(v))
                    && v@ == slice_spec(self.xyz, start as int, stop as int, step as int),
            },
    {
        match idx {
            SliceOrInt::Int(i) => match self.getitem_int(i) {
                Some(v) => Some(TupleSliceResult::It(v)),
                None => None,
            },
            SliceOrInt::Slice(start, stop, step) => {
                Some(TupleSliceResult::Slice(self.getitem_slice(start, stop, step)))
            },
        }
    }

    /// Whether the two tiles have the same members.
    pub fn __eq__(&self, other: &Self) -> (r: bool)
        ensures
            r == (self.xyz == other.xyz),
    {
        self.xyz.x == other.xyz.x && self.xyz.y == other.xyz.y && self.xyz.z == other.xyz.z
    }

    /// Python's rich comparison against a tile given by its members (see
    /// `richcmp_spec`), or against something that is not a tile (`None`);
    /// the result is `None` where the operator is not offered.
    pub fn __richcmp__(&self, other: Option<(u32, u32, u8)>, op: CompareOp) -> (r: Option<bool>)
        ensures
            r == richcmp_spec((self.xyz.x, self.xyz.y, self.xyz.z), other, op),
    {
        match other {
            Some((x, y, z)) => match op {
                CompareOp::Lt => Some(self.xyz.x < x && self.xyz.y < y && self.xyz.z < z),
                CompareOp::Le => Some(self.xyz.x <= x && self.xyz.y <= y && self.xyz.z <= z),
                CompareOp::Eq => Some(self.xyz.x == x && self.xyz.y == y && self.xyz.z == z),
                CompareOp::Ne => Some(self.xyz.x != x || self.xyz.y != y || self.xyz.z != z),
                CompareOp::Gt => Some(self.xyz.x > x && self.xyz.y > y && self.xyz.z > z),
                CompareOp::Ge => Some(self.xyz.x >= x && self.xyz.y >= y && self.xyz.z >= z),
            },
            None => match op {
                CompareOp::Eq => Some(false),
                CompareOp::Ne => Some(true),
                _ => None,
            },
        }
    }

    /// The ancestor `n + 1` levels up (one level when `n` is `None`).
    pub fn parent(&self, n: Option<u8>) -> (r: Self)
        requires
            self.xyz.z >= parent_levels(n),
        ensures
            r.xyz == ancestor(self.xyz.x, self.xyz.y, self.xyz.z, parent_levels(n)),
    {
        PyTile { xyz: self.xyz.parent(n) }
    }

    /// The descendants at `zoom` (one level down when `zoom` is `None`).
    pub fn children(&self, zoom: Option<u8>) -> (r: Vec<Self>)
        requires
            self.xyz.z < 255,
            children_fit(self.xyz.x, self.xyz.y, descent(self.xyz.z, zoom)),
        ensures
            r@ == level(self.xyz, descent(self.xyz.z, zoom)).map_values(|t: Tile| PyTile { xyz: t }),
    {
        let kids = self.xyz.children(zoom);
        wrap_all(&kids)
    }

    /// The other three children of this tile's parent.
    pub fn siblings(&self) -> (r: Vec<Self>)
        ensures
            r@ == siblings_spec(self.xyz.x, self.xyz.y, self.xyz.z).map_values(|t: Tile| PyTile { xyz: t }),
    {
        let s = self.xyz.siblings();
        wrap_all(&s)
    }

    /// The neighbouring tiles.
    pub fn neighbors(&self) -> (r: Vec<Self>)
        requires
            self.xyz.z == 0 || (self.xyz.z < 32 && self.xyz.x < u32::MAX && self.xyz.y < u32::MAX),
        ensures
            r@ == neighbors_spec(self.xyz.x, self.xyz.y, self.xyz.z).map_values(|t: Tile| PyTile { xyz: t }),
    {
        let n = self.xyz.neighbors();
        wrap_all(&n)
    }

    /// The members as a tuple.
    pub fn tuple(&self) -> (r: (u32, u32, u8))
        ensures
            r == (self.xyz.x, self.xyz.y, self.xyz.z),
    {
        (self.xyz.x, self.xyz.y, self.xyz.z)
    }
}

/// Each tile, as a `PyTile`.
fn wrap_all(tiles: &Vec<Tile>) -> (r: Vec<PyTile>)
    ensures
        r@ == tiles@.map_values(|t: Tile| PyTile { xyz: t }),
{
    let mut out: Vec<PyTile> = Vec::new();
    let mut i: usize = 0;
    while i < tiles.len()
        invariant
            i <= tiles@.len(),
            out@ == tiles@.take(i as int).map_values(|t: Tile| PyTile { xyz: t }),
        decreases tiles.len() - i,
    {
        out.push(PyTile { xyz: tiles[i] });
        i = i + 1;
        assert(out@ =~= tiles@.take(i as int).map_values(|t: Tile| PyTile { xyz: t }));
    }
    assert(tiles@.take(i as int) =~= tiles@);
    out
}

/// How the comparisons of a tile with a tile's members relate. Against a
/// tile, every operator answers; `==` is equality of all members and `!=`
/// its negation; `<` and `<=` are the mirrors of `>` and `>=`; `<=` is
/// reflexive and antisymmetric, `<` irreflexive, and `<` holds exactly
/// where `<=` holds with every member different, so no member may be equal
/// under `<`. Against anything else, `==` is false, `!=` true, and no
/// ordering is offered.
pub proof fn lemma_richcmp_relations(a: (u32, u32, u8), b: (u32, u32, u8))
    ensures
        forall|op: CompareOp| #[trigger] richcmp_spec(a, Some(b), op) is Some,
        richcmp_spec(a, Some(b), CompareOp::Eq) == Some(a == b),
        richcmp_spec(a, Some(b), CompareOp::Ne) == Some(a != b),
        richcmp_spec(a, Some(b), CompareOp::Lt) == richcmp_spec(b, Some(a), CompareOp::Gt),
        richcmp_spec(a, Some(b), CompareOp::Le) == richcmp_spec(b, Some(a), CompareOp::Ge),
        richcmp_spec(a, Some(a), CompareOp::Le) == Some(true),
        richcmp_spec(a, Some(a), CompareOp::Lt) == Some(false),
        richcmp_spec(a, Some(b), CompareOp::Le) == Some(true) && richcmp_spec(b, Some(a), CompareOp::Le)
            == Some(true) ==> a == b,
        richcmp_spec(a, Some(b), CompareOp::Lt) == Some(true) <==> (richcmp_spec(
            a,
            Some(b),
            CompareOp::Le,
        ) == Some(true) && a.0 != b.0 && a.1 != b.1 && a.2 != b.2),
        richcmp_spec(a, None, CompareOp::Eq) == Some(false),
        richcmp_spec(a, None, CompareOp::Ne) == Some(true),
        forall|op: CompareOp|
            op != CompareOp::Eq && op != CompareOp::Ne ==> #[trigger] richcmp_spec(a, None, op) is None,
{
}

/// The orderings chain: `<=` and `<` are transitive, and `<` followed by
/// `<=` (or `<=` by `<`) is `<`.
pub proof fn lemma_richcmp_transitive(a: (u32, u32, u8), b: (u32, u32, u8), c: (u32, u32, u8))
    ensures
        richcmp_spec(a, Some(b), CompareOp::Le) == Some(true) && richcmp_spec(b, Some(c), CompareOp::Le)
            == Some(true) ==> richcmp_spec(a, Some(c), CompareOp::Le) == Some(true),
        richcmp_spec(a, Some(b), CompareOp::Lt) == Some(true) && richcmp_spec(b, Some(c), CompareOp::Le)
            == Some(true) ==> richcmp_spec(a, Some(c), CompareOp::Lt) == Some(true),
        richcmp_spec(a, Some(b), CompareOp::Le) == Some(true) && richcmp_spec(b, Some(c), CompareOp::Lt)
            == Some(true) ==> richcmp_spec(a, Some(c), CompareOp::Lt) == Some(true),
{
}

} // verus!
