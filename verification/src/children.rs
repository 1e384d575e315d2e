//! The descendants of a tile at a deeper zoom.
use crate::pmtiles::pow4;
use crate::tile::{ancestor, mk_tile, siblings_spec, Tile};
use vstd::arithmetic::div_mod::{lemma_div_denominator, lemma_fundamental_div_mod};
use vstd::arithmetic::power2::{lemma_pow2_adds, lemma_pow2_pos, lemma_pow2_strictly_increases, lemma2_to64, pow2};
use vstd::prelude::*;

verus! {

/// The four children of `c`, in the order the library lists them: top
/// left, top right, bottom right, bottom left.
pub open spec fn kids(c: Tile) -> Seq<Tile> {
    seq![
        mk_tile(2 * c.x, 2 * c.y, c.z + 1),
        mk_tile(2 * c.x + 1, 2 * c.y, c.z + 1),
        mk_tile(2 * c.x + 1, 2 * c.y + 1, c.z + 1),
        mk_tile(2 * c.x, 2 * c.y + 1, c.z + 1),
    ]
}

/// The children of every tile of `s`, four by four in the order of `s`.
pub open spec fn expand(s: Seq<Tile>) -> Seq<Tile>
    decreases s.len(),
{
    if s.len() == 0 {
        Seq::empty()
    } else {
        expand(s.drop_last()) + kids(s.last())
    }
}

/// The descendants of `t` that lie `d` zooms below it, level by level in
/// breadth-first order.
pub open spec fn level(t: Tile, d: nat) -> Seq<Tile>
    decreases d,
{
    if d == 0 {
        seq![t]
    } else {
        expand(level(t, (d - 1) as nat))
    }
}

/// The zoom that `children` descends to: `zoom`, or one below the tile.
pub open spec fn target_zoom(z: u8, zoom: Option<u8>) -> int {
    match zoom {
        Some(v) => v as int,
        None => z + 1,
    }
}

/// How many levels `children` descends.
pub open spec fn descent(z: u8, zoom: Option<u8>) -> nat {
    if target_zoom(z, zoom) > z {
        (target_zoom(z, zoom) - z) as nat
    } else {
        0
    }
}

/// The descendants' columns and rows stay within 32 bits.
pub open spec fn children_fit(x: u32, y: u32, d: nat) -> bool {
    (x + 1) * pow2(d) <= pow2(32) && (y + 1) * pow2(d) <= pow2(32)
}

proof fn lemma_expand_index(s: Seq<Tile>)
    ensures
        expand(s).len() == 4 * s.len(),
        forall|j: int| 0 <= j < 4 * s.len() ==> #[trigger] expand(s)[j] == kids(s[j / 4])[j % 4],
    decreases s.len(),
{
    if s.len() > 0 {
        lemma_expand_index(s.drop_last());
        let p = s.drop_last();
        assert forall|j: int| 0 <= j < 4 * s.len() implies #[trigger] expand(s)[j] == kids(s[j / 4])[j % 4] by {
            if j < 4 * p.len() {
                assert(expand(s)[j] == expand(p)[j]);
                assert(s[j / 4] == p[j / 4]);
            } else {
                assert(j / 4 == s.len() - 1);
            }
        }
    }
}

/// Every tile at depth `d` below `t` lies at zoom `t.z + d`, within the
/// block of columns and rows that `t` covers at that zoom.
proof fn lemma_level_bounds(t: Tile, d: nat)
    requires
        t.z + d <= 255,
        children_fit(t.x, t.y, d),
    ensures
        level(t, d).len() == pow4(d),
        forall|j: int|
            0 <= j < level(t, d).len() ==> {
                let c = #[trigger] level(t, d)[j];
                &&& c.z == t.z + d
                &&& t.x * pow2(d) <= c.x < (t.x + 1) * pow2(d)
                &&& t.y * pow2(d) <= c.y < (t.y + 1) * pow2(d)
            },
    decreases d,
{
    lemma2_to64();
    if d > 0 {
        let pd = pow2((d - 1) as nat);
        lemma_pow2_adds((d - 1) as nat, 1);
        assert(pow2(d) == 2 * pd);
        lemma_pow2_pos((d - 1) as nat);
        assert((t.x + 1) * pd <= (t.x + 1) * pow2(d)) by (nonlinear_arith)
            requires pd <= pow2(d), pd > 0;
        assert((t.y + 1) * pd <= (t.y + 1) * pow2(d)) by (nonlinear_arith)
            requires pd <= pow2(d), pd > 0;
        lemma_level_bounds(t, (d - 1) as nat);
        let prev = level(t, (d - 1) as nat);
        lemma_expand_index(prev);
        assert forall|j: int| 0 <= j < level(t, d).len() implies {
            let c = #[trigger] level(t, d)[j];
            &&& c.z == t.z + d
            &&& t.x * pow2(d) <= c.x < (t.x + 1) * pow2(d)
            &&& t.y * pow2(d) <= c.y < (t.y + 1) * pow2(d)
        } by {
            let p = prev[j / 4];
            let c = level(t, d)[j];
            assert(c == kids(p)[j % 4]);
            assert(0 <= j / 4 < prev.len());
            assert(t.x * pd <= p.x < (t.x + 1) * pd);
            assert(t.y * pd <= p.y < (t.y + 1) * pd);
            assert(2 * (t.x * pd) == t.x * pow2(d)) by (nonlinear_arith)
                requires pow2(d) == 2 * pd;
            assert(2 * ((t.x + 1) * pd) == (t.x + 1) * pow2(d)) by (nonlinear_arith)
                requires pow2(d) == 2 * pd;
            assert(2 * (t.y * pd) == t.y * pow2(d)) by (nonlinear_arith)
                requires pow2(d) == 2 * pd;
            assert(2 * ((t.y + 1) * pd) == (t.y + 1) * pow2(d)) by (nonlinear_arith)
                requires pow2(d) == 2 * pd;
            assert(2 * p.x + 1 < pow2(32)) by {
                assert((t.x + 1) * pow2(d) <= pow2(32));
            }
            assert(2 * p.y + 1 < pow2(32));
            assert(pow2(32) == 0x1_0000_0000);
            let m = j % 4;
            assert(0 <= m < 4);
            if m == 0 {
                assert(c.x == 2 * p.x && c.y == 2 * p.y);
            } else if m == 1 {
                assert(c.x == 2 * p.x + 1 && c.y == 2 * p.y);
            } else if m == 2 {
                assert(c.x == 2 * p.x + 1 && c.y == 2 * p.y + 1);
            } else {
                assert(c.x == 2 * p.x && c.y == 2 * p.y + 1);
            }
            assert(c.z == p.z + 1);
        }
    } else {
        assert(level(t, 0) =~= seq![t]);
        assert(pow2(0) == 1);
        assert(t.x * pow2(0) == t.x);
        assert(t.y * pow2(0) == t.y);
        assert((t.x + 1) * pow2(0) == t.x + 1);
        assert((t.y + 1) * pow2(0) == t.y + 1);
        assert(pow4(0) == 1);
    }
}

/// The descendants of `(x, y, z)` at zoom `zoom` (one zoom down when
/// `zoom` is `None`), in breadth-first order; just the tile itself when
/// `zoom` is not below it.
pub fn children(x: u32, y: u32, z: u8, zoom: Option<u8>) -> (r: Vec<Tile>)
    requires
        z < 255,
        children_fit(x, y, descent(z, zoom)),
    ensures
        r@ == level(Tile { x, y, z }, descent(z, zoom)),
{
    let zoom: u8 = match zoom {
        Some(v) => v,
        None => z + 1,
    };
    let tile = Tile { x, y, z };
    let ghost d = descent(z, Some(zoom));
    let mut tiles: Vec<Tile> = vec![tile];
    let mut cur: u8 = z;
    proof {
        assert(tiles@ =~= level(tile, 0));
    }
    while cur < zoom
        invariant
            z <= cur,
            cur <= zoom || cur == z,
            d == (if zoom > z { zoom - z } else { 0int }),
            children_fit(x, y, d),
            tile == (Tile { x, y, z }),
            tiles@ == level(tile, (cur - z) as nat),
        decreases zoom - cur,
    {
        let ghost k: nat = (cur - z) as nat;
        proof {
            assert(k + 1 <= d);
            lemma_pow2_bound_mono(x, y, k + 1, d);
            lemma_pow2_bound_mono(x, y, k, d);
            lemma_level_bounds(tile, k);
            lemma_pow2_adds(k, 1);
            lemma2_to64();
        }
        let mut next: Vec<Tile> = Vec::new();
        let mut i: usize = 0;
        while i < tiles.len()
            invariant
                i <= tiles.len(),
                tiles@ == level(tile, k),
                next@ == expand(tiles@.take(i as int)),
                k == cur - z,
                cur < 255,
                forall|j: int|
                    0 <= j < tiles@.len() ==> {
                        let c = #[trigger] tiles@[j];
                        &&& c.z == z + k
                        &&& c.x < (x + 1) * pow2(k)
                        &&& c.y < (y + 1) * pow2(k)
                    },
                (x + 1) * pow2(k + 1) <= pow2(32),
                (y + 1) * pow2(k + 1) <= pow2(32),
                pow2(k + 1) == 2 * pow2(k),
                pow2(32) == 0x1_0000_0000,
            decreases tiles.len() - i,
        {
            let c = tiles[i];
            proof {
                assert(c.x < (x + 1) * pow2(k));
                assert(2 * c.x + 1 < pow2(32)) by (nonlinear_arith)
                    requires
                        c.x < (x + 1) * pow2(k),
                        (x + 1) * pow2(k + 1) <= pow2(32),
                        pow2(k + 1) == 2 * pow2(k),
                ;
                assert(2 * c.y + 1 < pow2(32)) by (nonlinear_arith)
                    requires
                        c.y < (y + 1) * pow2(k),
                        (y + 1) * pow2(k + 1) <= pow2(32),
                        pow2(k + 1) == 2 * pow2(k),
                ;
                assert(tiles@.take(i + 1).drop_last() =~= tiles@.take(i as int));
            }
            next.push(Tile::new(c.x * 2, c.y * 2, c.z + 1));
            next.push(Tile::new(c.x * 2 + 1, c.y * 2, c.z + 1));
            next.push(Tile::new(c.x * 2 + 1, c.y * 2 + 1, c.z + 1));
            next.push(Tile::new(c.x * 2, c.y * 2 + 1, c.z + 1));
            proof {
                assert(next@ =~= expand(tiles@.take(i + 1)));
            }
            i = i + 1;
        }
        proof {
            assert(tiles@.take(tiles@.len() as int) =~= tiles@);
        }
        tiles = next;
        cur = cur + 1;
    }
    tiles
}

proof fn lemma_pow2_bound_mono(x: u32, y: u32, a: nat, b: nat)
    requires
        a <= b,
        children_fit(x, y, b),
    ensures
        children_fit(x, y, a),
{
    if a < b {
        lemma_pow2_strictly_increases(a, b);
    }
    assert((x + 1) * pow2(a) <= (x + 1) * pow2(b)) by (nonlinear_arith)
        requires pow2(a) <= pow2(b);
    assert((y + 1) * pow2(a) <= (y + 1) * pow2(b)) by (nonlinear_arith)
        requires pow2(a) <= pow2(b);
}

/// The descendants `d` zooms down are `4^d` tiles, each at zoom `z + d`
/// and each having the tile as its ancestor `d` levels up.
pub proof fn lemma_children_descend(x: u32, y: u32, z: u8, d: nat)
    requires
        z + d <= 255,
        children_fit(x, y, d),
    ensures
        level(Tile { x, y, z }, d).len() == pow4(d),
        forall|j: int|
            0 <= j < level(Tile { x, y, z }, d).len() ==> {
                let c = #[trigger] level(Tile { x, y, z }, d)[j];
                &&& c.z == z + d
                &&& ancestor(c.x, c.y, c.z, d) == (Tile { x, y, z })
            },
{
    let t = Tile { x, y, z };
    lemma_level_bounds(t, d);
    lemma_pow2_pos(d);
    assert forall|j: int| 0 <= j < level(t, d).len() implies {
        let c = #[trigger] level(t, d)[j];
        &&& c.z == z + d
        &&& ancestor(c.x, c.y, c.z, d) == t
    } by {
        let c = level(t, d)[j];
        lemma_div_between(c.x as int, x as int, pow2(d) as int);
        lemma_div_between(c.y as int, y as int, pow2(d) as int);
    }
}

proof fn lemma_div_between(v: int, q: int, p: int)
    requires
        p > 0,
        q >= 0,
        q * p <= v < (q + 1) * p,
    ensures
        v / p == q,
{
    lemma_fundamental_div_mod(v, p);
    assert(v / p == q) by (nonlinear_arith)
        requires
            p > 0,
            q * p <= v < (q + 1) * p,
            v == p * (v / p) + v % p,
            0 <= v % p < p,
    {
    }
}

/// A tile is not among its own siblings, and with the tile its three
/// siblings are exactly the four children of its parent.
pub proof fn lemma_siblings_and_tile_are_parent_children(x: u32, y: u32, z: u8)
    requires
        1 <= z,
    ensures
        !siblings_spec(x, y, z).contains(Tile { x, y, z }),
        siblings_spec(x, y, z).to_set().insert(Tile { x, y, z }) == level(
            ancestor(x, y, z, 1),
            1,
        ).to_set(),
{
    let t = Tile { x, y, z };
    let p = ancestor(x, y, z, 1);
    let s = siblings_spec(x, y, z);
    lemma2_to64();
    reveal_with_fuel(level, 2);
    reveal_with_fuel(expand, 2);
    assert(expand(seq![p]) =~= kids(p)) by {
        assert(seq![p].drop_last() =~= Seq::<Tile>::empty());
    }
    let k = kids(p);
    assert(level(p, 1) == k);
    assert(p.x == x / 2 && p.y == y / 2 && p.z == z - 1);
    let a = Tile { x: (2 * (x / 2)) as u32, y: (2 * (y / 2)) as u32, z };
    let b = Tile { x: (2 * (x / 2) + 1) as u32, y: (2 * (y / 2)) as u32, z };
    let c = Tile { x: (2 * (x / 2) + 1) as u32, y: (2 * (y / 2) + 1) as u32, z };
    let d = Tile { x: (2 * (x / 2)) as u32, y: (2 * (y / 2) + 1) as u32, z };
    assert(k =~= seq![a, b, c, d]);
    let four = set![a, b, c, d];
    assert(k.to_set() =~= four) by {
        assert(k[0] == a && k[1] == b && k[2] == c && k[3] == d);
    }
    if x % 2 == 0 && y % 2 == 0 {
        assert(t == a);
        assert(s =~= seq![b, d, c]);
    } else if x % 2 == 1 && y % 2 == 0 {
        assert(t == b);
        assert(s =~= seq![a, c, d]);
    } else if x % 2 == 0 && y % 2 == 1 {
        assert(t == d);
        assert(s =~= seq![c, a, b]);
    } else {
        assert(t == c);
        assert(s =~= seq![d, b, a]);
    }
    assert(s[0] != t && s[1] != t && s[2] != t);
    assert(s.to_set().insert(t) =~= four) by {
        assert(s.contains(s[0]) && s.contains(s[1]) && s.contains(s[2]));
    }
}

impl Tile {
    /// The tile's descendants at zoom `zoom` (see `children`).
    pub fn children(&self, zoom: Option<u8>) -> (r: Vec<Tile>)
        requires
            self.z < 255,
            children_fit(self.x, self.y, descent(self.z, zoom)),
        ensures
            r@ == level(*self, descent(self.z, zoom)),
    {
        children(self.x, self.y, self.z, zoom)
    }
}

} // verus!
