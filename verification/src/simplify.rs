//! Simplifying a set of tiles: dropping tiles that an ancestor in the set
//! already covers, and replacing every four siblings by their parent.
use crate::children::kids;
use crate::tile::{ancestor, lemma_ancestor_compose, parent, Tile};
use vstd::arithmetic::power2::{lemma2_to64, pow2};
use vstd::prelude::*;

verus! {

/// The tile one zoom up.
pub open spec fn tile_parent(t: Tile) -> Tile {
    ancestor(t.x, t.y, t.z, 1)
}

/// All four children of `p` are in `s`.
pub open spec fn full(s: Set<Tile>, p: Tile) -> bool {
    &&& s.contains(kids(p)[0])
    &&& s.contains(kids(p)[1])
    &&& s.contains(kids(p)[2])
    &&& s.contains(kids(p)[3])
}

/// What a tile of `s` becomes in one merge step: its parent when all four
/// of the parent's children are in `s`, else the tile itself.
pub open spec fn merged(s: Set<Tile>, c: Tile) -> Tile {
    if full(s, tile_parent(c)) {
        tile_parent(c)
    } else {
        c
    }
}

/// One merge step: every group of four siblings in `s` is replaced by
/// their parent; every other tile stays.
pub open spec fn merge_spec(s: Set<Tile>) -> Set<Tile> {
    Set::new(|t: Tile| exists|c: Tile| #[trigger] s.contains(c) && merged(s, c) == t)
}

/// No group of four siblings is complete in `s`: a merge step changes nothing.
pub open spec fn stable(s: Set<Tile>) -> bool {
    forall|c: Tile| #[trigger] s.contains(c) ==> !full(s, tile_parent(c))
}

/// Every tile of `s` has a parent.
pub open spec fn no_zoom0(s: Set<Tile>) -> bool {
    forall|c: Tile| #[trigger] s.contains(c) ==> c.z >= 1
}

/// `k` merge steps from `s`.
pub open spec fn merge_iter(s: Set<Tile>, k: nat) -> Set<Tile>
    decreases k,
{
    if k == 0 {
        s
    } else {
        merge_spec(merge_iter(s, (k - 1) as nat))
    }
}

/// The tiles of `s` that no ancestor in `s` covers.
pub open spec fn roots(s: Set<Tile>) -> Set<Tile> {
    Set::new(
        |t: Tile|
            s.contains(t) && forall|k: nat|
                1 <= k <= t.z ==> !s.contains(#[trigger] ancestor(t.x, t.y, t.z, k)),
    )
}

/// Merging from `roots(s)` never meets a zoom-0 tile while a further merge
/// step is still to be taken.
pub open spec fn simplify_safe(s: Set<Tile>) -> bool {
    forall|k: nat|
        (forall|j: nat| j < k ==> !stable(#[trigger] merge_iter(roots(s), j))) ==> no_zoom0(
            #[trigger] merge_iter(roots(s), k),
        )
}

/// `t` or one of its ancestors is in `s`: the area of `s` takes in `t`.
pub open spec fn covers(s: Set<Tile>, t: Tile) -> bool {
    exists|k: nat| k <= t.z && #[trigger] s.contains(ancestor(t.x, t.y, t.z, k))
}

/// No tile of `s` lies deeper than `t`.
pub open spec fn deep_enough(s: Set<Tile>, t: Tile) -> bool {
    forall|c: Tile| #[trigger] s.contains(c) ==> c.z <= t.z
}

/// Of the ancestors of `t` in `s` at or above level `k`, one is the highest.
proof fn lemma_top_cover(s: Set<Tile>, t: Tile, k: nat)
    requires
        k <= t.z,
        s.contains(ancestor(t.x, t.y, t.z, k)),
    ensures
        exists|m: nat|
            k <= m <= t.z && #[trigger] s.contains(ancestor(t.x, t.y, t.z, m)) && forall|j: nat|
                m < j <= t.z ==> !s.contains(#[trigger] ancestor(t.x, t.y, t.z, j)),
    decreases t.z - k,
{
    if exists|j: nat| k < j <= t.z && #[trigger] s.contains(ancestor(t.x, t.y, t.z, j)) {
        let j = choose|j: nat| k < j <= t.z && #[trigger] s.contains(ancestor(t.x, t.y, t.z, j));
        lemma_top_cover(s, t, j);
    } else {
        assert(forall|j: nat|
            k < j <= t.z ==> !s.contains(#[trigger] ancestor(t.x, t.y, t.z, j)));
    }
}

/// Dropping the tiles that an ancestor covers keeps the area.
proof fn lemma_roots_cover(s: Set<Tile>, t: Tile)
    ensures
        covers(s, t) == covers(roots(s), t),
        deep_enough(s, t) ==> deep_enough(roots(s), t),
{
    if covers(s, t) {
        let k = choose|k: nat| k <= t.z && #[trigger] s.contains(ancestor(t.x, t.y, t.z, k));
        lemma_top_cover(s, t, k);
        let m = choose|m: nat|
            k <= m <= t.z && #[trigger] s.contains(ancestor(t.x, t.y, t.z, m)) && forall|j: nat|
                m < j <= t.z ==> !s.contains(#[trigger] ancestor(t.x, t.y, t.z, j));
        let a = ancestor(t.x, t.y, t.z, m);
        lemma_ancestor_compose(t.x, t.y, t.z, m, 0);
        assert forall|kk: nat| 1 <= kk <= a.z implies !s.contains(
            #[trigger] ancestor(a.x, a.y, a.z, kk),
        ) by {
            lemma_ancestor_compose(t.x, t.y, t.z, m, kk);
        }
        assert(roots(s).contains(a));
    }
    if covers(roots(s), t) {
        let k = choose|k: nat| k <= t.z && #[trigger] roots(s).contains(ancestor(t.x, t.y, t.z, k));
        assert(s.contains(ancestor(t.x, t.y, t.z, k)));
    }
}

/// A child of `p` at `(2 p.x + dx, 2 p.y + dy)` for `dx`, `dy` in `{0, 1}`
/// is one of `kids(p)`.
proof fn lemma_is_kid(p: Tile, c: Tile)
    requires
        c.x / 2 == p.x,
        c.y / 2 == p.y,
        c.z == p.z + 1,
    ensures
        c == kids(p)[0] || c == kids(p)[1] || c == kids(p)[2] || c == kids(p)[3],
{
}

/// One merge step keeps the area, seen from any tile at least as deep as
/// every tile of the set.
proof fn lemma_merge_cover(s: Set<Tile>, t: Tile)
    requires
        no_zoom0(s),
        deep_enough(s, t),
    ensures
        covers(s, t) == covers(merge_spec(s), t),
        deep_enough(merge_spec(s), t),
{
    assert forall|m: Tile| #[trigger] merge_spec(s).contains(m) implies m.z <= t.z by {
        let c = choose|c: Tile| #[trigger] s.contains(c) && merged(s, c) == m;
        assert(c.z >= 1);
    }
    if covers(s, t) {
        let k = choose|k: nat| k <= t.z && #[trigger] s.contains(ancestor(t.x, t.y, t.z, k));
        let c = ancestor(t.x, t.y, t.z, k);
        assert(merge_spec(s).contains(merged(s, c)));
        if full(s, tile_parent(c)) {
            lemma_ancestor_compose(t.x, t.y, t.z, k, 1);
            assert(merge_spec(s).contains(ancestor(t.x, t.y, t.z, k + 1)));
        } else {
            assert(merge_spec(s).contains(ancestor(t.x, t.y, t.z, k)));
        }
    }
    if covers(merge_spec(s), t) {
        let k = choose|k: nat| k <= t.z && #[trigger] merge_spec(s).contains(ancestor(t.x, t.y, t.z, k));
        let m = ancestor(t.x, t.y, t.z, k);
        let c = choose|c: Tile| #[trigger] s.contains(c) && merged(s, c) == m;
        if full(s, tile_parent(c)) {
            assert(c.z >= 1 && c.z <= t.z);
            lemma_ancestor_compose(t.x, t.y, t.z, 0, k);
            assert(k >= 1);
            let ch = ancestor(t.x, t.y, t.z, (k - 1) as nat);
            lemma_ancestor_compose(t.x, t.y, t.z, (k - 1) as nat, 1);
            lemma2_to64();
            assert(pow2(1) == 2);
            lemma_is_kid(m, ch);
            assert(s.contains(ch));
        } else {
            assert(s.contains(m));
        }
    }
}

/// Simplifying keeps the area of a tile set: any number of merge steps from
/// the set's roots covers exactly the tiles the set covers, among the tiles
/// at least as deep as every tile of the set, as long as no step met a
/// zoom-0 tile.
pub proof fn lemma_merge_iter_cover(s: Set<Tile>, k: nat, t: Tile)
    requires
        forall|j: nat| j < k ==> no_zoom0(#[trigger] merge_iter(roots(s), j)),
        deep_enough(s, t),
    ensures
        covers(s, t) == covers(merge_iter(roots(s), k), t),
        deep_enough(merge_iter(roots(s), k), t),
    decreases k,
{
    if k == 0 {
        lemma_roots_cover(s, t);
    } else {
        lemma_merge_iter_cover(s, (k - 1) as nat, t);
        assert(no_zoom0(merge_iter(roots(s), (k - 1) as nat)));
        lemma_merge_cover(merge_iter(roots(s), (k - 1) as nat), t);
    }
}

/// No tile of `s` has an ancestor, one or more zooms up, in `s`.
pub open spec fn ancestor_free(s: Set<Tile>) -> bool {
    forall|t: Tile, k: nat|
        #![trigger s.contains(t), ancestor(t.x, t.y, t.z, k)]
        s.contains(t) && 1 <= k <= t.z ==> !s.contains(ancestor(t.x, t.y, t.z, k))
}

/// A tile with a parent is one of its parent's four children; so where the
/// parent's children are all in `s`, the tile is too.
proof fn lemma_in_full_parent(s: Set<Tile>, ch: Tile)
    requires
        ch.z >= 1,
        full(s, tile_parent(ch)),
    ensures
        s.contains(ch),
{
    lemma2_to64();
    assert(pow2(1) == 2);
    lemma_is_kid(tile_parent(ch), ch);
}

/// The roots of a set are what simplifying starts from: they are tiles of
/// the set, no root has an ancestor among the roots (a tile lying under
/// another tile of the set, however many zooms down, is dropped), and they
/// cover exactly the tiles the set covers.
pub proof fn lemma_roots_law(s: Set<Tile>, t: Tile)
    ensures
        roots(s).contains(t) ==> s.contains(t),
        ancestor_free(roots(s)),
        covers(s, t) == covers(roots(s), t),
{
    lemma_roots_cover(s, t);
}

/// A merge step keeps a set free of tiles lying under other tiles of it.
pub proof fn lemma_merge_keeps_ancestor_free(s: Set<Tile>)
    requires
        no_zoom0(s),
        ancestor_free(s),
    ensures
        ancestor_free(merge_spec(s)),
{
    let m = merge_spec(s);
    lemma2_to64();
    assert forall|a: Tile, k: nat|
        #![trigger m.contains(a), ancestor(a.x, a.y, a.z, k)]
        m.contains(a) && 1 <= k <= a.z implies !m.contains(ancestor(a.x, a.y, a.z, k)) by {
        let b = ancestor(a.x, a.y, a.z, k);
        if m.contains(b) {
            let ca = choose|c: Tile| #[trigger] s.contains(c) && merged(s, c) == a;
            let cb = choose|c: Tile| #[trigger] s.contains(c) && merged(s, c) == b;
            assert(ca.z >= 1 && cb.z >= 1);
            if !full(s, tile_parent(ca)) {
                assert(a == ca);
                if !full(s, tile_parent(cb)) {
                    assert(s.contains(b));
                } else {
                    let ch = ancestor(a.x, a.y, a.z, (k - 1) as nat);
                    lemma_ancestor_compose(a.x, a.y, a.z, (k - 1) as nat, 1);
                    assert(tile_parent(ch) == b);
                    lemma_in_full_parent(s, ch);
                    if k == 1 {
                        lemma_ancestor_compose(a.x, a.y, a.z, 0, 0);
                        assert(ch == a);
                        assert(full(s, tile_parent(ca)));
                    } else {
                        assert(s.contains(ancestor(a.x, a.y, a.z, (k - 1) as nat)));
                    }
                }
            } else {
                assert(a == tile_parent(ca));
                lemma_ancestor_compose(ca.x, ca.y, ca.z, 1, k);
                assert(b == ancestor(ca.x, ca.y, ca.z, k + 1));
                if !full(s, tile_parent(cb)) {
                    assert(s.contains(ancestor(ca.x, ca.y, ca.z, k + 1)));
                } else {
                    let ch = ancestor(ca.x, ca.y, ca.z, k);
                    lemma_ancestor_compose(ca.x, ca.y, ca.z, k, 1);
                    assert(tile_parent(ch) == b);
                    lemma_in_full_parent(s, ch);
                    assert(s.contains(ancestor(ca.x, ca.y, ca.z, k)));
                }
            }
        }
    }
}

/// Every merge iterate from the roots that the merging reaches is free of
/// tiles lying under other tiles of it.
pub proof fn lemma_merge_iter_ancestor_free(s: Set<Tile>, k: nat)
    requires
        forall|j: nat| j < k ==> no_zoom0(#[trigger] merge_iter(roots(s), j)),
    ensures
        ancestor_free(merge_iter(roots(s), k)),
    decreases k,
{
    if k == 0 {
        lemma_roots_law(s, Tile { x: 0, y: 0, z: 0 });
    } else {
        lemma_merge_iter_ancestor_free(s, (k - 1) as nat);
        assert(no_zoom0(merge_iter(roots(s), (k - 1) as nat)));
        lemma_merge_keeps_ancestor_free(merge_iter(roots(s), (k - 1) as nat));
    }
}

/// Whether `v` holds `t`.
fn tiles_contains(v: &Vec<Tile>, t: Tile) -> (b: bool)
    ensures
        b == v@.contains(t),
{
    let mut i: usize = 0;
    while i < v.len()
        invariant
            i <= v.len(),
            forall|j: int| 0 <= j < i ==> v@[j] != t,
        decreases v.len() - i,
    {
        if v[i] == t {
            return true;
        }
        i = i + 1;
    }
    false
}

/// The merged form of `c` in `s` (see `merged`).
fn merged_tile(s: &Vec<Tile>, c: Tile) -> (r: (Tile, bool))
    requires
        c.z >= 1,
    ensures
        r.1 == full(s@.to_set(), tile_parent(c)),
        r.0 == merged(s@.to_set(), c),
{
    let px = c.x >> 1;
    let py = c.y >> 1;
    proof {
        vstd::bits::lemma_u32_shr_is_div(c.x, 1);
        vstd::bits::lemma_u32_shr_is_div(c.y, 1);
        lemma2_to64();
    }
    let p = Tile { x: px, y: py, z: c.z - 1 };
    assert(p == tile_parent(c));
    let k0 = Tile { x: px * 2, y: py * 2, z: c.z };
    let k1 = Tile { x: px * 2 + 1, y: py * 2, z: c.z };
    let k2 = Tile { x: px * 2 + 1, y: py * 2 + 1, z: c.z };
    let k3 = Tile { x: px * 2, y: py * 2 + 1, z: c.z };
    assert(k0 == kids(p)[0] && k1 == kids(p)[1] && k2 == kids(p)[2] && k3 == kids(p)[3]);
    let is_full = tiles_contains(s, k0) && tiles_contains(s, k1) && tiles_contains(s, k2)
        && tiles_contains(s, k3);
    if is_full {
        (p, true)
    } else {
        (c, false)
    }
}

/// One merge step on the tile set `merge_set`: the resulting set (without
/// repeats), and whether any four siblings were merged.
pub fn merge(merge_set: &Vec<Tile>) -> (r: (Vec<Tile>, bool))
    requires
        no_zoom0(merge_set@.to_set()),
    ensures
        r.0@.to_set() == merge_spec(merge_set@.to_set()),
        r.0@.no_duplicates(),
        r.1 == !stable(merge_set@.to_set()),
        r.0.len() <= merge_set.len(),
        r.1 ==> r.0.len() < merge_set.len(),
{
    let ghost s = merge_set@.to_set();
    let mut res: Vec<Tile> = Vec::new();
    let mut changed = false;
    let ghost mut skipped: nat = 0;
    let mut i: usize = 0;
    while i < merge_set.len()
        invariant
            i <= merge_set.len(),
            s == merge_set@.to_set(),
            no_zoom0(s),
            res@.no_duplicates(),
            res.len() + skipped == i,
            forall|t: Tile|
                res@.contains(t) <==> exists|j: int| 0 <= j < i && #[trigger] merged(s, merge_set@[j]) == t,
            changed == exists|j: int|
                0 <= j < i && #[trigger] full(s, tile_parent(merge_set@[j])),
            forall|j: int|
                0 <= j < i && full(s, tile_parent(merge_set@[j])) ==> res@.contains(
                    #[trigger] tile_parent(merge_set@[j]),
                ),
            (exists|j1: int, j2: int|
                0 <= j1 < j2 < i && full(s, tile_parent(#[trigger] merge_set@[j1])) && tile_parent(
                    merge_set@[j1],
                ) == tile_parent(#[trigger] merge_set@[j2])) ==> skipped >= 1,
        decreases merge_set.len() - i,
    {
        let c = merge_set[i];
        assert(s.contains(c));
        let (cand, is_full) = merged_tile(merge_set, c);
        if is_full {
            changed = true;
        }
        let ghost before = res@;
        let present = tiles_contains(&res, cand);
        if !present {
            res.push(cand);
        } else {
            proof {
                skipped = skipped + 1;
            }
        }
        proof {
            assert(cand == merged(s, merge_set@[i as int]));
            assert(res@.contains(cand)) by {
                if !present {
                    assert(res@[res@.len() - 1] == cand);
                }
            }
            assert forall|t: Tile| res@.contains(t) <==> exists|j: int|
                0 <= j < i + 1 && #[trigger] merged(s, merge_set@[j]) == t by {
                if res@.contains(t) {
                    let k = choose|k: int| 0 <= k < res@.len() && res@[k] == t;
                    if k < before.len() {
                        assert(before[k] == t);
                        assert(before.contains(t));
                        let j = choose|j: int| 0 <= j < i && #[trigger] merged(s, merge_set@[j]) == t;
                        assert(0 <= j < i + 1 && merged(s, merge_set@[j]) == t);
                    } else {
                        assert(t == cand);
                        assert(merged(s, merge_set@[i as int]) == t);
                    }
                }
                if exists|j: int| 0 <= j < i + 1 && #[trigger] merged(s, merge_set@[j]) == t {
                    let j = choose|j: int| 0 <= j < i + 1 && #[trigger] merged(s, merge_set@[j]) == t;
                    if j < i {
                        assert(exists|j2: int| 0 <= j2 < i && #[trigger] merged(s, merge_set@[j2]) == t);
                        assert(before.contains(t));
                        let k = choose|k: int| 0 <= k < before.len() && before[k] == t;
                        assert(res@[k] == t);
                        assert(res@.contains(t));
                    } else {
                        assert(t == cand);
                        assert(res@.contains(t));
                    }
                }
            }
            if exists|j1: int, j2: int|
                0 <= j1 < j2 < i + 1 && full(s, tile_parent(#[trigger] merge_set@[j1])) && tile_parent(
                    merge_set@[j1],
                ) == tile_parent(#[trigger] merge_set@[j2]) {
                let (j1, j2) = choose|j1: int, j2: int|
                    0 <= j1 < j2 < i + 1 && full(s, tile_parent(#[trigger] merge_set@[j1]))
                        && tile_parent(merge_set@[j1]) == tile_parent(#[trigger] merge_set@[j2]);
                if j2 == i {
                    assert(before.contains(tile_parent(merge_set@[j1])));
                    assert(present);
                }
            }
        }
        i = i + 1;
    }
    proof {
        assert forall|t: Tile| #[trigger] res@.to_set().contains(t) == merge_spec(s).contains(t) by {
            if merge_spec(s).contains(t) {
                let c = choose|c: Tile| #[trigger] s.contains(c) && merged(s, c) == t;
                let j = merge_set@.index_of(c);
                assert(merged(s, merge_set@[j]) == t);
            }
            if res@.contains(t) {
                let j = choose|j: int| 0 <= j < merge_set@.len() && #[trigger] merged(s, merge_set@[j]) == t;
                assert(s.contains(merge_set@[j]));
            }
        }
        assert(res@.to_set() =~= merge_spec(s));
        if changed {
            let j = choose|j: int| 0 <= j < merge_set@.len() && #[trigger] full(s, tile_parent(merge_set@[j]));
            assert(s.contains(merge_set@[j]));
            let p = tile_parent(merge_set@[j]);
            let c0 = kids(p)[0];
            let c1 = kids(p)[1];
            lemma_kids_of_parent(merge_set@[j]);
            let a = merge_set@.index_of(c0);
            let b = merge_set@.index_of(c1);
            assert(a != b);
            if a < b {
                assert(full(s, tile_parent(merge_set@[a])) && tile_parent(merge_set@[a]) == tile_parent(merge_set@[b]));
            } else {
                assert(full(s, tile_parent(merge_set@[b])) && tile_parent(merge_set@[b]) == tile_parent(merge_set@[a]));
            }
        }
        if !changed {
            assert forall|c: Tile| #[trigger] s.contains(c) implies !full(s, tile_parent(c)) by {
                let j = merge_set@.index_of(c);
                assert(!full(s, tile_parent(merge_set@[j])));
            }
        } else {
            let j = choose|j: int| 0 <= j < merge_set@.len() && #[trigger] full(s, tile_parent(merge_set@[j]));
            assert(s.contains(merge_set@[j]));
        }
    }
    (res, changed)
}

/// The children of a tile's parent are all different tiles whose parent is
/// that parent.
proof fn lemma_kids_of_parent(c: Tile)
    requires
        c.z >= 1,
    ensures
        forall|k: int| 0 <= k < 4 ==> tile_parent(#[trigger] kids(tile_parent(c))[k]) == tile_parent(c),
        kids(tile_parent(c))[0] != kids(tile_parent(c))[1],
{
    lemma2_to64();
    assert(pow2(1) == 2);
    assert(pow2(0) == 1);
}

/// A merge step leaves a stable set as it is.
pub proof fn lemma_stable_is_fixed(s: Set<Tile>)
    requires
        stable(s),
    ensures
        merge_spec(s) == s,
{
    assert forall|t: Tile| #[trigger] merge_spec(s).contains(t) == s.contains(t) by {
        if s.contains(t) {
            assert(merged(s, t) == t);
        }
    }
    assert(merge_spec(s) =~= s);
}

/// The tiles of `tiles` that no ancestor in `tiles` covers, without repeats.
fn root_tiles(tiles: &Vec<Tile>) -> (r: Vec<Tile>)
    ensures
        r@.no_duplicates(),
        r@.to_set() == roots(tiles@.to_set()),
{
    let ghost s = tiles@.to_set();
    let mut root_set: Vec<Tile> = Vec::new();
    let mut i: usize = 0;
    while i < tiles.len()
        invariant
            i <= tiles.len(),
            s == tiles@.to_set(),
            root_set@.no_duplicates(),
            forall|t: Tile|
                #[trigger] root_set@.contains(t) <==> (roots(s).contains(t) && exists|j: int|
                    0 <= j < i && tiles@[j] == t),
        decreases tiles.len() - i,
    {
        let tile = tiles[i];
        let mut is_new_tile = true;
        let mut k: u8 = 0;
        while k < tile.z && is_new_tile
            invariant
                k <= tile.z,
                s == tiles@.to_set(),
                is_new_tile ==> forall|kk: nat|
                    1 <= kk <= k ==> !s.contains(#[trigger] ancestor(tile.x, tile.y, tile.z, kk)),
                !is_new_tile ==> exists|kk: nat|
                    1 <= kk <= tile.z && s.contains(#[trigger] ancestor(tile.x, tile.y, tile.z, kk)),
            decreases tile.z - k,
        {
            let supertile = parent(tile.x, tile.y, tile.z, Some(k));
            if tiles_contains(tiles, supertile) {
                is_new_tile = false;
                assert(s.contains(ancestor(tile.x, tile.y, tile.z, (k + 1) as nat)));
            }
            k = k + 1;
        }
        assert(s.contains(tile));
        assert(is_new_tile == roots(s).contains(tile));
        let ghost before = root_set@;
        if is_new_tile && !tiles_contains(&root_set, tile) {
            root_set.push(tile);
        }
        proof {
            assert forall|t: Tile|
                #[trigger] root_set@.contains(t) <==> (roots(s).contains(t) && exists|j: int|
                    0 <= j < i + 1 && tiles@[j] == t) by {
                if root_set@.contains(t) {
                    let m = choose|m: int| 0 <= m < root_set@.len() && root_set@[m] == t;
                    if m < before.len() {
                        assert(before[m] == t);
                        assert(before.contains(t));
                    } else {
                        assert(t == tile);
                        assert(tiles@[i as int] == t);
                    }
                }
                if roots(s).contains(t) && exists|j: int| 0 <= j < i + 1 && tiles@[j] == t {
                    let j = choose|j: int| 0 <= j < i + 1 && tiles@[j] == t;
                    if j < i {
                        assert(before.contains(t));
                        let m = choose|m: int| 0 <= m < before.len() && before[m] == t;
                        assert(root_set@[m] == t);
                    } else if before.contains(t) {
                        let m = choose|m: int| 0 <= m < before.len() && before[m] == t;
                        assert(root_set@[m] == t);
                    } else {
                        assert(root_set@[root_set@.len() - 1] == t);
                    }
                }
            }
        }
        i = i + 1;
    }
    proof {
        assert forall|t: Tile| #[trigger] root_set@.to_set().contains(t) == roots(s).contains(t) by {
            if roots(s).contains(t) {
                assert(s.contains(t));
                let j = tiles@.index_of(t);
                assert(tiles@[j] == t);
            }
        }
        assert(root_set@.to_set() =~= roots(s));
    }
    root_set
}

/// The simplified form of a tile set, or `None` where a merge step would
/// meet a zoom-0 tile, which has no parent (see `simplify`).
pub fn try_simplify(tiles: Vec<Tile>) -> (r: Option<Vec<Tile>>)
    ensures
        r is None <==> !simplify_safe(tiles@.to_set()),
        r matches Some(v) ==> {
            &&& v@.no_duplicates()
            &&& stable(v@.to_set())
            &&& ancestor_free(v@.to_set())
            &&& exists|k: nat| v@.to_set() == merge_iter(roots(tiles@.to_set()), k)
            &&& forall|t: Tile|
                deep_enough(tiles@.to_set(), t) ==> (covers(tiles@.to_set(), t) <==> #[trigger] covers(
                    v@.to_set(),
                    t,
                ))
        },
{
    let ghost s = tiles@.to_set();
    let ghost r0 = roots(s);
    let mut root_set = root_tiles(&tiles);
    let ghost mut k: nat = 0;
    loop
        invariant
            s == tiles@.to_set(),
            r0 == roots(s),
            root_set@.no_duplicates(),
            root_set@.to_set() == merge_iter(r0, k),
            forall|j: nat| j < k ==> !stable(#[trigger] merge_iter(r0, j)),
            forall|j: nat| j < k ==> no_zoom0(#[trigger] merge_iter(r0, j)),
        decreases root_set.len(),
    {
        if has_zoom0(&root_set) {
            proof {
                assert(!no_zoom0(merge_iter(r0, k)));
                assert(!simplify_safe(s)) by {
                    if simplify_safe(s) {
                        assert(forall|j: nat| j < k ==> !stable(#[trigger] merge_iter(roots(s), j)));
                        assert(no_zoom0(merge_iter(roots(s), k)));
                    }
                }
            }
            return None;
        }
        let (new_set, changed) = merge(&root_set);
        if !changed {
            proof {
                lemma_merge_iter_ancestor_free(s, k);
                lemma_stable_is_fixed(merge_iter(r0, k));
                assert(new_set@.to_set() == merge_iter(r0, k));
                assert forall|j: nat| j < k + 1 implies no_zoom0(#[trigger] merge_iter(roots(s), j)) by {
                    if j < k {
                        assert(no_zoom0(merge_iter(r0, j)));
                    }
                }
                assert forall|t: Tile| deep_enough(s, t) implies (covers(s, t) <==> #[trigger] covers(
                    new_set@.to_set(),
                    t,
                )) by {
                    lemma_merge_iter_cover(s, k, t);
                }
                assert(simplify_safe(s)) by {
                    assert forall|m: nat|
                        (forall|j: nat| j < m ==> !stable(#[trigger] merge_iter(roots(s), j)))
                        implies no_zoom0(#[trigger] merge_iter(roots(s), m)) by {
                        if m > k {
                            assert(!stable(merge_iter(roots(s), k)));
                        }
                    }
                }
            }
            return Some(new_set);
        }
        proof {
            assert(merge_iter(r0, k + 1) == merge_spec(merge_iter(r0, k)));
            k = k + 1;
            assert forall|j: nat| j < k implies !stable(#[trigger] merge_iter(r0, j)) by {
                if j < k - 1 {
                } else {
                    assert(j == k - 1);
                }
            }
            assert forall|j: nat| j < k implies no_zoom0(#[trigger] merge_iter(r0, j)) by {
                if j < k - 1 {
                } else {
                    assert(j == k - 1);
                }
            }
        }
        root_set = new_set;
    }
}

/// Whether some tile of `v` has zoom 0.
fn has_zoom0(v: &Vec<Tile>) -> (b: bool)
    ensures
        b == !no_zoom0(v@.to_set()),
{
    let mut i: usize = 0;
    while i < v.len()
        invariant
            i <= v.len(),
            forall|j: int| 0 <= j < i ==> v@[j].z >= 1,
        decreases v.len() - i,
    {
        if v[i].z == 0 {
            assert(v@.to_set().contains(v@[i as int]));
            return true;
        }
        i = i + 1;
    }
    assert forall|c: Tile| #[trigger] v@.to_set().contains(c) implies c.z >= 1 by {
        let j = v@.index_of(c);
    }
    false
}

/// The simplified form of a tile set: the tiles that no ancestor in the set
/// covers, with every four siblings replaced by their parent, over and over
/// until no four siblings are left together. The result covers the same
/// tiles as the set, among the tiles at least as deep as all of the set's.
pub fn simplify(tiles: Vec<Tile>) -> (r: Vec<Tile>)
    requires
        simplify_safe(tiles@.to_set()),
    ensures
        r@.no_duplicates(),
        stable(r@.to_set()),
        ancestor_free(r@.to_set()),
        exists|k: nat| r@.to_set() == merge_iter(roots(tiles@.to_set()), k),
        forall|t: Tile|
            deep_enough(tiles@.to_set(), t) ==> (covers(tiles@.to_set(), t) <==> #[trigger] covers(
                r@.to_set(),
                t,
            )),
{
    match try_simplify(tiles) {
        Some(v) => v,
        None => {
            proof {
                assert(false);
            }
            Vec::new()
        },
    }
}

} // verus!
