//! Per-zoom statistics of an MBTiles tiles table.
use crate::tile::flipy;
use vstd::arithmetic::power2::pow2;
use vstd::prelude::*;

verus! {

/// How many tiles a zoom level holds and the columns and rows they span
/// (rows counted from the top).
#[derive(Debug, Clone, Copy, PartialEq, Eq, Structural)]
pub struct MbtilesZoomStats {
    pub zoom: u32,
    pub ntiles: i64,
    pub xmin: u32,
    pub xmax: u32,
    pub ymin: u32,
    pub ymax: u32,
}

/// The statistics of one zoom from the aggregate row that the tiles table
/// gives for it: tile count and the least and greatest stored row and
/// column. Stored rows count from the bottom, so the least stored row gives
/// the greatest top-counted row and the other way round.
pub fn zoom_stats_row(
    zoom: u32,
    ntiles: i64,
    min_tile_row: i64,
    max_tile_row: i64,
    min_tile_column: i64,
    max_tile_column: i64,
) -> (r: MbtilesZoomStats)
    requires
        zoom < 32,
        (min_tile_row as u32) < pow2(zoom as nat),
        (max_tile_row as u32) < pow2(zoom as nat),
    ensures
        r.zoom == zoom,
        r.ntiles == ntiles,
        r.xmin == min_tile_column as u32,
        r.xmax == max_tile_column as u32,
        r.ymin == pow2(zoom as nat) - 1 - (max_tile_row as u32),
        r.ymax == pow2(zoom as nat) - 1 - (min_tile_row as u32),
{
    let z: u8 = zoom as u8;
    let ymin = flipy(max_tile_row as u32, z);
    let ymax = flipy(min_tile_row as u32, z);
    MbtilesZoomStats {
        zoom,
        ntiles,
        xmin: min_tile_column as u32,
        xmax: max_tile_column as u32,
        ymin,
        ymax,
    }
}

/// The totals over all zooms: tile count, least and greatest zoom, and
/// the number of zooms.
#[derive(Debug, Clone, Copy, PartialEq, Eq, Structural)]
pub struct ZoomStatsSummary {
    pub ntiles: i64,
    pub minzoom: Option<u8>,
    pub maxzoom: Option<u8>,
    pub nzooms: u32,
}

/// Sum of the tile counts.
pub open spec fn total_tiles(s: Seq<MbtilesZoomStats>) -> int
    decreases s.len(),
{
    if s.len() == 0 {
        0
    } else {
        total_tiles(s.drop_last()) + s.last().ntiles
    }
}

/// Every running total of the tile counts fits in an `i64`.
pub open spec fn totals_fit(s: Seq<MbtilesZoomStats>) -> bool {
    forall|k: int| 0 <= k <= s.len() ==> i64::MIN <= #[trigger] total_tiles(s.take(k)) <= i64::MAX
}

/// Every zoom is in the range of a `u8`.
pub open spec fn zooms_fit(s: Seq<MbtilesZoomStats>) -> bool {
    forall|k: int| 0 <= k < s.len() ==> #[trigger] s[k].zoom <= 255
}

/// Whether `z` is the least zoom of `s`.
pub open spec fn is_min_zoom(s: Seq<MbtilesZoomStats>, z: u32) -> bool {
    (exists|k: int| 0 <= k < s.len() && #[trigger] s[k].zoom == z) && forall|k: int|
        0 <= k < s.len() ==> z <= #[trigger] s[k].zoom
}

/// Whether `z` is the greatest zoom of `s`.
pub open spec fn is_max_zoom(s: Seq<MbtilesZoomStats>, z: u32) -> bool {
    (exists|k: int| 0 <= k < s.len() && #[trigger] s[k].zoom == z) && forall|k: int|
        0 <= k < s.len() ==> #[trigger] s[k].zoom <= z
}

/// The totals over the per-zoom statistics: the sum of the tile counts, the
/// least and greatest zoom (`None` when there are no zooms) and the number
/// of zooms (as a `u32`, wrapping).
pub fn summarize_zoom_stats(stats: &Vec<MbtilesZoomStats>) -> (r: ZoomStatsSummary)
    requires
        totals_fit(stats@),
        zooms_fit(stats@),
    ensures
        r.ntiles == total_tiles(stats@),
        r.nzooms == stats@.len() as u32,
        stats@.len() == 0 ==> r.minzoom is None && r.maxzoom is None,
        stats@.len() > 0 ==> (r.minzoom matches Some(lo) && is_min_zoom(stats@, lo as u32)),
        stats@.len() > 0 ==> (r.maxzoom matches Some(hi) && is_max_zoom(stats@, hi as u32)),
{
    let n = stats.len();
    if n == 0 {
        return ZoomStatsSummary { ntiles: 0, minzoom: None, maxzoom: None, nzooms: 0 };
    }
    let mut total: i64 = 0;
    let mut lo: u32 = stats[0].zoom;
    let mut hi: u32 = stats[0].zoom;
    let mut i: usize = 0;
    assert(stats@.take(0) =~= Seq::<MbtilesZoomStats>::empty());
    while i < n
        invariant
            n == stats@.len(),
            n > 0,
            i <= n,
            totals_fit(stats@),
            zooms_fit(stats@),
            total == total_tiles(stats@.take(i as int)),
            i > 0 ==> is_min_zoom(stats@.take(i as int), lo),
            i > 0 ==> is_max_zoom(stats@.take(i as int), hi),
            i == 0 ==> lo == stats@[0].zoom && hi == stats@[0].zoom,
        decreases n - i,
    {
        let ghost pre = stats@.take(i as int);
        let ghost post = stats@.take(i + 1);
        assert(post.drop_last() =~= pre);
        assert(post.last() == stats@[i as int]);
        assert(i64::MIN <= total_tiles(post) <= i64::MAX);
        total = total + stats[i].ntiles;
        let z = stats[i].zoom;
        if z < lo {
            lo = z;
        }
        if z > hi {
            hi = z;
        }
        i = i + 1;
        proof {
            assert forall|k: int| 0 <= k < post.len() implies lo <= #[trigger] post[k].zoom by {
                if k < pre.len() {
                    assert(post[k] == pre[k]);
                }
            }
            assert forall|k: int| 0 <= k < post.len() implies #[trigger] post[k].zoom <= hi by {
                if k < pre.len() {
                    assert(post[k] == pre[k]);
                }
            }
            if lo == z {
                assert(post[post.len() - 1].zoom == lo);
            } else {
                let w = choose|k: int| 0 <= k < pre.len() && #[trigger] pre[k].zoom == lo;
                assert(post[w] == pre[w]);
            }
            if hi == z {
                assert(post[post.len() - 1].zoom == hi);
            } else {
                let w = choose|k: int| 0 <= k < pre.len() && #[trigger] pre[k].zoom == hi;
                assert(post[w] == pre[w]);
            }
        }
    }
    assert(stats@.take(n as int) =~= stats@);
    assert(lo <= 255 && hi <= 255) by {
        let a = choose|k: int| 0 <= k < stats@.len() && #[trigger] stats@[k].zoom == lo;
        let b = choose|k: int| 0 <= k < stats@.len() && #[trigger] stats@[k].zoom == hi;
    }
    ZoomStatsSummary {
        ntiles: total,
        minzoom: Some(lo as u8),
        maxzoom: Some(hi as u8),
        nzooms: n as u32,
    }
}

} // verus!
