//! Walking the tiles of a rectangle of columns and rows at one zoom.
use vstd::arithmetic::div_mod::lemma_fundamental_div_mod_converse;
use vstd::arithmetic::mul::lemma_mul_is_distributive_add_other_way;
use vstd::prelude::*;

verus! {

/// The tiles of the rectangle `minx..=maxx` by `miny..=maxy` at `zoom`, row
/// by row from the top, each row from left to right.
pub open spec fn rect_rows(minx: u32, maxx: u32, miny: u32, maxy: u32, zoom: u8) -> Seq<
    (u32, u32, u8),
> {
    let w = maxx - minx + 1;
    let h = maxy - miny + 1;
    if w <= 0 || h <= 0 {
        Seq::empty()
    } else {
        Seq::new((w * h) as nat, |k: int| ((minx + k % w) as u32, (miny + k / w) as u32, zoom))
    }
}

/// The tiles of the same rectangle, column by column from the left, each
/// column from top to bottom.
pub open spec fn rect_columns(minx: u32, maxx: u32, miny: u32, maxy: u32, zoom: u8) -> Seq<
    (u32, u32, u8),
> {
    let w = maxx - minx + 1;
    let h = maxy - miny + 1;
    if w <= 0 || h <= 0 {
        Seq::empty()
    } else {
        Seq::new((w * h) as nat, |k: int| ((minx + k / h) as u32, (miny + k % h) as u32, zoom))
    }
}

/// A cursor over the tiles of a rectangle at one zoom, row by row.
pub struct TilesRange {
    curx: u32,
    cury: u32,
    pub minx: u32,
    pub maxx: u32,
    pub miny: u32,
    pub maxy: u32,
    pub zoom: u8,
}

impl TilesRange {
    /// The rectangle and zoom: `(minx, maxx, miny, maxy, zoom)`.
    pub closed spec fn rect(&self) -> (u32, u32, u32, u32, u8) {
        (self.minx, self.maxx, self.miny, self.maxy, self.zoom)
    }

    /// The rectangle is not empty, its last column and row are below
    /// `u32::MAX`, and the cursor lies in the rectangle's columns (or just
    /// past the last one) and in its rows (or on the row just past the last
    /// one, at the start of it).
    pub closed spec fn inv(&self) -> bool {
        &&& self.minx <= self.maxx < u32::MAX
        &&& self.miny <= self.maxy < u32::MAX
        &&& self.minx <= self.curx <= self.maxx + 1
        &&& self.miny <= self.cury <= self.maxy + 1
        &&& (self.cury == self.maxy + 1 ==> self.curx <= self.maxx)
    }

    /// The cursor after wrapping past the end of a row.
    closed spec fn settled(&self) -> (u32, u32) {
        if self.curx > self.maxx {
            (self.minx, (self.cury + 1) as u32)
        } else {
            (self.curx, self.cury)
        }
    }

    /// Width of the rectangle.
    closed spec fn width(&self) -> int {
        self.maxx - self.minx + 1
    }

    /// Index, in row-by-row order, of the tile the cursor will give next.
    closed spec fn position(&self) -> int {
        let (cx, cy) = self.settled();
        if cy > self.maxy {
            (self.maxy - self.miny + 1) * self.width()
        } else {
            (cy - self.miny) * self.width() + (cx - self.minx)
        }
    }

    /// The tiles still to come.
    pub closed spec fn remaining(&self) -> Seq<(u32, u32, u8)> {
        let all = rect_rows(self.minx, self.maxx, self.miny, self.maxy, self.zoom);
        all.subrange(self.position(), all.len() as int)
    }

    /// A cursor at the first tile of the rectangle.
    pub fn new(minx: u32, maxx: u32, miny: u32, maxy: u32, zoom: u8) -> (r: TilesRange)
        requires
            minx <= maxx < u32::MAX,
            miny <= maxy < u32::MAX,
        ensures
            r.inv(),
            r.rect() == (minx, maxx, miny, maxy, zoom),
            r.remaining() == rect_rows(minx, maxx, miny, maxy, zoom),
    {
        let r = TilesRange { curx: minx, cury: miny, minx, maxx, miny, maxy, zoom };
        proof {
            let all = rect_rows(minx, maxx, miny, maxy, zoom);
            assert(r.settled() == (minx, miny));
            assert(0 * r.width() == 0);
            assert(r.position() == 0);
            assert(all.subrange(0, all.len() as int) =~= all);
        }
        r
    }

    proof fn lemma_index(&self, pos: int)
        requires
            self.inv(),
            0 <= pos < (self.maxy - self.miny + 1) * self.width(),
        ensures
            rect_rows(self.minx, self.maxx, self.miny, self.maxy, self.zoom).len() == (self.maxy
                - self.miny + 1) * self.width(),
            rect_rows(self.minx, self.maxx, self.miny, self.maxy, self.zoom)[pos] == (
                (self.minx + pos % self.width()) as u32,
                (self.miny + pos / self.width()) as u32,
                self.zoom,
            ),
    {
        let w = self.width();
        let h = self.maxy - self.miny + 1;
        assert(w * h == h * w) by (nonlinear_arith);
        assert(w * h >= 0) by (nonlinear_arith)
            requires
                w > 0,
                h > 0,
        ;
    }

    /// The next tile, row by row; `None` once the rectangle is done.
    pub fn next(&mut self) -> (r: Option<(u32, u32, u8)>)
        requires
            old(self).inv(),
        ensures
            final(self).inv(),
            final(self).rect() == old(self).rect(),
            old(self).remaining().len() == 0 ==> r is None && final(self).remaining().len() == 0,
            old(self).remaining().len() > 0 ==> r == Some(old(self).remaining()[0])
                && final(self).remaining() == old(self).remaining().drop_first(),
    {
        let ghost w = self.width();
        let ghost h = self.maxy - self.miny + 1;
        let ghost all = rect_rows(self.minx, self.maxx, self.miny, self.maxy, self.zoom);
        let ghost pos0 = old(self).position();
        proof {
            assert(w * h >= w) by (nonlinear_arith)
                requires
                    w > 0,
                    h > 0,
            ;
            assert(all.len() == w * h) by (nonlinear_arith)
                requires
                    w > 0,
                    h > 0,
                    all.len() == (w * h) as nat,
            ;
        }
        if self.curx > self.maxx {
            self.curx = self.minx;
            self.cury = self.cury + 1;
        }
        if self.cury > self.maxy {
            proof {
                assert(self.position() == h * w);
                assert(h * w == w * h) by (nonlinear_arith);
                assert(old(self).position() == w * h) by {
                    assert((old(self).maxy - old(self).miny + 1) * w == h * w);
                }
            }
            return None;
        }
        let tile = (self.curx, self.cury, self.zoom);
        let ghost row = self.cury - self.miny;
        let ghost col = self.curx - self.minx;
        proof {
            assert(0 <= col < w);
            assert(0 <= row < h);
            assert(pos0 == row * w + col);
            assert(row * w + col < h * w) by (nonlinear_arith)
                requires
                    0 <= col < w,
                    0 <= row < h,
            ;
            assert(h * w == w * h) by (nonlinear_arith);
            lemma_fundamental_div_mod_converse(pos0, w, row, col);
            self.lemma_index(pos0);
            assert(old(self).remaining()[0] == all[pos0]);
        }
        self.curx = self.curx + 1;
        proof {
            if self.curx > self.maxx {
                lemma_mul_is_distributive_add_other_way(w, row, 1);
                assert((row + 1) * w == row * w + w);
                if self.cury + 1 > self.maxy {
                    assert(row + 1 == h);
                }
            }
            assert(self.position() == pos0 + 1);
            assert(self.remaining() =~= old(self).remaining().drop_first());
        }
        Some(tile)
    }

    /// All the tiles still to come, in order; the cursor is left done.
    pub fn collect_tiles(&mut self) -> (r: Vec<(u32, u32, u8)>)
        requires
            old(self).inv(),
        ensures
            final(self).inv(),
            final(self).rect() == old(self).rect(),
            r@ == old(self).remaining(),
            final(self).remaining().len() == 0,
    {
        let mut out: Vec<(u32, u32, u8)> = Vec::new();
        loop
            invariant
                self.inv(),
                self.rect() == old(self).rect(),
                out@ + self.remaining() == old(self).remaining(),
            ensures
                self.inv(),
                self.rect() == old(self).rect(),
                out@ == old(self).remaining(),
                self.remaining().len() == 0,
            decreases self.remaining().len(),
        {
            let ghost before = self.remaining();
            match self.next() {
                Some(t) => {
                    out.push(t);
                    assert(out@ + self.remaining() =~= old(self).remaining()) by {
                        assert(before =~= seq![t] + before.drop_first());
                    }
                },
                None => {
                    assert(out@ =~= old(self).remaining());
                    break;
                },
            }
        }
        out
    }

    /// The number of tiles of the whole rectangle, as lower and upper bound.
    pub fn size_hint(&self) -> (r: (usize, Option<usize>))
        requires
            self.inv(),
            (self.rect().1 - self.rect().0 + 1) * (self.rect().3 - self.rect().2 + 1) <= u32::MAX,
            (self.rect().1 - self.rect().0 + 1) * (self.rect().3 - self.rect().2 + 1) <= usize::MAX,
        ensures
            r.0 == rect_rows(self.rect().0, self.rect().1, self.rect().2, self.rect().3, self.rect().4).len(),
            r.1 == Some(r.0),
    {
        let w: u32 = self.maxx - self.minx + 1;
        let h: u32 = self.maxy - self.miny + 1;
        let n: u32 = w * h;
        let size = n as usize;
        (size, Some(size))
    }
}

/// Several rectangle cursors taken in turn: each call asks the front cursor
/// for a tile and, if it gave one, moves it to the back.
pub struct TilesRanges {
    ranges: Vec<TilesRange>,
}

impl TilesRanges {
    /// What each cursor still holds, in queue order.
    pub closed spec fn pending(&self) -> Seq<Seq<(u32, u32, u8)>> {
        self.ranges@.map_values(|r: TilesRange| r.remaining())
    }

    /// Every cursor is well formed.
    pub closed spec fn inv(&self) -> bool {
        forall|i: int| 0 <= i < self.ranges@.len() ==> #[trigger] self.ranges@[i].inv()
    }

    /// Takes the cursors in the given order.
    pub fn new(ranges: Vec<TilesRange>) -> (r: TilesRanges)
        requires
            forall|i: int| 0 <= i < ranges@.len() ==> #[trigger] ranges@[i].inv(),
        ensures
            r.inv(),
            r.pending() == ranges@.map_values(|t: TilesRange| t.remaining()),
    {
        TilesRanges { ranges }
    }

    /// The front cursor's next tile. A front cursor that is done is dropped
    /// and the call gives `None`; one that gave a tile goes to the back.
    pub fn next(&mut self) -> (r: Option<(u32, u32, u8)>)
        requires
            old(self).inv(),
        ensures
            final(self).inv(),
            old(self).pending().len() == 0 ==> r is None && final(self).pending() == old(
                self,
            ).pending(),
            old(self).pending().len() > 0 && old(self).pending()[0].len() == 0 ==> r is None
                && final(self).pending() == old(self).pending().drop_first(),
            old(self).pending().len() > 0 && old(self).pending()[0].len() > 0 ==> r == Some(
                old(self).pending()[0][0],
            ) && final(self).pending() == old(self).pending().drop_first().push(
                old(self).pending()[0].drop_first(),
            ),
    {
        if self.ranges.len() == 0 {
            return None;
        }
        let mut range = self.ranges.remove(0);
        let ghost rest = self.ranges@;
        assert(rest =~= old(self).ranges@.drop_first());
        let tile = range.next();
        if tile.is_some() {
            self.ranges.push(range);
            assert(self.pending() =~= old(self).pending().drop_first().push(
                old(self).pending()[0].drop_first(),
            ));
        } else {
            assert(self.pending() =~= old(self).pending().drop_first());
        }
        tile
    }
}

/// The tiles of the rectangle `minx..=maxx` by `miny..=maxy` at `zoom`,
/// column by column.
pub fn tiles_range_zoom(minx: u32, maxx: u32, miny: u32, maxy: u32, zoom: u8) -> (r: Vec<
    (u32, u32, u8),
>)
    ensures
        r@ == rect_columns(minx, maxx, miny, maxy, zoom),
{
    let mut out: Vec<(u32, u32, u8)> = Vec::new();
    if minx > maxx || miny > maxy {
        assert(out@ =~= rect_columns(minx, maxx, miny, maxy, zoom));
        return out;
    }
    let ghost h: int = maxy - miny + 1;
    let mut i: u32 = minx;
    loop
        invariant_except_break
            minx <= i <= maxx,
            out@.len() == (i - minx) * h,
        invariant
            miny <= maxy,
            h == maxy - miny + 1,
            forall|k: int|
                0 <= k < out@.len() ==> #[trigger] out@[k] == ((minx + k / h) as u32, (miny + k
                    % h) as u32, zoom),
        ensures
            out@.len() == (maxx - minx + 1) * h,
        decreases maxx - i,
    {
        let mut j: u32 = miny;
        loop
            invariant_except_break
                miny <= j <= maxy,
                out@.len() == (i - minx) * h + (j - miny),
            invariant
                minx <= i <= maxx,
                miny <= maxy,
                h == maxy - miny + 1,
                forall|k: int|
                    0 <= k < out@.len() ==> #[trigger] out@[k] == ((minx + k / h) as u32, (miny
                        + k % h) as u32, zoom),
            ensures
                out@.len() == (i - minx) * h + h,
            decreases maxy - j,
        {
            proof {
                let k = (i - minx) * h + (j - miny);
                lemma_fundamental_div_mod_converse(k, h, i - minx, j - miny);
            }
            out.push((i, j, zoom));
            if j == maxy {
                break;
            }
            j = j + 1;
        }
        proof {
            lemma_mul_is_distributive_add_other_way(h, i - minx, 1);
        }
        if i == maxx {
            break;
        }
        i = i + 1;
    }
    proof {
        let w = maxx - minx + 1;
        assert(out@.len() == w * h);
        assert(out@ =~= rect_columns(minx, maxx, miny, maxy, zoom));
    }
    out
}

} // verus!
