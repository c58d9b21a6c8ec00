//! The render pass over a scene that is capped everywhere: every box is
//! flooded after one look at its border, and nothing is refined.

use vstd::prelude::*;
use crate::canvas::Grid;
use crate::geometry::{Rect, Tile};
use crate::scene::Scene;
use crate::subdivision::{lemma_tiled_len_bounds, tiled_len};

verus! {

/// The rectangle that the boxes of side `size` cover when they tile the
/// region from `(x0, y0)` to `(x1, y1)`.
pub open spec fn tiled_rect(x0: int, y0: int, x1: int, y1: int, size: int) -> Rect {
    if x0 >= x1 || y0 >= y1 {
        Rect { x: x0, y: y0, width: 0, height: 0 }
    } else {
        Rect { x: x0, y: y0, width: tiled_len(x1 - x0, size), height: tiled_len(y1 - y0, size) }
    }
}

/// A length that tiles cover is covered by tiles exactly.
pub proof fn lemma_tiled_len_fixed(len: int, size: int)
    requires
        size > 0,
    ensures
        tiled_len(tiled_len(len, size), size) == tiled_len(len, size),
    decreases len,
{
    if len > size {
        lemma_tiled_len_fixed(len - size, size);
        lemma_tiled_len_bounds(len - size, size);
    }
}

impl Scene {
    /// The kernel reports the iteration cap for every pixel of `grid`.
    pub open spec fn capped_on(self, grid: Grid) -> bool {
        forall|x: int, y: int| grid.contains(x, y) ==> #[trigger] (self.count)(x, y) == self.max_iter
    }
}

impl Grid {
    /// No pixel of `rect` holds a settled colour.
    pub open spec fn unsettled_in(self, rect: Rect) -> bool {
        forall|x: int, y: int| rect.covers(x, y) ==> !(#[trigger] self.at(x, y)).is_settled()
    }
}

impl Scene {
    /// Over a capped scene, a box without settled pixels is flooded whole
    /// with the capped colour and is not refined.
    pub proof fn lemma_capped_box(self, grid: Grid, sizes: Seq<u32>, x: int, y: int, depth: int)
        requires
            grid.wf(),
            0 <= depth < sizes.len(),
            sizes[depth] >= 2,
            (Tile { x, y, size: sizes[depth] as int }).within(grid),
            self.capped_on(grid),
            grid.unsettled_in(
                Rect { x, y, width: sizes[depth] as int, height: sizes[depth] as int },
            ),
        ensures
            self.subdivided(grid, sizes, x, y, depth).grid == grid.filled(
                Rect { x, y, width: sizes[depth] as int, height: sizes[depth] as int },
                self.capped_color(),
            ),
            self.subdivided(grid, sizes, x, y, depth).deepest == depth,
            self.border_min(grid, Tile { x, y, size: sizes[depth] as int }) == self.max_iter,
    {
        let tile = Tile { x, y, size: sizes[depth] as int };
        let rect = Rect { x, y, width: sizes[depth] as int, height: sizes[depth] as int };
        assert forall|px: int, py: int| tile.on_border(px, py) implies #[trigger]
            self.effective_count(grid, px, py) == self.max_iter by {
            assert(rect.covers(px, py));
            assert(!grid.at(px, py).is_settled());
            assert(grid.contains(px, py));
            assert((self.count)(px, py) == self.max_iter);
        }
        assert(tile.on_border(x, y));
        assert(self.effective_count(grid, x, y) == self.max_iter);
        assert(self.is_border_min(grid, tile, self.max_iter));
        self.lemma_border_min_unique(grid, tile, self.max_iter);
        let out = self.sampled(grid, tile).flooded(tile, self.capped_color());
        let goal = grid.filled(rect, self.capped_color());
        assert forall|p: (int, int)| out.pixels.dom().contains(p) implies out.pixels[p]
            == goal.pixels[p] by {
            if tile.on_border(p.0, p.1) {
                assert(self.effective_count(grid, p.0, p.1) == self.max_iter);
                assert(rect.covers(p.0, p.1));
                assert(!grid.at(p.0, p.1).is_settled());
                assert(grid.contains(p.0, p.1));
                assert((self.count)(p.0, p.1) == self.max_iter);
            }
        }
        assert(out.pixels =~= goal.pixels);
    }

    /// Over a capped scene, a row of boxes without settled pixels is flooded
    /// whole and is not refined.
    pub proof fn lemma_capped_row(
        self,
        grid: Grid,
        sizes: Seq<u32>,
        x0: int,
        y: int,
        depth: int,
        x_end: int,
    )
        requires
            grid.wf(),
            0 <= depth < sizes.len(),
            sizes[depth] >= 2,
            0 <= x0 <= x_end <= grid.width,
            0 <= y,
            y + sizes[depth] <= grid.height,
            tiled_len(x_end - x0, sizes[depth] as int) == x_end - x0,
            self.capped_on(grid),
            grid.unsettled_in(Rect { x: x0, y, width: x_end - x0, height: sizes[depth] as int }),
        ensures
            self.row_until(grid, sizes, x0, y, depth, x_end).grid == grid.filled(
                Rect { x: x0, y, width: x_end - x0, height: sizes[depth] as int },
                self.capped_color(),
            ),
            self.row_until(grid, sizes, x0, y, depth, x_end).deepest == depth,
        decreases x_end - x0,
    {
        let size = sizes[depth] as int;
        let rect = Rect { x: x0, y, width: x_end - x0, height: size };
        let goal = grid.filled(rect, self.capped_color());
        if x_end - size < x0 {
            assert(x_end == x0) by {
                if x_end > x0 {
                    lemma_tiled_len_bounds(x_end - x0, size);
                }
            }
            assert(grid.pixels =~= goal.pixels);
        } else {
            let left = Rect { x: x0, y, width: x_end - size - x0, height: size };
            let last = Rect { x: x_end - size, y, width: size, height: size };
            assert(tiled_len(x_end - size - x0, size) == x_end - size - x0);
            assert forall|px: int, py: int| left.covers(px, py) implies !(#[trigger] grid.at(
                px,
                py,
            )).is_settled() by {
                assert(rect.covers(px, py));
            }
            self.lemma_capped_row(grid, sizes, x0, y, depth, x_end - size);
            let before = self.row_until(grid, sizes, x0, y, depth, x_end - size).grid;
            assert forall|px: int, py: int| last.covers(px, py) implies !(#[trigger] before.at(
                px,
                py,
            )).is_settled() by {
                assert(rect.covers(px, py));
                assert(!grid.at(px, py).is_settled());
                assert(grid.pixels.dom().contains((px, py)));
                assert(!left.covers(px, py));
            }
            self.lemma_capped_box(before, sizes, x_end - size, y, depth);
            let out = before.filled(last, self.capped_color());
            assert(out.pixels =~= goal.pixels);
        }
    }

    /// Over a capped scene, a stack of rows without settled pixels is
    /// flooded whole and is not refined.
    pub proof fn lemma_capped_rows(
        self,
        grid: Grid,
        sizes: Seq<u32>,
        x0: int,
        y0: int,
        x1: int,
        depth: int,
        y_end: int,
    )
        requires
            grid.wf(),
            0 <= depth < sizes.len(),
            sizes[depth] >= 2,
            0 <= x0 < x1,
            x0 + tiled_len(x1 - x0, sizes[depth] as int) <= grid.width,
            0 <= y0 <= y_end <= grid.height,
            tiled_len(y_end - y0, sizes[depth] as int) == y_end - y0,
            self.capped_on(grid),
            grid.unsettled_in(
                Rect {
                    x: x0,
                    y: y0,
                    width: tiled_len(x1 - x0, sizes[depth] as int),
                    height: y_end - y0,
                },
            ),
        ensures
            self.rows_until(grid, sizes, x0, y0, x1, depth, y_end).grid == grid.filled(
                Rect {
                    x: x0,
                    y: y0,
                    width: tiled_len(x1 - x0, sizes[depth] as int),
                    height: y_end - y0,
                },
                self.capped_color(),
            ),
            self.rows_until(grid, sizes, x0, y0, x1, depth, y_end).deepest == depth,
        decreases y_end - y0,
    {
        let size = sizes[depth] as int;
        let width = tiled_len(x1 - x0, size);
        let rect = Rect { x: x0, y: y0, width, height: y_end - y0 };
        let goal = grid.filled(rect, self.capped_color());
        lemma_tiled_len_bounds(x1 - x0, size);
        if y_end - size < y0 {
            assert(y_end == y0) by {
                if y_end > y0 {
                    lemma_tiled_len_bounds(y_end - y0, size);
                }
            }
            assert(grid.pixels =~= goal.pixels);
        } else {
            let above = Rect { x: x0, y: y0, width, height: y_end - size - y0 };
            let last = Rect { x: x0, y: y_end - size, width, height: size };
            assert(tiled_len(y_end - size - y0, size) == y_end - size - y0);
            assert forall|px: int, py: int| above.covers(px, py) implies !(#[trigger] grid.at(
                px,
                py,
            )).is_settled() by {
                assert(rect.covers(px, py));
            }
            self.lemma_capped_rows(grid, sizes, x0, y0, x1, depth, y_end - size);
            let before = self.rows_until(grid, sizes, x0, y0, x1, depth, y_end - size).grid;
            assert forall|px: int, py: int| last.covers(px, py) implies !(#[trigger] before.at(
                px,
                py,
            )).is_settled() by {
                assert(rect.covers(px, py));
                assert(!grid.at(px, py).is_settled());
                assert(grid.pixels.dom().contains((px, py)));
                assert(!above.covers(px, py));
            }
            lemma_tiled_len_fixed(x1 - x0, size);
            self.lemma_capped_row(before, sizes, x0, y_end - size, depth, x0 + width);
            let out = before.filled(last, self.capped_color());
            assert(out.pixels =~= goal.pixels);
        }
    }

    /// Uniform cap. Where the kernel reports the cap for every pixel and the
    /// region holds no settled pixel, rendering it floods everything its
    /// boxes cover with the capped colour, touches nothing else, and samples
    /// no box below the starting level: each box is decided by one look at
    /// its border.
    pub proof fn lemma_capped_region(
        self,
        grid: Grid,
        sizes: Seq<u32>,
        x0: int,
        y0: int,
        x1: int,
        y1: int,
        depth: int,
    )
        requires
            grid.wf(),
            0 <= depth < sizes.len(),
            sizes[depth] >= 2,
            0 <= x0,
            0 <= y0,
            tiled_rect(x0, y0, x1, y1, sizes[depth] as int).within(grid),
            self.capped_on(grid),
            grid.unsettled_in(tiled_rect(x0, y0, x1, y1, sizes[depth] as int)),
        ensures
            self.region(grid, sizes, x0, y0, x1, y1, depth).grid == grid.filled(
                tiled_rect(x0, y0, x1, y1, sizes[depth] as int),
                self.capped_color(),
            ),
            self.region(grid, sizes, x0, y0, x1, y1, depth).deepest == depth,
    {
        let size = sizes[depth] as int;
        let rect = tiled_rect(x0, y0, x1, y1, size);
        let goal = grid.filled(rect, self.capped_color());
        if x0 >= x1 || y0 >= y1 {
            assert(grid.pixels =~= goal.pixels);
        } else {
            lemma_tiled_len_fixed(y1 - y0, size);
            self.lemma_capped_rows(grid, sizes, x0, y0, x1, depth, y0 + tiled_len(y1 - y0, size));
        }
    }
}

} // verus!
