//! A render pass is a function of what the kernel reports for the pixels of
//! the canvas and of what the colour mapper makes of each count.

use vstd::prelude::*;
use crate::canvas::Grid;
use crate::geometry::Tile;
use crate::scene::Scene;
use crate::subdivision::{
    action_for, box_fits, box_span, lemma_box_span_bounds, lemma_tiled_len_bounds, region_fits,
    sizes_usable, tiled_len, BoxAction,
};

verus! {

impl Scene {
    /// Two scenes agree on `grid`: the same cap, the same colour for every
    /// count, and the same count for every pixel of the grid.
    pub open spec fn agrees_on(self, other: Scene, grid: Grid) -> bool {
        &&& self.max_iter == other.max_iter
        &&& forall|n: int| #[trigger] (self.paint)(n) == (other.paint)(n)
        &&& forall|x: int, y: int|
            grid.contains(x, y) ==> #[trigger] (self.count)(x, y) == (other.count)(x, y)
    }

    /// The border of a box has a least effective count.
    pub proof fn lemma_border_min_exists(self, grid: Grid, tile: Tile, x: int, y: int)
        requires
            tile.on_border(x, y),
        ensures
            self.is_border_min(grid, tile, self.border_min(grid, tile)),
        decreases self.effective_count(grid, x, y),
    {
        let here = self.effective_count(grid, x, y);
        if forall|px: int, py: int|
            tile.on_border(px, py) ==> here <= #[trigger] self.effective_count(grid, px, py) {
            assert(self.is_border_min(grid, tile, here as int));
        } else {
            let (px, py) = choose|px: int, py: int|
                tile.on_border(px, py) && !(here <= #[trigger] self.effective_count(
                    grid,
                    px,
                    py,
                ));
            self.lemma_border_min_exists(grid, tile, px, py);
        }
    }

    /// Scenes that agree on the canvas sample, flood and evaluate a box on
    /// it alike.
    pub proof fn lemma_same_steps(self, other: Scene, grid: Grid, tile: Tile)
        requires
            grid.wf(),
            tile.size >= 1,
            tile.within(grid),
            self.agrees_on(other, grid),
        ensures
            self.sampled(grid, tile) == other.sampled(grid, tile),
            self.border_min(grid, tile) == other.border_min(grid, tile),
            self.evaluated(grid, tile) == other.evaluated(grid, tile),
            self.capped_color() == other.capped_color(),
    {
        assert forall|x: int, y: int| tile.covers(x, y) implies self.shade(x, y) == other.shade(
            x,
            y,
        ) by {
            assert(grid.contains(x, y));
            assert((self.count)(x, y) == (other.count)(x, y));
            assert((self.paint)((self.count)(x, y) as int) == (other.paint)(
                (self.count)(x, y) as int,
            ));
        }
        assert(self.sampled(grid, tile).pixels =~= other.sampled(grid, tile).pixels);
        assert(self.evaluated(grid, tile).pixels =~= other.evaluated(grid, tile).pixels);
        assert((self.paint)(self.max_iter) == (other.paint)(self.max_iter));
        assert(tile.on_border(tile.x, tile.y));
        self.lemma_border_min_exists(grid, tile, tile.x, tile.y);
        let m = self.border_min(grid, tile);
        assert forall|x: int, y: int| tile.on_border(x, y) implies #[trigger]
            other.effective_count(grid, x, y) == self.effective_count(grid, x, y) by {
            assert(grid.contains(x, y));
            assert((self.count)(x, y) == (other.count)(x, y));
        }
        let (wx, wy) = choose|wx: int, wy: int|
            tile.on_border(wx, wy) && #[trigger] self.effective_count(grid, wx, wy) == m;
        assert(other.effective_count(grid, wx, wy) == m);
        assert forall|x: int, y: int| tile.on_border(x, y) implies m
            <= #[trigger] other.effective_count(grid, x, y) by {
            assert(m <= self.effective_count(grid, x, y));
        }
        assert(other.is_border_min(grid, tile, m));
        other.lemma_border_min_unique(grid, tile, m);
    }

    /// Scenes that agree on the canvas subdivide a box on it alike.
    pub proof fn lemma_same_box(
        self,
        other: Scene,
        grid: Grid,
        sizes: Seq<u32>,
        x: int,
        y: int,
        depth: int,
    )
        requires
            grid.wf(),
            0 <= depth < sizes.len(),
            sizes_usable(sizes),
            0 <= x,
            0 <= y,
            box_fits(grid, sizes, x, y, depth),
            self.agrees_on(other, grid),
        ensures
            self.subdivided(grid, sizes, x, y, depth) == other.subdivided(
                grid,
                sizes,
                x,
                y,
                depth,
            ),
        decreases sizes.len() - depth, 0int, 0int,
    {
        let tile = Tile { x, y, size: sizes[depth] as int };
        lemma_box_span_bounds(sizes, depth);
        self.lemma_same_steps(other, grid, tile);
        let sampled = self.sampled(grid, tile);
        self.lemma_steps_trace(grid, tile);
        match action_for(self.border_min(grid, tile), self.max_iter, depth, sizes.len() as int) {
            BoxAction::Fill => {},
            BoxAction::Recurse => {
                lemma_tiled_len_bounds(sizes[depth] as int, sizes[depth + 1] as int);
                self.lemma_same_region(
                    other,
                    sampled,
                    sizes,
                    x,
                    y,
                    x + sizes[depth],
                    y + sizes[depth],
                    depth + 1,
                );
            },
            BoxAction::Evaluate => {
                self.lemma_same_steps(other, sampled, tile);
            },
        }
    }

    /// Scenes that agree on the canvas subdivide a row of boxes alike.
    pub proof fn lemma_same_row(
        self,
        other: Scene,
        grid: Grid,
        sizes: Seq<u32>,
        x0: int,
        y: int,
        depth: int,
        x_end: int,
    )
        requires
            grid.wf(),
            0 <= depth < sizes.len(),
            sizes_usable(sizes),
            0 <= x0,
            0 <= y,
            x_end - sizes[depth] < x0 || x_end - sizes[depth] + box_span(sizes, depth)
                <= grid.width,
            y + box_span(sizes, depth) <= grid.height,
            self.agrees_on(other, grid),
        ensures
            self.row_until(grid, sizes, x0, y, depth, x_end) == other.row_until(
                grid,
                sizes,
                x0,
                y,
                depth,
                x_end,
            ),
        decreases sizes.len() - depth, 1int, x_end - x0,
    {
        if x_end - sizes[depth] < x0 {
        } else {
            let left = x_end - sizes[depth];
            self.lemma_same_row(other, grid, sizes, x0, y, depth, left);
            let before = self.row_until(grid, sizes, x0, y, depth, left).grid;
            self.lemma_row_traces(grid, sizes, x0, y, depth, left);
            self.lemma_same_box(other, before, sizes, left, y, depth);
        }
    }

    /// Scenes that agree on the canvas render a stack of rows alike.
    pub proof fn lemma_same_rows(
        self,
        other: Scene,
        grid: Grid,
        sizes: Seq<u32>,
        x0: int,
        y0: int,
        x1: int,
        depth: int,
        y_end: int,
    )
        requires
            grid.wf(),
            0 <= depth < sizes.len(),
            sizes_usable(sizes),
            0 <= x0 < x1,
            0 <= y0,
            x0 + tiled_len(x1 - x0, sizes[depth] as int) - sizes[depth] + box_span(sizes, depth)
                <= grid.width,
            y_end - sizes[depth] < y0 || y_end - sizes[depth] + box_span(sizes, depth)
                <= grid.height,
            self.agrees_on(other, grid),
        ensures
            self.rows_until(grid, sizes, x0, y0, x1, depth, y_end) == other.rows_until(
                grid,
                sizes,
                x0,
                y0,
                x1,
                depth,
                y_end,
            ),
        decreases sizes.len() - depth, 2int, y_end - y0,
    {
        if y_end - sizes[depth] < y0 {
        } else {
            let top = y_end - sizes[depth];
            let row_end = x0 + tiled_len(x1 - x0, sizes[depth] as int);
            self.lemma_same_rows(other, grid, sizes, x0, y0, x1, depth, top);
            let before = self.rows_until(grid, sizes, x0, y0, x1, depth, top).grid;
            self.lemma_rows_traces(grid, sizes, x0, y0, x1, depth, top);
            self.lemma_same_row(other, before, sizes, x0, top, depth, row_end);
        }
    }

    /// Determinism. Two render passes over the same canvas, the same region
    /// and the same box sizes end with the same canvas and the same depth
    /// whenever their kernels report the same count for every pixel of the
    /// canvas and their colour mappers give every count the same colour.
    pub proof fn lemma_same_region(
        self,
        other: Scene,
        grid: Grid,
        sizes: Seq<u32>,
        x0: int,
        y0: int,
        x1: int,
        y1: int,
        depth: int,
    )
        requires
            grid.wf(),
            0 <= depth < sizes.len(),
            sizes_usable(sizes),
            0 <= x0,
            0 <= y0,
            region_fits(grid, sizes, x0, y0, x1, y1, depth),
            self.agrees_on(other, grid),
        ensures
            self.region(grid, sizes, x0, y0, x1, y1, depth) == other.region(
                grid,
                sizes,
                x0,
                y0,
                x1,
                y1,
                depth,
            ),
        decreases sizes.len() - depth, 3int, 0int,
    {
        if x0 >= x1 || y0 >= y1 {
        } else {
            lemma_tiled_len_bounds(y1 - y0, sizes[depth] as int);
            self.lemma_same_rows(
                other,
                grid,
                sizes,
                x0,
                y0,
                x1,
                depth,
                y0 + tiled_len(y1 - y0, sizes[depth] as int),
            );
        }
    }
}

} // verus!
