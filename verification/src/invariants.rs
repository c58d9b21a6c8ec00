//! What holds of every render pass: the canvas keeps its shape, refinement
//! never leaves the size sequence, and every pixel a pass writes holds a
//! colour of the scene.

use vstd::prelude::*;
use crate::canvas::Grid;
use crate::geometry::Tile;
use crate::scene::Scene;
use crate::subdivision::{action_for, tiled_len, BoxAction};

verus! {

impl Scene {
    /// `after` has the shape of `before`, and each of its pixels holds what
    /// `before` held there, the colour of the pixel's count, or the capped
    /// colour.
    pub open spec fn traces(self, before: Grid, after: Grid) -> bool {
        &&& after.width == before.width
        &&& after.height == before.height
        &&& after.wf()
        &&& forall|x: int, y: int|
            before.contains(x, y) ==> {
                let c = #[trigger] after.at(x, y);
                c == before.at(x, y) || c == self.shade(x, y) || c == self.capped_color()
            }
    }

    /// Sampling, flooding and evaluating a box each leave a trace of the
    /// scene on the canvas.
    pub proof fn lemma_steps_trace(self, grid: Grid, tile: Tile)
        requires
            grid.wf(),
        ensures
            self.traces(grid, self.sampled(grid, tile)),
            self.traces(grid, grid.flooded(tile, self.capped_color())),
            self.traces(grid, self.evaluated(grid, tile)),
    {
        let a = self.sampled(grid, tile);
        assert forall|x: int, y: int| grid.contains(x, y) implies {
            let c = #[trigger] a.at(x, y);
            c == grid.at(x, y) || c == self.shade(x, y) || c == self.capped_color()
        } by {
            assert(grid.pixels.dom().contains((x, y)));
        }
        let b = grid.flooded(tile, self.capped_color());
        assert forall|x: int, y: int| grid.contains(x, y) implies {
            let c = #[trigger] b.at(x, y);
            c == grid.at(x, y) || c == self.shade(x, y) || c == self.capped_color()
        } by {
            assert(grid.pixels.dom().contains((x, y)));
        }
        let e = self.evaluated(grid, tile);
        assert forall|x: int, y: int| grid.contains(x, y) implies {
            let c = #[trigger] e.at(x, y);
            c == grid.at(x, y) || c == self.shade(x, y) || c == self.capped_color()
        } by {
            assert(grid.pixels.dom().contains((x, y)));
        }
    }

    /// Traces compose.
    pub proof fn lemma_traces_compose(self, a: Grid, b: Grid, c: Grid)
        requires
            self.traces(a, b),
            self.traces(b, c),
        ensures
            self.traces(a, c),
    {
        assert forall|x: int, y: int| a.contains(x, y) implies {
            let k = #[trigger] c.at(x, y);
            k == a.at(x, y) || k == self.shade(x, y) || k == self.capped_color()
        } by {
            assert(b.contains(x, y));
        }
    }

    /// Subdividing a box keeps the shape of the canvas, writes only colours
    /// of the scene, and samples no box beyond the last size.
    pub proof fn lemma_subdivided_traces(
        self,
        grid: Grid,
        sizes: Seq<u32>,
        x: int,
        y: int,
        depth: int,
    )
        requires
            grid.wf(),
            0 <= depth < sizes.len(),
        ensures
            self.traces(grid, self.subdivided(grid, sizes, x, y, depth).grid),
            depth <= self.subdivided(grid, sizes, x, y, depth).deepest < sizes.len(),
        decreases sizes.len() - depth, 0int, 0int,
    {
        let tile = Tile { x, y, size: sizes[depth] as int };
        let sampled = self.sampled(grid, tile);
        self.lemma_steps_trace(grid, tile);
        self.lemma_steps_trace(sampled, tile);
        match action_for(self.border_min(grid, tile), self.max_iter, depth, sizes.len() as int) {
            BoxAction::Fill => {
                self.lemma_traces_compose(
                    grid,
                    sampled,
                    sampled.flooded(tile, self.capped_color()),
                );
            },
            BoxAction::Recurse => {
                self.lemma_region_traces(
                    sampled,
                    sizes,
                    x,
                    y,
                    x + sizes[depth],
                    y + sizes[depth],
                    depth + 1,
                );
                self.lemma_traces_compose(
                    grid,
                    sampled,
                    self.region(sampled, sizes, x, y, x + sizes[depth], y + sizes[depth], depth + 1).grid,
                );
            },
            BoxAction::Evaluate => {
                self.lemma_traces_compose(grid, sampled, self.evaluated(sampled, tile));
            },
        }
    }

    /// A row of boxes keeps the shape of the canvas, writes only colours of
    /// the scene, and samples no box beyond the last size.
    pub proof fn lemma_row_traces(
        self,
        grid: Grid,
        sizes: Seq<u32>,
        x0: int,
        y: int,
        depth: int,
        x_end: int,
    )
        requires
            grid.wf(),
            0 <= depth < sizes.len(),
        ensures
            self.traces(grid, self.row_until(grid, sizes, x0, y, depth, x_end).grid),
            depth <= self.row_until(grid, sizes, x0, y, depth, x_end).deepest < sizes.len(),
        decreases sizes.len() - depth, 1int, x_end - x0,
    {
        if sizes[depth] <= 0 || x_end - sizes[depth] < x0 {
        } else {
            let before = self.row_until(grid, sizes, x0, y, depth, x_end - sizes[depth]);
            self.lemma_row_traces(grid, sizes, x0, y, depth, x_end - sizes[depth]);
            self.lemma_subdivided_traces(before.grid, sizes, x_end - sizes[depth], y, depth);
            self.lemma_traces_compose(
                grid,
                before.grid,
                self.subdivided(before.grid, sizes, x_end - sizes[depth], y, depth).grid,
            );
        }
    }

    /// A stack of rows keeps the shape of the canvas, writes only colours
    /// of the scene, and samples no box beyond the last size.
    pub proof fn lemma_rows_traces(
        self,
        grid: Grid,
        sizes: Seq<u32>,
        x0: int,
        y0: int,
        x1: int,
        depth: int,
        y_end: int,
    )
        requires
            grid.wf(),
            0 <= depth < sizes.len(),
        ensures
            self.traces(grid, self.rows_until(grid, sizes, x0, y0, x1, depth, y_end).grid),
            depth <= self.rows_until(grid, sizes, x0, y0, x1, depth, y_end).deepest < sizes.len(),
        decreases sizes.len() - depth, 2int, y_end - y0,
    {
        if sizes[depth] <= 0 || y_end - sizes[depth] < y0 {
        } else {
            let before = self.rows_until(grid, sizes, x0, y0, x1, depth, y_end - sizes[depth]);
            let row_end = x0 + tiled_len(x1 - x0, sizes[depth] as int);
            self.lemma_rows_traces(grid, sizes, x0, y0, x1, depth, y_end - sizes[depth]);
            self.lemma_row_traces(before.grid, sizes, x0, y_end - sizes[depth], depth, row_end);
            self.lemma_traces_compose(
                grid,
                before.grid,
                self.row_until(before.grid, sizes, x0, y_end - sizes[depth], depth, row_end).grid,
            );
        }
    }

    /// Rendering a region keeps the shape of the canvas and writes only
    /// colours of the scene; the deepest level at which it samples a box
    /// lies between the starting level and the last size.
    pub proof fn lemma_region_traces(
        self,
        grid: Grid,
        sizes: Seq<u32>,
        x0: int,
        y0: int,
        x1: int,
        y1: int,
        depth: int,
    )
        requires
            grid.wf(),
            0 <= depth < sizes.len(),
        ensures
            self.traces(grid, self.region(grid, sizes, x0, y0, x1, y1, depth).grid),
            depth <= self.region(grid, sizes, x0, y0, x1, y1, depth).deepest < sizes.len(),
        decreases sizes.len() - depth, 3int, 0int,
    {
        if x0 >= x1 || y0 >= y1 {
        } else {
            self.lemma_rows_traces(
                grid,
                sizes,
                x0,
                y0,
                x1,
                depth,
                y0 + tiled_len(y1 - y0, sizes[depth] as int),
            );
        }
    }
}

} // verus!
