//! What the box subdivider makes of a canvas, as a function of the scene and
//! of the box sizes.

use vstd::prelude::*;
use crate::canvas::Grid;
use crate::geometry::Tile;
use crate::scene::Scene;

verus! {

/// What the subdivider does with a box once its border has been sampled.
#[derive(Clone, Copy, Debug, PartialEq, Eq, Structural)]
pub enum BoxAction {
    /// The whole border is capped: flood the interior with the capped colour.
    Fill,
    /// The border shows detail and a smaller box size remains: tile the box
    /// with the next size.
    Recurse,
    /// The border shows detail and no smaller size remains: evaluate every
    /// interior pixel.
    Evaluate,
}

/// The action for a box at `depth` whose least border count is `min_count`,
/// when there are `levels` box sizes.
pub open spec fn action_for(min_count: int, max_iter: int, depth: int, levels: int) -> BoxAction {
    if min_count == max_iter {
        BoxAction::Fill
    } else if depth + 1 < levels {
        BoxAction::Recurse
    } else {
        BoxAction::Evaluate
    }
}

/// The result of a stretch of subdivision: the canvas, and the deepest level
/// at which a box was sampled (the starting level where none was).
pub struct Outcome {
    pub grid: Grid,
    pub deepest: int,
}

/// The length that tiles of side `size` cover when they are laid from the
/// start of a stretch of `len` pixels until the stretch is used up: the
/// least multiple of `size` that is not below `len`.
pub open spec fn tiled_len(len: int, size: int) -> int
    decreases len,
{
    if len <= 0 || size <= 0 {
        0
    } else if len <= size {
        size
    } else {
        size + tiled_len(len - size, size)
    }
}

/// How far, from its corner, a box at `depth` can reach along one axis when
/// every box in it is refined down to the last size. Sub-boxes are laid
/// from the corner of their parent and overhang it where the parent's size
/// is no multiple of theirs.
pub open spec fn box_span(sizes: Seq<u32>, depth: int) -> int
    decreases sizes.len() - depth,
{
    if 0 <= depth && depth + 1 < sizes.len() {
        tiled_len(sizes[depth] as int, sizes[depth + 1] as int) - sizes[depth + 1] + box_span(
            sizes,
            depth + 1,
        )
    } else {
        sizes[depth] as int
    }
}

/// How far, from its start, a stretch of `len` pixels that is tiled at
/// `depth` can reach along one axis.
pub open spec fn span(sizes: Seq<u32>, len: int, depth: int) -> int {
    if len <= 0 {
        0
    } else {
        tiled_len(len, sizes[depth] as int) - sizes[depth] + box_span(sizes, depth)
    }
}

/// Every box size leaves room for a border.
pub open spec fn sizes_usable(sizes: Seq<u32>) -> bool {
    forall|i: int| 0 <= i < sizes.len() ==> #[trigger] sizes[i] >= 2
}

/// Whether subdividing the box at `(x, y)` of level `depth` stays on `grid`.
pub open spec fn box_fits(grid: Grid, sizes: Seq<u32>, x: int, y: int, depth: int) -> bool {
    x + box_span(sizes, depth) <= grid.width && y + box_span(sizes, depth) <= grid.height
}

/// Whether rendering the region from `(x0, y0)` to `(x1, y1)`, tiled at
/// level `depth`, stays on `grid`. An empty region always does.
pub open spec fn region_fits(
    grid: Grid,
    sizes: Seq<u32>,
    x0: int,
    y0: int,
    x1: int,
    y1: int,
    depth: int,
) -> bool {
    x0 < x1 && y0 < y1 ==> x0 + span(sizes, x1 - x0, depth) <= grid.width && y0 + span(
        sizes,
        y1 - y0,
        depth,
    ) <= grid.height
}

impl Scene {
    /// The outcome of subdividing the box of level `depth` whose corner is
    /// `(x, y)`: its border is sampled, then the box is flooded, tiled with
    /// the next size, or evaluated.
    pub open spec fn subdivided(self, grid: Grid, sizes: Seq<u32>, x: int, y: int, depth: int)
        -> Outcome
        decreases sizes.len() - depth, 0int, 0int,
    {
        let tile = Tile { x, y, size: sizes[depth] as int };
        let sampled = self.sampled(grid, tile);
        match action_for(self.border_min(grid, tile), self.max_iter, depth, sizes.len() as int) {
            BoxAction::Fill => Outcome {
                grid: sampled.flooded(tile, self.capped_color()),
                deepest: depth,
            },
            BoxAction::Recurse => self.region(
                sampled,
                sizes,
                x,
                y,
                x + sizes[depth],
                y + sizes[depth],
                depth + 1,
            ),
            BoxAction::Evaluate => Outcome { grid: self.evaluated(sampled, tile), deepest: depth },
        }
    }

    /// The outcome of subdividing, from left to right, the boxes of the row
    /// at `y` whose corners lie between `x0` and `x_end`.
    pub open spec fn row_until(
        self,
        grid: Grid,
        sizes: Seq<u32>,
        x0: int,
        y: int,
        depth: int,
        x_end: int,
    ) -> Outcome
        decreases sizes.len() - depth, 1int, x_end - x0,
    {
        if sizes[depth] <= 0 || x_end - sizes[depth] < x0 {
            Outcome { grid, deepest: depth }
        } else {
            let before = self.row_until(grid, sizes, x0, y, depth, x_end - sizes[depth]);
            let here = self.subdivided(before.grid, sizes, x_end - sizes[depth], y, depth);
            Outcome {
                grid: here.grid,
                deepest: if here.deepest > before.deepest {
                    here.deepest
                } else {
                    before.deepest
                },
            }
        }
    }

    /// The outcome of rendering, from top to bottom, the rows of boxes whose
    /// corners lie between `y0` and `y_end`; each row covers `x0` to `x1`.
    pub open spec fn rows_until(
        self,
        grid: Grid,
        sizes: Seq<u32>,
        x0: int,
        y0: int,
        x1: int,
        depth: int,
        y_end: int,
    ) -> Outcome
        decreases sizes.len() - depth, 2int, y_end - y0,
    {
        if sizes[depth] <= 0 || y_end - sizes[depth] < y0 {
            Outcome { grid, deepest: depth }
        } else {
            let before = self.rows_until(grid, sizes, x0, y0, x1, depth, y_end - sizes[depth]);
            let here = self.row_until(
                before.grid,
                sizes,
                x0,
                y_end - sizes[depth],
                depth,
                x0 + tiled_len(x1 - x0, sizes[depth] as int),
            );
            Outcome {
                grid: here.grid,
                deepest: if here.deepest > before.deepest {
                    here.deepest
                } else {
                    before.deepest
                },
            }
        }
    }

    /// The outcome of rendering the region from `(x0, y0)` to `(x1, y1)`:
    /// it is tiled with boxes of level `depth`, laid row by row from its
    /// top-left corner, and each box is subdivided in turn.
    pub open spec fn region(
        self,
        grid: Grid,
        sizes: Seq<u32>,
        x0: int,
        y0: int,
        x1: int,
        y1: int,
        depth: int,
    ) -> Outcome
        decreases sizes.len() - depth, 3int, 0int,
    {
        if x0 >= x1 || y0 >= y1 {
            Outcome { grid, deepest: depth }
        } else {
            self.rows_until(
                grid,
                sizes,
                x0,
                y0,
                x1,
                depth,
                y0 + tiled_len(y1 - y0, sizes[depth] as int),
            )
        }
    }
}

/// Tiles cover the stretch they are laid over, and at least one tile.
pub proof fn lemma_tiled_len_bounds(len: int, size: int)
    requires
        len > 0,
        size > 0,
    ensures
        tiled_len(len, size) >= len,
        tiled_len(len, size) >= size,
        tiled_len(len, size) < len + size,
    decreases len,
{
    if len > size {
        lemma_tiled_len_bounds(len - size, size);
    }
}

/// A box reaches at least as far as its own side.
pub proof fn lemma_box_span_bounds(sizes: Seq<u32>, depth: int)
    requires
        0 <= depth < sizes.len(),
        sizes_usable(sizes),
    ensures
        box_span(sizes, depth) >= sizes[depth],
    decreases sizes.len() - depth,
{
    if depth + 1 < sizes.len() {
        lemma_box_span_bounds(sizes, depth + 1);
        lemma_tiled_len_bounds(sizes[depth] as int, sizes[depth + 1] as int);
    }
}

} // verus!
