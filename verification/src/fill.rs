//! Writing whole rectangles of pixels: flooding with one colour, and
//! evaluating every pixel.

use vstd::prelude::*;
use crate::canvas::{Canvas, Grid};
use crate::color::Color;
use crate::geometry::{PixelBox, Rect, Tile};
use crate::sampler::render_point;
use crate::scene::{collaborators_callable, Scene};

verus! {

/// Whether a row-by-row walk over `rect` has passed `(px, py)` when it
/// stands in row `row` before column `col`.
spec fn walked(rect: Rect, row: int, col: int, px: int, py: int) -> bool {
    rect.covers(px, py) && (py < row || (py == row && px < col))
}

impl Grid {
    /// The grid with every pixel of `rect` set to `c`.
    pub open spec fn filled(self, rect: Rect, c: Color) -> Grid {
        self.overlay(|x: int, y: int| rect.covers(x, y), |x: int, y: int| c)
    }

    /// The grid while a row-by-row walk that writes `ink` over `rect` stands
    /// in row `row` before column `col`.
    spec fn inked_until(
        self,
        rect: Rect,
        ink: spec_fn(int, int) -> Color,
        row: int,
        col: int,
    ) -> Grid {
        self.overlay(|x: int, y: int| walked(rect, row, col, x, y), ink)
    }

    /// Writing the pixel the walk stands before moves the walk one column on.
    proof fn lemma_ink_step(
        self,
        rect: Rect,
        ink: spec_fn(int, int) -> Color,
        row: int,
        col: int,
    )
        requires
            self.wf(),
            rect.within(self),
            rect.covers(col, row),
        ensures
            self.inked_until(rect, ink, row, col).put(col, row, ink(col, row))
                == self.inked_until(rect, ink, row, col + 1),
    {
        let a = self.inked_until(rect, ink, row, col).put(col, row, ink(col, row));
        let b = self.inked_until(rect, ink, row, col + 1);
        assert(self.pixels.dom().contains((col, row)));
        assert(a.pixels =~= b.pixels);
    }

    /// Behind the last column of a row the walk stands before the first
    /// column of the next row.
    proof fn lemma_ink_row_done(self, rect: Rect, ink: spec_fn(int, int) -> Color, row: int)
        ensures
            self.inked_until(rect, ink, row, rect.x + rect.width) == self.inked_until(
                rect,
                ink,
                row + 1,
                rect.x,
            ),
    {
        let a = self.inked_until(rect, ink, row, rect.x + rect.width);
        let b = self.inked_until(rect, ink, row + 1, rect.x);
        assert(a.pixels =~= b.pixels);
    }

    /// Before the first row nothing is written; behind the last row the
    /// whole rectangle is.
    proof fn lemma_ink_ends(self, rect: Rect, ink: spec_fn(int, int) -> Color)
        requires
            self.wf(),
        ensures
            self.inked_until(rect, ink, rect.y, rect.x) == self,
            self.inked_until(rect, ink, rect.y + rect.height, rect.x) == self.overlay(
                |x: int, y: int| rect.covers(x, y),
                ink,
            ),
    {
        let a = self.inked_until(rect, ink, rect.y, rect.x);
        assert(a.pixels =~= self.pixels);
        let b = self.inked_until(rect, ink, rect.y + rect.height, rect.x);
        let c = self.overlay(|x: int, y: int| rect.covers(x, y), ink);
        assert(b.pixels =~= c.pixels);
    }
}

/// Sets every pixel of the rectangle at `(x, y)` with the given width and
/// height to `colour`.
pub fn draw_square(canvas: &mut Canvas, x: u32, y: u32, width: u32, height: u32, colour: Color)
    requires
        x + width <= old(canvas)@.width,
        y + height <= old(canvas)@.height,
    ensures
        final(canvas)@ == old(canvas)@.filled(
            Rect { x: x as int, y: y as int, width: width as int, height: height as int },
            colour,
        ),
{
    let ghost grid = canvas@;
    let ghost rect = Rect { x: x as int, y: y as int, width: width as int, height: height as int };
    let ghost ink = |px: int, py: int| colour;
    proof {
        canvas.lemma_view_wf();
        grid.lemma_ink_ends(rect, ink);
    }
    let mut dy: u32 = 0;
    while dy < height
        invariant
            dy <= height,
            grid.wf(),
            rect.within(grid),
            rect == (Rect { x: x as int, y: y as int, width: width as int, height: height as int }),
            ink == (|px: int, py: int| colour),
            canvas@ == grid.inked_until(rect, ink, y + dy, x as int),
        decreases height - dy,
    {
        let mut dx: u32 = 0;
        while dx < width
            invariant
                dx <= width,
                dy < height,
                grid.wf(),
                rect.within(grid),
                rect == (Rect {
                    x: x as int,
                    y: y as int,
                    width: width as int,
                    height: height as int,
                }),
                ink == (|px: int, py: int| colour),
                canvas@ == grid.inked_until(rect, ink, y + dy, x + dx),
            decreases width - dx,
        {
            canvas.put_pixel(x + dx, y + dy, colour);
            proof {
                grid.lemma_ink_step(rect, ink, y + dy, x + dx);
            }
            dx = dx + 1;
        }
        proof {
            grid.lemma_ink_row_done(rect, ink, y + dy);
        }
        dy = dy + 1;
    }
    proof {
        grid.lemma_ink_ends(rect, ink);
    }
}

impl Grid {
    /// Flooding the interior of a tile writes exactly the rectangle inside
    /// its border.
    pub proof fn lemma_flooded_rect(self, tile: Tile, c: Color)
        ensures
            self.flooded(tile, c) == self.filled(tile.interior(), c),
    {
        assert(self.flooded(tile, c).pixels =~= self.filled(tile.interior(), c).pixels);
    }
}

impl Scene {
    /// The canvas while a row-by-row walk that evaluates every pixel of
    /// `rect` stands in row `row` before column `col`.
    spec fn evaluated_until(self, grid: Grid, rect: Rect, row: int, col: int) -> Grid {
        grid.inked_until(rect, |x: int, y: int| self.shade(x, y), row, col)
    }

    /// Evaluating the interior of a tile writes exactly the rectangle inside
    /// its border.
    pub proof fn lemma_evaluated_rect(self, grid: Grid, tile: Tile)
        ensures
            self.evaluated(grid, tile) == grid.overlay(
                |x: int, y: int| tile.interior().covers(x, y),
                |x: int, y: int| self.shade(x, y),
            ),
    {
        assert(self.evaluated(grid, tile).pixels =~= grid.overlay(
            |x: int, y: int| tile.interior().covers(x, y),
            |x: int, y: int| self.shade(x, y),
        ).pixels);
    }
}

/// Floods the interior of `b` with `colour`. The border is left alone.
pub fn flood_interior(canvas: &mut Canvas, b: PixelBox, colour: Color)
    requires
        b.size >= 2,
        b@.within(old(canvas)@),
    ensures
        final(canvas)@ == old(canvas)@.flooded(b@, colour),
{
    proof {
        old(canvas)@.lemma_flooded_rect(b@, colour);
    }
    draw_square(canvas, b.x + 1, b.y + 1, b.size - 2, b.size - 2, colour);
}

/// Evaluates every interior pixel of `b` and stores the colour of its count,
/// whatever the canvas held there. The border is left alone.
pub fn evaluate_interior<K: Fn(u32, u32, u32) -> u32, C: Fn(u32, u32) -> Color>(
    canvas: &mut Canvas,
    b: PixelBox,
    max_iter: u32,
    kernel: &K,
    colorize: &C,
)
    requires
        b.size >= 2,
        b@.within(old(canvas)@),
        collaborators_callable(
            *kernel,
            *colorize,
            max_iter,
            old(canvas)@.width,
            old(canvas)@.height,
        ),
    ensures
        final(canvas)@.width == old(canvas)@.width,
        final(canvas)@.height == old(canvas)@.height,
        forall|scene: Scene| #[trigger]
            scene.realized_by(
                *kernel,
                *colorize,
                max_iter,
                old(canvas)@.width,
                old(canvas)@.height,
            ) ==> final(canvas)@ == scene.evaluated(old(canvas)@, b@),
{
    let ghost grid = canvas@;
    let ghost rect = b@.interior();
    let ghost width = grid.width;
    let ghost height = grid.height;
    proof {
        canvas.lemma_view_wf();
        assert forall|scene: Scene| #[trigger]
            scene.realized_by(*kernel, *colorize, max_iter, width, height) implies canvas@
            == scene.evaluated_until(grid, rect, rect.y, rect.x) by {
            grid.lemma_ink_ends(rect, |x: int, y: int| scene.shade(x, y));
        }
    }
    let x0: u32 = b.x + 1;
    let y0: u32 = b.y + 1;
    let side: u32 = b.size - 2;
    let mut dy: u32 = 0;
    while dy < side
        invariant
            dy <= side,
            grid.wf(),
            rect.within(grid),
            rect == (Rect { x: x0 as int, y: y0 as int, width: side as int, height: side as int }),
            width == grid.width,
            height == grid.height,
            canvas@.width == width,
            canvas@.height == height,
            collaborators_callable(*kernel, *colorize, max_iter, width, height),
            forall|scene: Scene| #[trigger]
                scene.realized_by(*kernel, *colorize, max_iter, width, height) ==> canvas@
                    == scene.evaluated_until(grid, rect, y0 + dy, x0 as int),
        decreases side - dy,
    {
        let mut dx: u32 = 0;
        while dx < side
            invariant
                dx <= side,
                dy < side,
                grid.wf(),
                rect.within(grid),
                rect == (Rect {
                    x: x0 as int,
                    y: y0 as int,
                    width: side as int,
                    height: side as int,
                }),
                width == grid.width,
                height == grid.height,
                canvas@.width == width,
                canvas@.height == height,
                collaborators_callable(*kernel, *colorize, max_iter, width, height),
                forall|scene: Scene| #[trigger]
                    scene.realized_by(*kernel, *colorize, max_iter, width, height) ==> canvas@
                        == scene.evaluated_until(grid, rect, y0 + dy, x0 + dx),
            decreases side - dx,
        {
            render_point(canvas, x0 + dx, y0 + dy, max_iter, kernel, colorize);
            proof {
                assert forall|scene: Scene| #[trigger]
                    scene.realized_by(*kernel, *colorize, max_iter, width, height) implies canvas@
                    == scene.evaluated_until(grid, rect, y0 + dy, x0 + dx + 1) by {
                    grid.lemma_ink_step(rect, |x: int, y: int| scene.shade(x, y), y0 + dy, x0 + dx);
                }
            }
            dx = dx + 1;
        }
        proof {
            assert forall|scene: Scene| #[trigger]
                scene.realized_by(*kernel, *colorize, max_iter, width, height) implies canvas@
                == scene.evaluated_until(grid, rect, y0 + dy + 1, x0 as int) by {
                grid.lemma_ink_row_done(rect, |x: int, y: int| scene.shade(x, y), y0 + dy);
            }
        }
        dy = dy + 1;
    }
    proof {
        assert forall|scene: Scene| #[trigger]
            scene.realized_by(*kernel, *colorize, max_iter, width, height) implies canvas@
            == scene.evaluated(grid, b@) by {
            grid.lemma_ink_ends(rect, |x: int, y: int| scene.shade(x, y));
            scene.lemma_evaluated_rect(grid, b@);
        }
    }
}

} // verus!
