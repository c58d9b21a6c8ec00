//! The box subdivider: the recursive decision engine of a render pass.

use vstd::prelude::*;
use crate::canvas::Canvas;
use crate::color::Color;
use crate::extent::render_fits;
use crate::fill::{evaluate_interior, flood_interior};
use crate::geometry::PixelBox;
use crate::sampler::sample_border;
use crate::scene::{collaborators_callable, Scene};
use crate::subdivision::{
    action_for, box_fits, box_span, lemma_box_span_bounds, lemma_tiled_len_bounds, region_fits,
    sizes_usable, tiled_len, BoxAction,
};

verus! {

/// Decides what to do with a box at `depth` whose least border count is
/// `min_count`, when there are `levels` box sizes.
pub fn decide(min_count: u32, max_iter: u32, depth: usize, levels: usize) -> (action: BoxAction)
    ensures
        action == action_for(min_count as int, max_iter as int, depth as int, levels as int),
{
    if min_count == max_iter {
        BoxAction::Fill
    } else if levels > 0 && depth < levels - 1 {
        BoxAction::Recurse
    } else {
        BoxAction::Evaluate
    }
}

/// Subdivides the box of level `depth` whose top-left corner is `(x, y)`.
///
/// The border is sampled first. A box whose least border count is the
/// iteration cap has its interior flooded with the capped colour; any other
/// box is tiled with the next size if one remains, and has every interior
/// pixel evaluated if none does. Returns the deepest level at which a box
/// was sampled.
pub fn subdivide<K: Fn(u32, u32, u32) -> u32, C: Fn(u32, u32) -> Color>(
    canvas: &mut Canvas,
    x: u32,
    y: u32,
    depth: usize,
    sizes: &[u32],
    max_iter: u32,
    kernel: &K,
    colorize: &C,
) -> (deepest: usize)
    requires
        depth < sizes@.len(),
        sizes_usable(sizes@),
        box_fits(old(canvas)@, sizes@, x as int, y as int, depth as int),
        collaborators_callable(
            *kernel,
            *colorize,
            max_iter,
            old(canvas)@.width,
            old(canvas)@.height,
        ),
    ensures
        final(canvas)@.width == old(canvas)@.width,
        final(canvas)@.height == old(canvas)@.height,
        depth <= deepest < sizes@.len(),
        forall|scene: Scene| #[trigger]
            scene.realized_by(
                *kernel,
                *colorize,
                max_iter,
                old(canvas)@.width,
                old(canvas)@.height,
            ) ==> {
                &&& final(canvas)@ == scene.subdivided(
                    old(canvas)@,
                    sizes@,
                    x as int,
                    y as int,
                    depth as int,
                ).grid
                &&& deepest == scene.subdivided(
                    old(canvas)@,
                    sizes@,
                    x as int,
                    y as int,
                    depth as int,
                ).deepest
            },
    decreases sizes@.len() - depth, 0int,
{
    let size: u32 = sizes[depth];
    proof {
        lemma_box_span_bounds(sizes@, depth as int);
    }
    let b = PixelBox { x, y, size };
    let (least, _memo) = sample_border(canvas, b, max_iter, kernel, colorize);
    match decide(least, max_iter, depth, sizes.len()) {
        BoxAction::Fill => {
            let capped = colorize(max_iter, max_iter);
            flood_interior(canvas, b, capped);
            depth
        },
        BoxAction::Recurse => {
            render_box(
                canvas,
                x,
                y,
                x + size,
                y + size,
                depth + 1,
                sizes,
                max_iter,
                kernel,
                colorize,
            )
        },
        BoxAction::Evaluate => {
            evaluate_interior(canvas, b, max_iter, kernel, colorize);
            depth
        },
    }
}

/// Renders the region from `(startx, starty)` to `(stopx, stopy)`: tiles it
/// with boxes of level `depth`, row by row from its top-left corner, and
/// subdivides each box in turn. Returns the deepest level at which a box was
/// sampled, or `depth` for an empty region.
pub fn render_box<K: Fn(u32, u32, u32) -> u32, C: Fn(u32, u32) -> Color>(
    canvas: &mut Canvas,
    startx: u32,
    starty: u32,
    stopx: u32,
    stopy: u32,
    depth: usize,
    sizes: &[u32],
    max_iter: u32,
    kernel: &K,
    colorize: &C,
) -> (deepest: usize)
    requires
        depth < sizes@.len(),
        sizes_usable(sizes@),
        region_fits(
            old(canvas)@,
            sizes@,
            startx as int,
            starty as int,
            stopx as int,
            stopy as int,
            depth as int,
        ),
        collaborators_callable(
            *kernel,
            *colorize,
            max_iter,
            old(canvas)@.width,
            old(canvas)@.height,
        ),
    ensures
        final(canvas)@.width == old(canvas)@.width,
        final(canvas)@.height == old(canvas)@.height,
        depth <= deepest < sizes@.len(),
        forall|scene: Scene| #[trigger]
            scene.realized_by(
                *kernel,
                *colorize,
                max_iter,
                old(canvas)@.width,
                old(canvas)@.height,
            ) ==> {
                &&& final(canvas)@ == scene.region(
                    old(canvas)@,
                    sizes@,
                    startx as int,
                    starty as int,
                    stopx as int,
                    stopy as int,
                    depth as int,
                ).grid
                &&& deepest == scene.region(
                    old(canvas)@,
                    sizes@,
                    startx as int,
                    starty as int,
                    stopx as int,
                    stopy as int,
                    depth as int,
                ).deepest
            },
    decreases sizes@.len() - depth, 1int,
{
    if startx >= stopx || starty >= stopy {
        return depth;
    }
    let size: u32 = sizes[depth];
    let ghost grid = canvas@;
    let ghost width = grid.width;
    let ghost height = grid.height;
    let ghost x_end = startx + tiled_len(stopx - startx, size as int);
    let ghost y_end = starty + tiled_len(stopy - starty, size as int);
    proof {
        lemma_box_span_bounds(sizes@, depth as int);
        lemma_tiled_len_bounds(stopx - startx, size as int);
        lemma_tiled_len_bounds(stopy - starty, size as int);
    }
    let mut deepest: usize = depth;
    let mut yb: u32 = starty;
    while yb < stopy
        invariant
            depth < sizes@.len(),
            sizes_usable(sizes@),
            size == sizes@[depth as int],
            size >= 2,
            startx < stopx,
            starty <= yb,
            width == grid.width,
            height == grid.height,
            collaborators_callable(*kernel, *colorize, max_iter, width, height),
            x_end == startx + tiled_len(stopx - startx, size as int),
            y_end == starty + tiled_len(stopy - starty, size as int),
            yb + tiled_len(stopy - yb, size as int) == y_end,
            x_end - size + box_span(sizes@, depth as int) <= width,
            y_end - size + box_span(sizes@, depth as int) <= height,
            box_span(sizes@, depth as int) >= size,
            canvas@.width == width,
            canvas@.height == height,
            depth <= deepest < sizes@.len(),
            forall|scene: Scene| #[trigger]
                scene.realized_by(*kernel, *colorize, max_iter, width, height) ==> {
                    &&& canvas@ == scene.rows_until(
                        grid,
                        sizes@,
                        startx as int,
                        starty as int,
                        stopx as int,
                        depth as int,
                        yb as int,
                    ).grid
                    &&& deepest == scene.rows_until(
                        grid,
                        sizes@,
                        startx as int,
                        starty as int,
                        stopx as int,
                        depth as int,
                        yb as int,
                    ).deepest
                },
        decreases y_end - yb,
    {
        let ghost row_start = canvas@;
        let mut row_deepest: usize = depth;
        let mut xb: u32 = startx;
        proof {
            lemma_tiled_len_bounds(stopy - yb, size as int);
        }
        while xb < stopx
            invariant
                depth < sizes@.len(),
                sizes_usable(sizes@),
                size == sizes@[depth as int],
                size >= 2,
                startx <= xb,
                yb < stopy,
                width == grid.width,
                height == grid.height,
                collaborators_callable(*kernel, *colorize, max_iter, width, height),
                x_end == startx + tiled_len(stopx - startx, size as int),
                xb + tiled_len(stopx - xb, size as int) == x_end,
                x_end - size + box_span(sizes@, depth as int) <= width,
                yb + box_span(sizes@, depth as int) <= height,
                box_span(sizes@, depth as int) >= size,
                canvas@.width == width,
                canvas@.height == height,
                depth <= row_deepest < sizes@.len(),
                forall|scene: Scene| #[trigger]
                    scene.realized_by(*kernel, *colorize, max_iter, width, height) ==> {
                        &&& canvas@ == scene.row_until(
                            row_start,
                            sizes@,
                            startx as int,
                            yb as int,
                            depth as int,
                            xb as int,
                        ).grid
                        &&& row_deepest == scene.row_until(
                            row_start,
                            sizes@,
                            startx as int,
                            yb as int,
                            depth as int,
                            xb as int,
                        ).deepest
                    },
            decreases x_end - xb,
        {
            proof {
                lemma_tiled_len_bounds(stopx - xb, size as int);
            }
            let d: usize = subdivide(canvas, xb, yb, depth, sizes, max_iter, kernel, colorize);
            if d > row_deepest {
                row_deepest = d;
            }
            xb = xb + size;
        }
        if row_deepest > deepest {
            deepest = row_deepest;
        }
        yb = yb + size;
    }
    deepest
}

/// Renders the whole canvas, tiled with boxes of level `depth`, if the
/// geometry allows it.
///
/// Returns `None`, and leaves the canvas as it was, when `depth` names no
/// box size, when some size is below 2, or when a box would leave the
/// canvas. Otherwise renders the canvas as `render_box` does and returns the
/// deepest level at which a box was sampled.
pub fn render<K: Fn(u32, u32, u32) -> u32, C: Fn(u32, u32) -> Color>(
    canvas: &mut Canvas,
    depth: usize,
    sizes: &[u32],
    max_iter: u32,
    kernel: &K,
    colorize: &C,
) -> (deepest: Option<usize>)
    requires
        collaborators_callable(
            *kernel,
            *colorize,
            max_iter,
            old(canvas)@.width,
            old(canvas)@.height,
        ),
    ensures
        final(canvas)@.width == old(canvas)@.width,
        final(canvas)@.height == old(canvas)@.height,
        deepest is Some <==> depth < sizes@.len() && sizes_usable(sizes@) && region_fits(
            old(canvas)@,
            sizes@,
            0,
            0,
            old(canvas)@.width,
            old(canvas)@.height,
            depth as int,
        ),
        deepest is None ==> final(canvas)@ == old(canvas)@,
        forall|scene: Scene| #[trigger]
            scene.realized_by(
                *kernel,
                *colorize,
                max_iter,
                old(canvas)@.width,
                old(canvas)@.height,
            ) && deepest is Some ==> {
                &&& final(canvas)@ == scene.region(
                    old(canvas)@,
                    sizes@,
                    0,
                    0,
                    old(canvas)@.width,
                    old(canvas)@.height,
                    depth as int,
                ).grid
                &&& deepest->0 == scene.region(
                    old(canvas)@,
                    sizes@,
                    0,
                    0,
                    old(canvas)@.width,
                    old(canvas)@.height,
                    depth as int,
                ).deepest
            },
{
    let width: u32 = canvas.width();
    let height: u32 = canvas.height();
    if !render_fits(canvas, 0, 0, width, height, depth, sizes) {
        return None;
    }
    Some(render_box(canvas, 0, 0, width, height, depth, sizes, max_iter, kernel, colorize))
}

} // verus!
