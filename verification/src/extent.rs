//! Run-time checks of the geometry of a render pass: how far a region
//! reaches when it is tiled and refined, and whether that stays on a canvas.

use vstd::prelude::*;
use vstd::arithmetic::div_mod::{lemma_basic_div, lemma_div_plus_one};
use crate::canvas::Canvas;
use crate::subdivision::{
    box_span, lemma_tiled_len_bounds, region_fits, sizes_usable, span, tiled_len,
};

verus! {

/// The length that tiles cover is the number of tiles, `len / size` rounded
/// up, times their side.
pub proof fn lemma_tiled_len_closed_form(len: int, size: int)
    requires
        len > 0,
        size > 0,
    ensures
        tiled_len(len, size) == ((len + size - 1) / size) * size,
    decreases len,
{
    if len <= size {
        assert((len + size - 1) / size == 1) by {
            lemma_basic_div(len - 1, size);
            lemma_div_plus_one(len - 1, size);
        }
    } else {
        lemma_tiled_len_closed_form(len - size, size);
        assert((len + size - 1) / size == 1 + (len - 1) / size) by {
            lemma_div_plus_one(len - 1, size);
        }
        assert(((len - size) + size - 1) / size == (len - 1) / size);
        assert((1 + (len - 1) / size) * size == size + ((len - 1) / size) * size)
            by (nonlinear_arith);
    }
}

/// A box reaches at least as far as the first of its sub-boxes does.
pub proof fn lemma_box_span_grows(sizes: Seq<u32>, depth: int)
    requires
        0 <= depth,
        depth + 1 < sizes.len(),
        sizes_usable(sizes),
    ensures
        box_span(sizes, depth) >= box_span(sizes, depth + 1),
{
    lemma_tiled_len_bounds(sizes[depth] as int, sizes[depth + 1] as int);
}

/// The length that tiles of side `size` cover over a stretch of `len`.
pub fn tiled_length(len: u32, size: u32) -> (covered: u64)
    ensures
        covered == tiled_len(len as int, size as int),
{
    if len == 0 || size == 0 {
        return 0;
    }
    proof {
        lemma_tiled_len_closed_form(len as int, size as int);
        lemma_tiled_len_bounds(len as int, size as int);
    }
    let tiles: u64 = (len as u64 + size as u64 - 1) / (size as u64);
    assert(tiles * size == tiled_len(len as int, size as int));
    tiles * (size as u64)
}

/// Whether every box size leaves room for a border.
pub fn sizes_are_usable(sizes: &[u32]) -> (ok: bool)
    ensures
        ok == sizes_usable(sizes@),
{
    let mut i: usize = 0;
    while i < sizes.len()
        invariant
            i <= sizes@.len(),
            forall|j: int| 0 <= j < i ==> #[trigger] sizes@[j] >= 2,
        decreases sizes@.len() - i,
    {
        if sizes[i] < 2 {
            return false;
        }
        i = i + 1;
    }
    true
}

/// How far a box at `depth` can reach along one axis, if that is a
/// coordinate at all: `None` when it is beyond every canvas.
pub fn box_reach(sizes: &[u32], depth: usize) -> (reach: Option<u32>)
    requires
        depth < sizes@.len(),
        sizes_usable(sizes@),
    ensures
        reach is Some <==> box_span(sizes@, depth as int) <= u32::MAX,
        reach is Some ==> reach->0 == box_span(sizes@, depth as int),
{
    let mut level: usize = sizes.len() - 1;
    let mut acc: u32 = sizes[level];
    while level > depth
        invariant
            depth <= level < sizes@.len(),
            sizes_usable(sizes@),
            acc == box_span(sizes@, level as int),
        decreases level,
    {
        let inner: u32 = sizes[level];
        let outer: u32 = sizes[level - 1];
        proof {
            lemma_tiled_len_bounds(outer as int, inner as int);
        }
        let next: u64 = tiled_length(outer, inner) - (inner as u64) + (acc as u64);
        assert(next == box_span(sizes@, level - 1));
        if next > u32::MAX as u64 {
            proof {
                lemma_box_span_monotone(sizes@, depth as int, level - 1);
            }
            return None;
        }
        acc = next as u32;
        level = level - 1;
    }
    Some(acc)
}

/// The further out a box is in the size sequence, the further it reaches.
pub proof fn lemma_box_span_monotone(sizes: Seq<u32>, outer: int, inner: int)
    requires
        0 <= outer <= inner < sizes.len(),
        sizes_usable(sizes),
    ensures
        box_span(sizes, outer) >= box_span(sizes, inner),
    decreases inner - outer,
{
    if outer < inner {
        lemma_box_span_monotone(sizes, outer + 1, inner);
        lemma_box_span_grows(sizes, outer);
    }
}

/// Whether the region from `(startx, starty)` to `(stopx, stopy)` can be
/// rendered at `depth` with the given box sizes: the depth names a size,
/// every size leaves room for a border, and no box leaves the canvas.
pub fn render_fits(
    canvas: &Canvas,
    startx: u32,
    starty: u32,
    stopx: u32,
    stopy: u32,
    depth: usize,
    sizes: &[u32],
) -> (ok: bool)
    ensures
        ok == (depth < sizes@.len() && sizes_usable(sizes@) && region_fits(
            canvas@,
            sizes@,
            startx as int,
            starty as int,
            stopx as int,
            stopy as int,
            depth as int,
        )),
{
    if depth >= sizes.len() || !sizes_are_usable(sizes) {
        return false;
    }
    if startx >= stopx || starty >= stopy {
        return true;
    }
    let size: u32 = sizes[depth];
    proof {
        lemma_tiled_len_bounds(stopx - startx, size as int);
        lemma_tiled_len_bounds(stopy - starty, size as int);
    }
    match box_reach(sizes, depth) {
        None => false,
        Some(reach) => {
            let far_x: u64 = startx as u64 + tiled_length(stopx - startx, size) - (size as u64)
                + (reach as u64);
            let far_y: u64 = starty as u64 + tiled_length(stopy - starty, size) - (size as u64)
                + (reach as u64);
            far_x <= canvas.width() as u64 && far_y <= canvas.height() as u64
        },
    }
}

} // verus!
