//! The border sampler: escape counts along the four edges of one box.

use vstd::prelude::*;
use crate::canvas::{Canvas, Grid};
use crate::color::Color;
use crate::geometry::{PixelBox, Tile};
use crate::scene::{collaborators_callable, Scene};

verus! {

/// Evaluates the kernel at `(x, y)` and stores the colour of its count.
/// Returns the count.
pub fn render_point<K: Fn(u32, u32, u32) -> u32, C: Fn(u32, u32) -> Color>(
    canvas: &mut Canvas,
    x: u32,
    y: u32,
    max_iter: u32,
    kernel: &K,
    colorize: &C,
) -> (count: u32)
    requires
        old(canvas)@.contains(x as int, y as int),
        collaborators_callable(
            *kernel,
            *colorize,
            max_iter,
            old(canvas)@.width,
            old(canvas)@.height,
        ),
    ensures
        final(canvas)@.width == old(canvas)@.width,
        final(canvas)@.height == old(canvas)@.height,
        forall|scene: Scene| #[trigger]
            scene.realized_by(
                *kernel,
                *colorize,
                max_iter,
                old(canvas)@.width,
                old(canvas)@.height,
            ) ==> {
                &&& count == (scene.count)(x as int, y as int)
                &&& final(canvas)@ == old(canvas)@.put(
                    x as int,
                    y as int,
                    scene.shade(x as int, y as int),
                )
            },
{
    let count: u32 = kernel(x, y, max_iter);
    let colour = colorize(count, max_iter);
    canvas.put_pixel(x, y, colour);
    count
}

/// Samples one border pixel. A settled pixel is left alone and counts as
/// zero; any other pixel is evaluated and takes the colour of its count.
/// Returns the effective count and whether the pixel was settled.
pub fn sample_pixel<K: Fn(u32, u32, u32) -> u32, C: Fn(u32, u32) -> Color>(
    canvas: &mut Canvas,
    x: u32,
    y: u32,
    max_iter: u32,
    kernel: &K,
    colorize: &C,
) -> (r: (u32, bool))
    requires
        old(canvas)@.contains(x as int, y as int),
        collaborators_callable(
            *kernel,
            *colorize,
            max_iter,
            old(canvas)@.width,
            old(canvas)@.height,
        ),
    ensures
        final(canvas)@.width == old(canvas)@.width,
        final(canvas)@.height == old(canvas)@.height,
        r.1 == old(canvas)@.at(x as int, y as int).is_settled(),
        r.1 ==> r.0 == 0 && final(canvas)@ == old(canvas)@,
        forall|scene: Scene| #[trigger]
            scene.realized_by(
                *kernel,
                *colorize,
                max_iter,
                old(canvas)@.width,
                old(canvas)@.height,
            ) ==> {
                &&& r.0 == scene.effective_count(old(canvas)@, x as int, y as int)
                &&& final(canvas)@ == old(canvas)@.put(
                    x as int,
                    y as int,
                    scene.resample(old(canvas)@, x as int, y as int),
                )
            },
{
    let current = canvas.get_pixel(x, y);
    if current.settled() {
        proof {
            canvas.lemma_view_wf();
            assert(canvas@.pixels =~= canvas@.put(x as int, y as int, current).pixels);
        }
        (0, true)
    } else {
        let count: u32 = render_point(canvas, x, y, max_iter, kernel, colorize);
        (count, false)
    }
}

/// Samples the border of `b`: every pixel on its four edges, corners once.
///
/// Returns the least effective count on the border, and whether some border
/// pixel was already settled. Afterwards every border pixel that was not
/// settled holds the colour of its count; all other pixels are untouched.
pub fn sample_border<K: Fn(u32, u32, u32) -> u32, C: Fn(u32, u32) -> Color>(
    canvas: &mut Canvas,
    b: PixelBox,
    max_iter: u32,
    kernel: &K,
    colorize: &C,
) -> (r: (u32, bool))
    requires
        b.size >= 2,
        b@.within(old(canvas)@),
        collaborators_callable(
            *kernel,
            *colorize,
            max_iter,
            old(canvas)@.width,
            old(canvas)@.height,
        ),
    ensures
        final(canvas)@.width == old(canvas)@.width,
        final(canvas)@.height == old(canvas)@.height,
        forall|scene: Scene| #[trigger]
            scene.realized_by(
                *kernel,
                *colorize,
                max_iter,
                old(canvas)@.width,
                old(canvas)@.height,
            ) ==> {
                &&& final(canvas)@ == scene.sampled(old(canvas)@, b@)
                &&& r.0 == scene.border_min(old(canvas)@, b@)
                &&& r.1 == scene.border_memoized(old(canvas)@, b@)
            },
{
    let ghost grid = canvas@;
    let ghost tile = b@;
    let ghost width = grid.width;
    let ghost height = grid.height;
    proof {
        canvas.lemma_view_wf();
        assert forall|scene: Scene| #[trigger]
            scene.realized_by(*kernel, *colorize, max_iter, width, height) implies scene.sampling(
            grid,
            tile,
            tile.y,
            tile.x,
            canvas@,
            u32::MAX as int,
            false,
        ) by {
            assert(canvas@.pixels =~= scene.sampled_until(grid, tile, tile.y, tile.x).pixels);
        }
    }
    let mut least: u32 = u32::MAX;
    let mut memo: bool = false;
    let last: u32 = b.size - 1;
    let mut dy: u32 = 0;
    while dy < b.size
        invariant
            dy <= b.size,
            last == b.size - 1,
            b.size >= 2,
            tile == b@,
            grid.wf(),
            tile.within(grid),
            width == grid.width,
            height == grid.height,
            canvas@.width == width,
            canvas@.height == height,
            collaborators_callable(*kernel, *colorize, max_iter, width, height),
            forall|scene: Scene| #[trigger]
                scene.realized_by(*kernel, *colorize, max_iter, width, height)
                    ==> scene.sampling(grid, tile, tile.y + dy, tile.x, canvas@, least as int, memo),
        decreases b.size - dy,
    {
        let y: u32 = b.y + dy;
        if dy == 0 || dy == last {
            let mut dx: u32 = 0;
            while dx < b.size
                invariant
                    dx <= b.size,
                    dy < b.size,
                    dy == 0 || dy == last,
                    last == b.size - 1,
                    y == b.y + dy,
                    tile == b@,
                    grid.wf(),
                    tile.within(grid),
                    width == grid.width,
                    height == grid.height,
                    canvas@.width == width,
                    canvas@.height == height,
                    collaborators_callable(*kernel, *colorize, max_iter, width, height),
                    forall|scene: Scene| #[trigger]
                        scene.realized_by(*kernel, *colorize, max_iter, width, height)
                            ==> scene.sampling(
                            grid,
                            tile,
                            y as int,
                            tile.x + dx,
                            canvas@,
                            least as int,
                            memo,
                        ),
                decreases b.size - dx,
            {
                let x: u32 = b.x + dx;
                let ghost before = canvas@;
                let ghost least0 = least as int;
                let ghost memo0 = memo;
                let (count, settled) = sample_pixel(canvas, x, y, max_iter, kernel, colorize);
                if count < least {
                    least = count;
                }
                memo = memo || settled;
                proof {
                    assert forall|scene: Scene| #[trigger]
                        scene.realized_by(
                            *kernel,
                            *colorize,
                            max_iter,
                            width,
                            height,
                        ) implies scene.sampling(
                        grid,
                        tile,
                        y as int,
                        x + 1,
                        canvas@,
                        least as int,
                        memo,
                    ) by {
                        scene.lemma_sample_step(
                            grid,
                            tile,
                            y as int,
                            x as int,
                            x as int,
                            least0,
                            memo0,
                            before,
                            canvas@,
                            count as int,
                            settled,
                        );
                    }
                }
                dx = dx + 1;
            }
        } else {
            let ghost before = canvas@;
            let ghost least0 = least as int;
            let ghost memo0 = memo;
            let (left, left_settled) = sample_pixel(canvas, b.x, y, max_iter, kernel, colorize);
            if left < least {
                least = left;
            }
            memo = memo || left_settled;
            proof {
                assert forall|scene: Scene| #[trigger]
                    scene.realized_by(
                        *kernel,
                        *colorize,
                        max_iter,
                        width,
                        height,
                    ) implies scene.sampling(
                    grid,
                    tile,
                    y as int,
                    tile.x + 1,
                    canvas@,
                    least as int,
                    memo,
                ) by {
                    scene.lemma_sample_step(
                        grid,
                        tile,
                        y as int,
                        tile.x,
                        tile.x,
                        least0,
                        memo0,
                        before,
                        canvas@,
                        left as int,
                        left_settled,
                    );
                }
            }
            let ghost middle = canvas@;
            let ghost least1 = least as int;
            let ghost memo1 = memo;
            let x: u32 = b.x + last;
            let (right, right_settled) = sample_pixel(canvas, x, y, max_iter, kernel, colorize);
            if right < least {
                least = right;
            }
            memo = memo || right_settled;
            proof {
                assert forall|scene: Scene| #[trigger]
                    scene.realized_by(
                        *kernel,
                        *colorize,
                        max_iter,
                        width,
                        height,
                    ) implies scene.sampling(
                    grid,
                    tile,
                    y as int,
                    tile.x + tile.size,
                    canvas@,
                    least as int,
                    memo,
                ) by {
                    scene.lemma_sample_step(
                        grid,
                        tile,
                        y as int,
                        tile.x + 1,
                        x as int,
                        least1,
                        memo1,
                        middle,
                        canvas@,
                        right as int,
                        right_settled,
                    );
                }
            }
        }
        proof {
            assert forall|scene: Scene| #[trigger]
                scene.realized_by(*kernel, *colorize, max_iter, width, height) implies scene.sampling(
                grid,
                tile,
                y + 1,
                tile.x,
                canvas@,
                least as int,
                memo,
            ) by {
                scene.lemma_row_done(grid, tile, y as int, least as int, memo);
            }
        }
        dy = dy + 1;
    }
    proof {
        assert forall|scene: Scene| #[trigger]
            scene.realized_by(*kernel, *colorize, max_iter, width, height) implies {
            &&& canvas@ == scene.sampled(grid, tile)
            &&& least == scene.border_min(grid, tile)
            &&& memo == scene.border_memoized(grid, tile)
        } by {
            scene.lemma_all_passed(grid, tile, least as int, memo);
        }
    }
    (least, memo)
}

/// Whether the sampler, walking the border of `tile` row by row, has passed
/// `(x, y)` when it stands in row `row` before column `col`.
spec fn passed(tile: Tile, row: int, col: int, x: int, y: int) -> bool {
    tile.on_border(x, y) && (y < row || (y == row && x < col))
}

impl Scene {
    /// The canvas while the sampler stands in row `row` before column `col`.
    spec fn sampled_until(self, grid: Grid, tile: Tile, row: int, col: int) -> Grid {
        grid.overlay(
            |x: int, y: int| passed(tile, row, col, x, y),
            |x: int, y: int| self.resample(grid, x, y),
        )
    }

    /// What the sampler knows of the border pixels it has passed: their
    /// effective counts fit a `u32`; `least` is below all of them and is one
    /// of them, unless it still is the largest count there is; `memo` says
    /// whether one of the pixels was settled.
    spec fn tally(
        self,
        grid: Grid,
        tile: Tile,
        row: int,
        col: int,
        least: int,
        memo: bool,
    ) -> bool {
        &&& forall|x: int, y: int| #[trigger]
            passed(tile, row, col, x, y) ==> least <= self.effective_count(grid, x, y)
                <= u32::MAX
        &&& least == u32::MAX || exists|x: int, y: int| #[trigger]
            passed(tile, row, col, x, y) && self.effective_count(grid, x, y) == least
        &&& memo <==> exists|x: int, y: int| #[trigger]
            passed(tile, row, col, x, y) && grid.at(x, y).is_settled()
    }

    /// The state of the sampler while it stands in row `row` before column
    /// `col`: the canvas it has made, and its tally.
    spec fn sampling(
        self,
        grid: Grid,
        tile: Tile,
        row: int,
        col: int,
        current: Grid,
        least: int,
        memo: bool,
    ) -> bool {
        &&& current == self.sampled_until(grid, tile, row, col)
        &&& self.tally(grid, tile, row, col, least, memo)
    }

    /// Sampling the next border pixel `(x, row)` moves the sampler behind it.
    proof fn lemma_sample_step(
        self,
        grid: Grid,
        tile: Tile,
        row: int,
        col: int,
        x: int,
        least: int,
        memo: bool,
        current: Grid,
        after: Grid,
        count: int,
        settled: bool,
    )
        requires
            grid.wf(),
            tile.within(grid),
            tile.on_border(x, row),
            col <= x,
            forall|c: int| col <= c < x ==> !tile.on_border(c, row),
            self.sampling(grid, tile, row, col, current, least, memo),
            count <= u32::MAX,
            count == self.effective_count(current, x, row),
            settled == current.at(x, row).is_settled(),
            after == current.put(x, row, self.resample(current, x, row)),
        ensures
            self.sampling(
                grid,
                tile,
                row,
                x + 1,
                after,
                if count < least {
                    count
                } else {
                    least
                },
                memo || settled,
            ),
    {
        assert(!passed(tile, row, col, x, row));
        assert(grid.pixels.dom().contains((x, row)));
        assert(passed(tile, row, x + 1, x, row));
        assert forall|px: int, py: int|
            passed(tile, row, x + 1, px, py) <==> (passed(tile, row, col, px, py) || (px == x
                && py == row)) by {}
        assert(after.pixels =~= self.sampled_until(grid, tile, row, x + 1).pixels);
        let least2 = if count < least { count } else { least };
        let memo2 = memo || settled;
        assert forall|px: int, py: int| #[trigger] passed(tile, row, x + 1, px, py) implies least2
            <= self.effective_count(grid, px, py) <= u32::MAX by {
            assert(passed(tile, row, col, px, py) || (px == x && py == row));
        }
        if least != u32::MAX && !(count < least) {
            let (wx, wy) = choose|wx: int, wy: int| #[trigger]
                passed(tile, row, col, wx, wy) && self.effective_count(grid, wx, wy) == least;
            assert(passed(tile, row, x + 1, wx, wy));
        }
        if memo {
            let (wx, wy) = choose|wx: int, wy: int| #[trigger]
                passed(tile, row, col, wx, wy) && grid.at(wx, wy).is_settled();
            assert(passed(tile, row, x + 1, wx, wy));
        }
        if exists|px: int, py: int| #[trigger]
            passed(tile, row, x + 1, px, py) && grid.at(px, py).is_settled() {
            let (wx, wy) = choose|wx: int, wy: int| #[trigger]
                passed(tile, row, x + 1, wx, wy) && grid.at(wx, wy).is_settled();
            assert(passed(tile, row, col, wx, wy) || (wx == x && wy == row));
        }
    }

    /// Behind the last column of a row the sampler stands before the first
    /// column of the next row.
    proof fn lemma_row_done(self, grid: Grid, tile: Tile, row: int, least: int, memo: bool)
        requires
            self.tally(grid, tile, row, tile.x + tile.size, least, memo),
        ensures
            self.sampled_until(grid, tile, row, tile.x + tile.size) == self.sampled_until(
                grid,
                tile,
                row + 1,
                tile.x,
            ),
            self.tally(grid, tile, row + 1, tile.x, least, memo),
    {
        let a = self.sampled_until(grid, tile, row, tile.x + tile.size);
        let b = self.sampled_until(grid, tile, row + 1, tile.x);
        let end_col = tile.x + tile.size;
        let next_row = row + 1;
        assert forall|x: int, y: int| #[trigger]
            passed(tile, row, end_col, x, y) <==> passed(tile, next_row, tile.x, x, y) by {}
        assert(a.pixels =~= b.pixels);
        assert forall|x: int, y: int| #[trigger] passed(tile, row + 1, tile.x, x, y) implies least
            <= self.effective_count(grid, x, y) <= u32::MAX by {
            assert(passed(tile, row, tile.x + tile.size, x, y));
        }
        if least != u32::MAX {
            let (wx, wy) = choose|wx: int, wy: int| #[trigger]
                passed(tile, row, tile.x + tile.size, wx, wy) && self.effective_count(
                    grid,
                    wx,
                    wy,
                ) == least;
            assert(passed(tile, row + 1, tile.x, wx, wy));
        }
        if memo {
            let (wx, wy) = choose|wx: int, wy: int| #[trigger]
                passed(tile, row, tile.x + tile.size, wx, wy) && grid.at(wx, wy).is_settled();
            assert(passed(tile, row + 1, tile.x, wx, wy));
        }
        if exists|x: int, y: int| #[trigger]
            passed(tile, row + 1, tile.x, x, y) && grid.at(x, y).is_settled() {
            let (wx, wy) = choose|wx: int, wy: int| #[trigger]
                passed(tile, row + 1, tile.x, wx, wy) && grid.at(wx, wy).is_settled();
            assert(passed(tile, row, tile.x + tile.size, wx, wy));
        }
    }

    /// Behind the last row the sampler has passed the whole border.
    proof fn lemma_all_passed(self, grid: Grid, tile: Tile, least: int, memo: bool)
        requires
            tile.size >= 2,
            least <= u32::MAX,
            self.tally(grid, tile, tile.y + tile.size, tile.x, least, memo),
        ensures
            self.sampled_until(grid, tile, tile.y + tile.size, tile.x) == self.sampled(
                grid,
                tile,
            ),
            self.border_min(grid, tile) == least,
            self.border_memoized(grid, tile) == memo,
    {
        let a = self.sampled_until(grid, tile, tile.y + tile.size, tile.x);
        let b = self.sampled(grid, tile);
        let end = tile.y + tile.size;
        assert forall|x: int, y: int| #[trigger]
            passed(tile, end, tile.x, x, y) <==> tile.on_border(x, y) by {}
        assert(a.pixels =~= b.pixels);
        assert forall|x: int, y: int| tile.on_border(x, y) implies least
            <= #[trigger] self.effective_count(grid, x, y) by {
            assert(passed(tile, end, tile.x, x, y));
        }
        assert(tile.on_border(tile.x, tile.y));
        if least == u32::MAX {
            assert(passed(tile, end, tile.x, tile.x, tile.y));
            assert(self.effective_count(grid, tile.x, tile.y) == least);
        } else {
            let (wx, wy) = choose|wx: int, wy: int| #[trigger]
                passed(tile, end, tile.x, wx, wy) && self.effective_count(grid, wx, wy) == least;
            assert(tile.on_border(wx, wy));
        }
        assert(self.is_border_min(grid, tile, least));
        self.lemma_border_min_unique(grid, tile, least);
        if memo {
            let (wx, wy) = choose|wx: int, wy: int| #[trigger]
                passed(tile, end, tile.x, wx, wy) && grid.at(wx, wy).is_settled();
            assert(tile.on_border(wx, wy));
        }
        if self.border_memoized(grid, tile) {
            let (wx, wy) = choose|wx: int, wy: int|
                tile.on_border(wx, wy) && #[trigger] grid.at(wx, wy).is_settled();
            assert(passed(tile, end, tile.x, wx, wy));
        }
    }
}

} // verus!
