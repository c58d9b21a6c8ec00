//! What the escape-time kernel and the colour mapper contribute to a render
//! pass, and the effect of sampling, flooding and evaluating a box.

use vstd::prelude::*;
use crate::canvas::Grid;
use crate::color::Color;
use crate::geometry::Tile;

verus! {

/// What the collaborators of a render pass make of the image: the iteration
/// cap, the escape count of every pixel and the colour of every count.
///
/// The escape-time kernel and the colour mapper are handed to the renderer
/// as functions. The renderer's contracts speak of every scene that the two
/// realise, see [`Scene::realized_by`].
pub struct Scene {
    pub max_iter: int,
    pub count: spec_fn(int, int) -> nat,
    pub paint: spec_fn(int) -> Color,
}

/// The collaborators can be called wherever a render pass on a canvas of
/// the given dimensions may call them: the kernel on every pixel, the colour
/// mapper on every count.
pub open spec fn collaborators_callable<K: Fn(u32, u32, u32) -> u32, C: Fn(u32, u32) -> Color>(
    kernel: K,
    colorize: C,
    max_iter: u32,
    width: int,
    height: int,
) -> bool {
    &&& forall|x: u32, y: u32|
        x < width && y < height ==> #[trigger] call_requires(kernel, (x, y, max_iter))
    &&& forall|n: u32| #[trigger] call_requires(colorize, (n, max_iter))
}

impl Grid {
    /// The canvas after the interior of `tile` has been flooded with `c`.
    pub open spec fn flooded(self, tile: Tile, c: Color) -> Grid {
        self.overlay(|x: int, y: int| tile.in_interior(x, y), |x: int, y: int| c)
    }
}

impl Scene {
    /// The collaborators realise the scene on a canvas of the given
    /// dimensions: whatever the kernel returns for a pixel of the canvas is
    /// the scene's count of that pixel, and whatever the colour mapper
    /// returns for a count is the scene's colour of that count.
    ///
    /// Collaborators that are functions of their arguments realise a scene;
    /// a kernel that can return two counts for one pixel realises none.
    pub open spec fn realized_by<K: Fn(u32, u32, u32) -> u32, C: Fn(u32, u32) -> Color>(
        self,
        kernel: K,
        colorize: C,
        max_iter: u32,
        width: int,
        height: int,
    ) -> bool {
        &&& self.max_iter == max_iter
        &&& forall|x: u32, y: u32, c: u32|
            x < width && y < height && #[trigger] call_ensures(kernel, (x, y, max_iter), c) ==> c
                == (self.count)(x as int, y as int)
        &&& forall|n: u32, c: Color| #[trigger]
            call_ensures(colorize, (n, max_iter), c) ==> c == (self.paint)(n as int)
    }

    /// The colour the scene gives to pixel `(x, y)`.
    pub open spec fn shade(self, x: int, y: int) -> Color {
        (self.paint)((self.count)(x, y) as int)
    }

    /// The colour of a pixel whose count is the iteration cap.
    pub open spec fn capped_color(self) -> Color {
        (self.paint)(self.max_iter)
    }

    /// The count with which a border pixel enters the minimum: zero where the
    /// canvas already holds a settled colour, the kernel's count elsewhere.
    pub open spec fn effective_count(self, grid: Grid, x: int, y: int) -> nat {
        if grid.at(x, y).is_settled() {
            0
        } else {
            (self.count)(x, y)
        }
    }

    /// The colour a border pixel holds after sampling: a settled colour
    /// stays, any other pixel takes the colour of its count.
    pub open spec fn resample(self, grid: Grid, x: int, y: int) -> Color {
        if grid.at(x, y).is_settled() {
            grid.at(x, y)
        } else {
            self.shade(x, y)
        }
    }

    /// The canvas after the border of `tile` has been sampled.
    pub open spec fn sampled(self, grid: Grid, tile: Tile) -> Grid {
        grid.overlay(|x: int, y: int| tile.on_border(x, y), |x: int, y: int| self.resample(grid, x, y))
    }

    /// `m` is the least effective count on the border of `tile`.
    pub open spec fn is_border_min(self, grid: Grid, tile: Tile, m: int) -> bool {
        &&& exists|x: int, y: int|
            tile.on_border(x, y) && #[trigger] self.effective_count(grid, x, y) == m
        &&& forall|x: int, y: int|
            tile.on_border(x, y) ==> m <= #[trigger] self.effective_count(grid, x, y)
    }

    /// The least effective count on the border of `tile`.
    pub open spec fn border_min(self, grid: Grid, tile: Tile) -> int {
        choose|m: int| self.is_border_min(grid, tile, m)
    }

    /// Whether some border pixel of `tile` already holds a settled colour.
    pub open spec fn border_memoized(self, grid: Grid, tile: Tile) -> bool {
        exists|x: int, y: int| tile.on_border(x, y) && #[trigger] grid.at(x, y).is_settled()
    }

    /// The canvas after every interior pixel of `tile` has been evaluated.
    pub open spec fn evaluated(self, grid: Grid, tile: Tile) -> Grid {
        grid.overlay(|x: int, y: int| tile.in_interior(x, y), |x: int, y: int| self.shade(x, y))
    }

    /// A border minimum is unique, so it is the one `border_min` names.
    pub proof fn lemma_border_min_unique(self, grid: Grid, tile: Tile, m: int)
        requires
            self.is_border_min(grid, tile, m),
        ensures
            self.border_min(grid, tile) == m,
    {
        let k = self.border_min(grid, tile);
        assert(self.is_border_min(grid, tile, k));
        let (x1, y1) = choose|x: int, y: int|
            tile.on_border(x, y) && #[trigger] self.effective_count(grid, x, y) == m;
        let (x2, y2) = choose|x: int, y: int|
            tile.on_border(x, y) && #[trigger] self.effective_count(grid, x, y) == k;
        assert(k <= self.effective_count(grid, x1, y1));
        assert(m <= self.effective_count(grid, x2, y2));
    }
}

} // verus!
