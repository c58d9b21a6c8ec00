//! Laws of the border sampler and of the subdivider's decision.

use vstd::prelude::*;
use crate::canvas::Grid;
use crate::geometry::Tile;
use crate::scene::Scene;
use crate::subdivision::{action_for, BoxAction};

verus! {

impl Scene {
    /// Every colour the colour mapper yields counts as computed.
    pub open spec fn paints_computed(self) -> bool {
        forall|n: int| #[trigger] (self.paint)(n).is_computed()
    }

    /// Border before interior. Once the border of a box has been sampled,
    /// every border pixel is computed, and no pixel off the border has been
    /// touched. Flooding or evaluating the box afterwards leaves the border
    /// as the sampler left it.
    ///
    /// This needs a colour mapper whose colours count as computed: a mapper
    /// that yields a colour with zero alpha leaves the pixel unset.
    pub proof fn lemma_border_before_interior(self, grid: Grid, tile: Tile)
        requires
            grid.wf(),
            tile.within(grid),
            self.paints_computed(),
        ensures
            forall|x: int, y: int|
                tile.on_border(x, y) ==> #[trigger] self.sampled(grid, tile).at(
                    x,
                    y,
                ).is_computed(),
            forall|x: int, y: int|
                grid.contains(x, y) && !tile.on_border(x, y) ==> #[trigger] self.sampled(
                    grid,
                    tile,
                ).at(x, y) == grid.at(x, y),
            forall|x: int, y: int|
                tile.on_border(x, y) ==> #[trigger] self.sampled(grid, tile).flooded(
                    tile,
                    self.capped_color(),
                ).at(x, y) == self.sampled(grid, tile).at(x, y),
            forall|x: int, y: int|
                tile.on_border(x, y) ==> #[trigger] self.evaluated(
                    self.sampled(grid, tile),
                    tile,
                ).at(x, y) == self.sampled(grid, tile).at(x, y),
    {
        let sampled = self.sampled(grid, tile);
        assert forall|x: int, y: int| tile.on_border(x, y) implies #[trigger] sampled.at(
            x,
            y,
        ).is_computed() by {
            assert(grid.pixels.dom().contains((x, y)));
            assert((self.paint)((self.count)(x, y) as int).is_computed());
        }
        assert forall|x: int, y: int|
            grid.contains(x, y) && !tile.on_border(x, y) implies #[trigger] sampled.at(x, y)
            == grid.at(x, y) by {
            assert(grid.pixels.dom().contains((x, y)));
        }
        assert forall|x: int, y: int| tile.on_border(x, y) implies #[trigger] sampled.flooded(
            tile,
            self.capped_color(),
        ).at(x, y) == sampled.at(x, y) by {
            assert(grid.pixels.dom().contains((x, y)));
        }
        assert forall|x: int, y: int| tile.on_border(x, y) implies #[trigger] self.evaluated(
            sampled,
            tile,
        ).at(x, y) == sampled.at(x, y) by {
            assert(grid.pixels.dom().contains((x, y)));
        }
    }

    /// A box that is not refined keeps the border the sampler gave it.
    pub proof fn lemma_unrefined_box_keeps_border(
        self,
        grid: Grid,
        sizes: Seq<u32>,
        x: int,
        y: int,
        depth: int,
    )
        requires
            grid.wf(),
            0 <= depth < sizes.len(),
            (Tile { x, y, size: sizes[depth] as int }).within(grid),
            action_for(
                self.border_min(grid, Tile { x, y, size: sizes[depth] as int }),
                self.max_iter,
                depth,
                sizes.len() as int,
            ) != BoxAction::Recurse,
        ensures
            forall|px: int, py: int|
                (Tile { x, y, size: sizes[depth] as int }).on_border(px, py)
                    ==> #[trigger] self.subdivided(grid, sizes, x, y, depth).grid.at(px, py)
                    == self.sampled(grid, Tile { x, y, size: sizes[depth] as int }).at(px, py),
    {
        let tile = Tile { x, y, size: sizes[depth] as int };
        let sampled = self.sampled(grid, tile);
        assert forall|px: int, py: int| tile.on_border(px, py) implies #[trigger] self.subdivided(
            grid,
            sizes,
            x,
            y,
            depth,
        ).grid.at(px, py) == sampled.at(px, py) by {
            assert(grid.pixels.dom().contains((px, py)));
        }
    }

    /// Memoization never rewrites a sampled pixel with another colour. A
    /// pixel on the border of one box keeps the colour that sampling the box
    /// gave it when the border of any other box is sampled afterwards.
    pub proof fn lemma_resampling_keeps_colour(
        self,
        grid: Grid,
        first: Tile,
        second: Tile,
        x: int,
        y: int,
    )
        requires
            grid.wf(),
            grid.contains(x, y),
            first.on_border(x, y),
        ensures
            self.sampled(self.sampled(grid, first), second).at(x, y) == self.sampled(
                grid,
                first,
            ).at(x, y),
            self.sampled(grid, first).at(x, y) == self.resample(grid, x, y),
    {
        assert(grid.pixels.dom().contains((x, y)));
    }

    /// Sampling the border of a box twice is the same as sampling it once.
    pub proof fn lemma_sampling_idempotent(self, grid: Grid, tile: Tile)
        requires
            grid.wf(),
        ensures
            self.sampled(self.sampled(grid, tile), tile) == self.sampled(grid, tile),
    {
        assert(self.sampled(self.sampled(grid, tile), tile).pixels =~= self.sampled(
            grid,
            tile,
        ).pixels);
    }
}

/// The decision of the subdivider, level by level: a box is flooded exactly
/// when its least border count is the cap, it is refined only while a
/// smaller size remains, and it is evaluated pixel by pixel only at the
/// last size.
pub proof fn lemma_action_levels(min_count: int, max_iter: int, depth: int, levels: int)
    requires
        0 <= depth < levels,
    ensures
        action_for(min_count, max_iter, depth, levels) == BoxAction::Fill <==> min_count
            == max_iter,
        action_for(min_count, max_iter, depth, levels) == BoxAction::Recurse ==> depth + 1
            < levels,
        action_for(min_count, max_iter, depth, levels) == BoxAction::Evaluate ==> depth
            == levels - 1,
{
}

} // verus!
