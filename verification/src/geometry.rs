//! Square boxes and rectangles of pixel coordinates.

use vstd::prelude::*;
use crate::canvas::Grid;

verus! {

/// A square of pixel coordinates: its top-left corner and its side length.
pub struct Tile {
    pub x: int,
    pub y: int,
    pub size: int,
}

impl Tile {
    /// Whether `(px, py)` lies in the square.
    pub open spec fn covers(self, px: int, py: int) -> bool {
        self.x <= px < self.x + self.size && self.y <= py < self.y + self.size
    }

    /// Whether `(px, py)` lies on one of the four edges of the square.
    pub open spec fn on_border(self, px: int, py: int) -> bool {
        self.covers(px, py) && (px == self.x || px == self.x + self.size - 1 || py == self.y || py
            == self.y + self.size - 1)
    }

    /// Whether `(px, py)` lies in the square and on none of its edges.
    pub open spec fn in_interior(self, px: int, py: int) -> bool {
        self.covers(px, py) && !self.on_border(px, py)
    }

    /// Whether the whole square lies inside `grid`.
    pub open spec fn within(self, grid: Grid) -> bool {
        0 <= self.x && 0 <= self.y && self.x + self.size <= grid.width && self.y + self.size
            <= grid.height
    }
}

/// A rectangle of pixel coordinates: top-left corner, width and height.
pub struct Rect {
    pub x: int,
    pub y: int,
    pub width: int,
    pub height: int,
}

impl Rect {
    /// Whether `(px, py)` lies in the rectangle.
    pub open spec fn covers(self, px: int, py: int) -> bool {
        self.x <= px < self.x + self.width && self.y <= py < self.y + self.height
    }

    /// Whether the whole rectangle lies inside `grid`.
    pub open spec fn within(self, grid: Grid) -> bool {
        0 <= self.x && 0 <= self.y && 0 <= self.width && 0 <= self.height && self.x + self.width
            <= grid.width && self.y + self.height <= grid.height
    }
}

impl Tile {
    /// The rectangle of the pixels that are not on the border of the tile.
    pub open spec fn interior(self) -> Rect {
        Rect { x: self.x + 1, y: self.y + 1, width: self.size - 2, height: self.size - 2 }
    }
}

/// A box as the renderer passes it around: top-left corner and side length.
#[derive(Clone, Copy, Debug)]
pub struct PixelBox {
    pub x: u32,
    pub y: u32,
    pub size: u32,
}

impl View for PixelBox {
    type V = Tile;

    open spec fn view(&self) -> Tile {
        Tile { x: self.x as int, y: self.y as int, size: self.size as int }
    }
}

impl PixelBox {
    pub fn new(x: u32, y: u32, size: u32) -> (b: PixelBox)
        ensures
            b == (PixelBox { x, y, size }),
    {
        PixelBox { x, y, size }
    }

    /// Whether `(px, py)` is a border pixel of the box.
    pub fn is_border(&self, px: u32, py: u32) -> (r: bool)
        ensures
            r == self@.on_border(px as int, py as int),
    {
        let dx_ok: bool = px >= self.x && px - self.x < self.size;
        let dy_ok: bool = py >= self.y && py - self.y < self.size;
        dx_ok && dy_ok && (px == self.x || px - self.x == self.size - 1 || py == self.y || py
            - self.y == self.size - 1)
    }
}

} // verus!
