//! The pixel canvas of a render pass, backed by an RGBA image buffer.

use vstd::prelude::*;
use crate::color::Color;

verus! {

/// The mathematical content of a canvas: its dimensions and the colour of
/// every pixel inside them.
pub struct Grid {
    pub width: int,
    pub height: int,
    pub pixels: Map<(int, int), Color>,
}

impl Grid {
    /// Whether `(x, y)` is a pixel of the grid.
    pub open spec fn contains(self, x: int, y: int) -> bool {
        0 <= x < self.width && 0 <= y < self.height
    }

    /// The colour at `(x, y)`.
    pub open spec fn at(self, x: int, y: int) -> Color {
        self.pixels[(x, y)]
    }

    /// The grid's pixel map is defined on its pixels and nowhere else.
    pub open spec fn wf(self) -> bool {
        forall|x: int, y: int| #[trigger] self.pixels.dom().contains((x, y)) <==> self.contains(x, y)
    }

    /// The grid with `(x, y)` set to `c`.
    pub open spec fn put(self, x: int, y: int, c: Color) -> Grid {
        Grid { pixels: self.pixels.insert((x, y), c), ..self }
    }

    /// The grid in which every pixel that `mask` selects holds the colour
    /// that `ink` gives it, and every other pixel is as in `self`.
    pub open spec fn overlay(
        self,
        mask: spec_fn(int, int) -> bool,
        ink: spec_fn(int, int) -> Color,
    ) -> Grid {
        Grid {
            pixels: Map::new(
                |p: (int, int)| self.pixels.dom().contains(p),
                |p: (int, int)|
                    if mask(p.0, p.1) {
                        ink(p.0, p.1)
                    } else {
                        self.pixels[p]
                    },
            ),
            ..self
        }
    }

    /// A grid of the given dimensions with every pixel blank.
    pub open spec fn blank(width: int, height: int) -> Grid {
        Grid {
            width,
            height,
            pixels: Map::new(
                |p: (int, int)| 0 <= p.0 < width && 0 <= p.1 < height,
                |p: (int, int)| Color::blank(),
            ),
        }
    }
}

/// A canvas of RGBA pixels, exclusively owned by one render pass.
///
/// The pixels live in an `image::ImageBuffer` of `Rgba<u8>` over a `Vec<u8>`.
/// The buffer is opaque to the verifier: [`canvas_size`] and
/// [`canvas_pixels`] name what it holds, and the four functions that touch
/// it state what the `image` crate does to that.
#[verifier::external_body]
pub struct Canvas {
    buffer: image::ImageBuffer<image::Rgba<u8>, Vec<u8>>,
}

/// The width and height of the image buffer inside a canvas.
pub uninterp spec fn canvas_size(canvas: Canvas) -> (u32, u32);

/// The colour the image buffer inside a canvas holds at each pixel.
pub uninterp spec fn canvas_pixels(canvas: Canvas) -> Map<(int, int), Color>;

/// `ImageBuffer::new`: a buffer of the given dimensions whose samples are all
/// zero. It panics when the sample count `4 * width * height` overflows, and
/// the vector behind it cannot exceed `isize::MAX` bytes.
#[verifier::external_body]
fn buffer_new(width: u32, height: u32) -> (canvas: Canvas)
    requires
        4 * width * height <= isize::MAX,
    ensures
        canvas_size(canvas) == (width, height),
        forall|x: int, y: int|
            0 <= x < width && 0 <= y < height ==> #[trigger] canvas_pixels(canvas)[(x, y)]
                == Color::blank(),
{
    Canvas { buffer: image::ImageBuffer::new(width, height) }
}

/// `ImageBuffer::dimensions`: the width and height the buffer was made with.
#[verifier::external_body]
fn buffer_dimensions(canvas: &Canvas) -> (size: (u32, u32))
    ensures
        size == canvas_size(*canvas),
{
    canvas.buffer.dimensions()
}

/// `ImageBuffer::get_pixel`: the four channels stored at `(x, y)`. It panics
/// outside the buffer's bounds.
#[verifier::external_body]
fn buffer_get(canvas: &Canvas, x: u32, y: u32) -> (c: Color)
    requires
        x < canvas_size(*canvas).0,
        y < canvas_size(*canvas).1,
    ensures
        c == canvas_pixels(*canvas)[(x as int, y as int)],
{
    let px = canvas.buffer.get_pixel(x, y);
    Color { r: px.0[0], g: px.0[1], b: px.0[2], a: px.0[3] }
}

/// `ImageBuffer::put_pixel`: overwrites the four channels at `(x, y)` and
/// nothing else. It panics outside the buffer's bounds.
#[verifier::external_body]
fn buffer_put(canvas: &mut Canvas, x: u32, y: u32, c: Color)
    requires
        x < canvas_size(*old(canvas)).0,
        y < canvas_size(*old(canvas)).1,
    ensures
        canvas_size(*final(canvas)) == canvas_size(*old(canvas)),
        canvas_pixels(*final(canvas)) == canvas_pixels(*old(canvas)).insert(
            (x as int, y as int),
            c,
        ),
{
    canvas.buffer.put_pixel(x, y, image::Rgba([c.r, c.g, c.b, c.a]));
}

impl View for Canvas {
    type V = Grid;

    /// The pixels of the buffer, restricted to its bounds.
    open spec fn view(&self) -> Grid {
        Grid {
            width: canvas_size(*self).0 as int,
            height: canvas_size(*self).1 as int,
            pixels: Map::new(
                |p: (int, int)|
                    0 <= p.0 < canvas_size(*self).0 && 0 <= p.1 < canvas_size(*self).1,
                |p: (int, int)| canvas_pixels(*self)[p],
            ),
        }
    }
}

impl Canvas {
    /// A blank canvas of the given dimensions.
    pub fn new(width: u32, height: u32) -> (canvas: Canvas)
        requires
            4 * width * height <= isize::MAX,
        ensures
            canvas@ == Grid::blank(width as int, height as int),
    {
        let canvas = buffer_new(width, height);
        assert(canvas@.pixels =~= Grid::blank(width as int, height as int).pixels);
        canvas
    }

    /// The width of the canvas in pixels.
    pub fn width(&self) -> (w: u32)
        ensures
            w == self@.width,
    {
        buffer_dimensions(self).0
    }

    /// The height of the canvas in pixels.
    pub fn height(&self) -> (h: u32)
        ensures
            h == self@.height,
    {
        buffer_dimensions(self).1
    }

    /// The colour at `(x, y)`.
    pub fn get_pixel(&self, x: u32, y: u32) -> (c: Color)
        requires
            self@.contains(x as int, y as int),
        ensures
            c == self@.at(x as int, y as int),
    {
        buffer_get(self, x, y)
    }

    /// Writes `c` at `(x, y)` and leaves every other pixel as it was.
    pub fn put_pixel(&mut self, x: u32, y: u32, c: Color)
        requires
            old(self)@.contains(x as int, y as int),
        ensures
            final(self)@ == old(self)@.put(x as int, y as int, c),
    {
        buffer_put(self, x, y, c);
        assert(self@.pixels =~= old(self)@.put(x as int, y as int, c).pixels);
    }

    /// Every canvas is a well-formed grid.
    pub proof fn lemma_view_wf(&self)
        ensures
            self@.wf(),
            self@.width <= u32::MAX,
            self@.height <= u32::MAX,
            0 <= self@.width,
            0 <= self@.height,
    {
    }
}

} // verus!
