//! Pixel colours and the two sentinel states a canvas pixel can be in.

use vstd::prelude::*;

verus! {

/// An RGBA colour with 8-bit channels.
#[derive(Clone, Copy, Debug, PartialEq, Eq, Structural)]
pub struct Color {
    pub r: u8,
    pub g: u8,
    pub b: u8,
    pub a: u8,
}

impl Color {
    /// The colour of a pixel nothing has been written to: all channels zero.
    pub open spec fn blank() -> Color {
        Color { r: 0, g: 0, b: 0, a: 0 }
    }

    /// The "white" marker: a pixel that holds it has been written, but does
    /// not count as a settled result.
    pub open spec fn white_marker() -> Color {
        Color { r: 255, g: 255, b: 255, a: 1 }
    }

    /// A pixel is computed once its alpha channel is non-zero.
    pub open spec fn is_computed(self) -> bool {
        self.a != 0
    }

    /// A pixel is settled when it is computed and is not the white marker.
    /// The border sampler never re-evaluates a settled pixel.
    pub open spec fn is_settled(self) -> bool {
        self.is_computed() && self != Color::white_marker()
    }

    pub fn new(r: u8, g: u8, b: u8, a: u8) -> (c: Color)
        ensures
            c == (Color { r, g, b, a }),
    {
        Color { r, g, b, a }
    }

    /// The white marker as a value.
    pub fn white() -> (c: Color)
        ensures
            c == Color::white_marker(),
    {
        Color { r: 255, g: 255, b: 255, a: 1 }
    }

    /// Whether the pixel has been computed.
    pub fn computed(&self) -> (b: bool)
        ensures
            b == self.is_computed(),
    {
        self.a != 0
    }

    /// Whether the pixel is settled: computed, and not the white marker.
    pub fn settled(&self) -> (b: bool)
        ensures
            b == self.is_settled(),
    {
        self.a != 0 && !(self.r == 255 && self.g == 255 && self.b == 255 && self.a == 1)
    }
}

} // verus!
