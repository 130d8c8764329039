//! A pixel buffer: a rectangle of colors, stored row by row. The canvas
//! only stores pixels; serializing it to an image file is left to callers.

use crate::color::Color;
use crate::matrix::lemma_flat_index;
use vstd::prelude::*;

verus! {

/// A `width` by `height` pixel buffer; the pixel at `(x, y)` sits at flat
/// offset `x + y * width`.
#[derive(Clone, Debug)]
pub struct Canvas {
    pub width: usize,
    pub height: usize,
    pub pixels: Vec<Color>,
}

impl Canvas {
    /// The canvas is well formed: one stored color per pixel.
    pub open spec fn wf(self) -> bool {
        self.pixels@.len() == self.width * self.height
    }

    /// The color of the pixel at `(x, y)`.
    pub open spec fn pixel(self, x: int, y: int) -> Color {
        self.pixels@[x + y * self.width]
    }

    /// A canvas of the given dimensions with every pixel black.
    pub fn new(width: usize, height: usize) -> (c: Canvas)
        requires
            width * height <= usize::MAX,
        ensures
            c.width == width,
            c.height == height,
            c.wf(),
            forall|i: int|
                0 <= i < c.pixels@.len() ==> c.pixels@[i] == (Color { r: 0, g: 0, b: 0 }),
    {
        let n: usize = width * height;
        let mut pixels: Vec<Color> = Vec::new();
        let mut k: usize = 0;
        while k < n
            invariant
                k <= n,
                pixels@.len() == k,
                forall|i: int|
                    0 <= i < k ==> pixels@[i] == (Color { r: 0, g: 0, b: 0 }),
            decreases n - k,
        {
            pixels.push(Color::new(0, 0, 0));
            k = k + 1;
        }
        Canvas { width, height, pixels }
    }

    /// Paints the pixel at `(x, y)`; everything else is kept.
    pub fn write_pixel(&mut self, x: usize, y: usize, color: Color)
        requires
            old(self).wf(),
            x < old(self).width,
            y < old(self).height,
        ensures
            final(self).width == old(self).width,
            final(self).height == old(self).height,
            final(self).wf(),
            final(self).pixels@ == old(self).pixels@.update(
                x + y * old(self).width,
                color,
            ),
    {
        proof {
            lemma_flat_index(y as int, x as int, self.height as int, self.width as int);
            assert(self.height * self.width == self.width * self.height) by (nonlinear_arith);
        }
        let n: usize = self.pixels.len();
        let idx: usize = x + y * self.width;
        self.pixels[idx] = color;
    }

    /// The color of the pixel at `(x, y)`.
    pub fn pixel_at(&self, x: usize, y: usize) -> (c: Color)
        requires
            self.wf(),
            x < self.width,
            y < self.height,
        ensures
            c == self.pixel(x as int, y as int),
    {
        proof {
            lemma_flat_index(y as int, x as int, self.height as int, self.width as int);
            assert(self.height * self.width == self.width * self.height) by (nonlinear_arith);
        }
        let n: usize = self.pixels.len();
        self.pixels[x + y * self.width]
    }
}

} // verus!
