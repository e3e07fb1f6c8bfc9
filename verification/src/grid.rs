use crate::color::Color;
use vstd::prelude::*;

verus! {

/// A `width x height` grid of colors in row-major (raster) order: the pixel
/// at column `x` of row `y` lives at index `y * width + x`.
pub struct PixelGrid {
    pub width: usize,
    pub height: usize,
    pub pixels: Vec<Color>,
}

impl PixelGrid {
    /// Well-formedness: the flat buffer holds exactly one color per cell.
    pub open spec fn wf(self) -> bool {
        self.pixels@.len() == self.width * self.height
    }

    /// The color stored at column `x` of row `y`.
    pub open spec fn cell(self, x: int, y: int) -> Color {
        self.pixels@[y * self.width + x]
    }

    /// A grid of the given dimensions with every pixel set to `fill`.
    pub fn new(width: usize, height: usize, fill: Color) -> (g: PixelGrid)
        requires
            width * height <= usize::MAX,
        ensures
            g.wf(),
            g.width == width,
            g.height == height,
            g.pixels@ == Seq::new((width * height) as nat, |i: int| fill),
    {
        let n = width * height;
        let mut pixels: Vec<Color> = Vec::new();
        for k in 0..n
            invariant
                pixels@.len() == k,
                forall|i: int| 0 <= i < k ==> pixels@[i] == fill,
        {
            pixels.push(fill);
        }
        proof {
            assert(pixels@ =~= Seq::new((width * height) as nat, |i: int| fill));
        }
        PixelGrid { width, height, pixels }
    }

    /// A grid over an existing row-major buffer.
    pub fn from_pixels(width: usize, height: usize, pixels: Vec<Color>) -> (g: PixelGrid)
        requires
            pixels@.len() == width * height,
        ensures
            g.wf(),
            g.width == width,
            g.height == height,
            g.pixels@ == pixels@,
    {
        PixelGrid { width, height, pixels }
    }

    proof fn lemma_index_in_bounds(self, x: int, y: int)
        requires
            self.wf(),
            0 <= x < self.width,
            0 <= y < self.height,
        ensures
            0 <= y * self.width + x < self.pixels@.len(),
    {
        assert(0 <= y * self.width + x < self.width * self.height) by (nonlinear_arith)
            requires
                0 <= x < self.width,
                0 <= y < self.height,
        ;
    }

    /// Read the pixel at `(x, y)`.
    pub fn get_pixel(&self, x: usize, y: usize) -> (c: Color)
        requires
            self.wf(),
            x < self.width,
            y < self.height,
        ensures
            c == self.cell(x as int, y as int),
    {
        let n = self.pixels.len();
        proof {
            self.lemma_index_in_bounds(x as int, y as int);
            assert(y * self.width + x < n);
        }
        self.pixels[y * self.width + x]
    }

    /// Overwrite the pixel at `(x, y)`; every other cell keeps its color.
    pub fn put_pixel(&mut self, x: usize, y: usize, c: Color)
        requires
            old(self).wf(),
            x < old(self).width,
            y < old(self).height,
        ensures
            final(self).wf(),
            final(self).width == old(self).width,
            final(self).height == old(self).height,
            final(self).pixels@ == old(self).pixels@.update(
                y * old(self).width + x,
                c,
            ),
    {
        let n = self.pixels.len();
        proof {
            self.lemma_index_in_bounds(x as int, y as int);
            assert(y * self.width + x < n);
        }
        let i = y * self.width + x;
        self.pixels.set(i, c);
    }
}

} // verus!
