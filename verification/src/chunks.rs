//! Dense, fixed-size pixel blocks: the atomic unit of layer storage and the
//! buffer type that rendering produces.

use vstd::prelude::*;

verus! {

use crate::pixels::{Pixel, alpha_of, blue_of, green_of, red_of};
use crate::position::Dimensions;

/// Proof that the row-major index of an in-bounds coordinate lies within the
/// buffer that the dimensions describe.
pub proof fn lemma_index_in_area(dims: Dimensions, x: int, y: int)
    by (nonlinear_arith)
    requires
        dims.in_bounds(x, y),
    ensures
        0 <= dims.index_of(x, y) < dims.area(),
{
}

/// Proof that distinct in-bounds coordinates have distinct row-major indices.
pub proof fn lemma_index_injective(dims: Dimensions, x1: int, y1: int, x2: int, y2: int)
    by (nonlinear_arith)
    requires
        dims.in_bounds(x1, y1),
        dims.in_bounds(x2, y2),
        x1 != x2 || y1 != y2,
    ensures
        dims.index_of(x1, y1) != dims.index_of(x2, y2),
{
}

/// A dense block of pixels stored row-major, together with its dimensions.
/// The dimensions are fixed at construction.
#[derive(Clone, Debug)]
pub struct RasterChunk {
    pixels: Vec<Pixel>,
    dimensions: Dimensions,
}

impl RasterChunk {
    /// The stored pixel sequence, as a specification value.
    pub closed spec fn spec_pixels(self) -> Seq<Pixel> {
        self.pixels@
    }

    /// The dimensions of this chunk, as a specification value.
    pub closed spec fn spec_dimensions(self) -> Dimensions {
        self.dimensions
    }

    /// Well-formedness: the buffer holds exactly width * height pixels.
    pub open spec fn wf(self) -> bool {
        self.spec_pixels().len() == self.spec_dimensions().area()
    }

    /// The pixel stored at an in-bounds local coordinate.
    pub open spec fn pixel_at(self, x: int, y: int) -> Pixel {
        self.spec_pixels()[self.spec_dimensions().index_of(x, y)]
    }

    /// Builds a chunk of the given dimensions with every pixel set to the
    /// given value.
    pub fn new_filled(dimensions: Dimensions, pixel: Pixel) -> (r: RasterChunk)
        requires
            dimensions.area() <= usize::MAX,
        ensures
            r.wf(),
            r.spec_dimensions() == dimensions,
            forall|x: int, y: int|
                dimensions.in_bounds(x, y) ==> r.pixel_at(x, y) == pixel,
    {
        let n = dimensions.width * dimensions.height;
        let pixels = vec![pixel; n];
        let r = RasterChunk { pixels, dimensions };
        proof {
            assert forall|x: int, y: int| dimensions.in_bounds(x, y) implies r.pixel_at(x, y)
                == pixel by {
                lemma_index_in_area(dimensions, x, y);
            }
        }
        r
    }

    /// Builds a chunk from an explicit pixel buffer; reports a mismatch
    /// between the buffer length and the dimensions as a failure.
    pub fn from_pixels(pixels: Vec<Pixel>, dimensions: Dimensions) -> (r: Option<RasterChunk>)
        ensures
            r is Some <==> pixels@.len() == dimensions.area(),
            r is Some ==> {
                &&& r->Some_0.wf()
                &&& r->Some_0.spec_dimensions() == dimensions
                &&& r->Some_0.spec_pixels() == pixels@
            },
    {
        let len = pixels.len();
        match dimensions.width.checked_mul(dimensions.height) {
            Some(n) => {
                if len == n {
                    Some(RasterChunk { pixels, dimensions })
                } else {
                    None
                }
            },
            None => None,
        }
    }

    /// Builds a chunk from a pixel buffer already known to match the
    /// dimensions.
    pub(crate) fn from_pixels_exact(pixels: Vec<Pixel>, dimensions: Dimensions) -> (r: RasterChunk)
        requires
            pixels@.len() == dimensions.area(),
        ensures
            r.wf(),
            r.spec_dimensions() == dimensions,
            r.spec_pixels() == pixels@,
    {
        RasterChunk { pixels, dimensions }
    }

    /// The width of this chunk.
    pub fn width(&self) -> (w: usize)
        ensures
            w == self.spec_dimensions().width,
    {
        self.dimensions.width
    }

    /// The height of this chunk.
    pub fn height(&self) -> (h: usize)
        ensures
            h == self.spec_dimensions().height,
    {
        self.dimensions.height
    }

    /// The dimensions of this chunk.
    pub fn dimensions(&self) -> (d: Dimensions)
        ensures
            d == self.spec_dimensions(),
    {
        self.dimensions
    }

    /// Read-only access to the full pixel buffer.
    pub fn pixels(&self) -> (p: &Vec<Pixel>)
        ensures
            p@ == self.spec_pixels(),
    {
        &self.pixels
    }

    /// Reads the pixel at an in-bounds local coordinate.
    pub fn get_pixel(&self, x: usize, y: usize) -> (p: Pixel)
        requires
            self.wf(),
            self.spec_dimensions().in_bounds(x as int, y as int),
        ensures
            p == self.pixel_at(x as int, y as int),
    {
        let n = self.pixels.len();
        proof {
            lemma_index_in_area(self.dimensions, x as int, y as int);
        }
        let idx = y * self.dimensions.width + x;
        self.pixels[idx]
    }

    /// Overwrites the pixel at one in-bounds local coordinate, leaving every
    /// other pixel unchanged.
    pub fn set_pixel(&mut self, x: usize, y: usize, pixel: Pixel)
        requires
            old(self).wf(),
            old(self).spec_dimensions().in_bounds(x as int, y as int),
        ensures
            final(self).wf(),
            final(self).spec_dimensions() == old(self).spec_dimensions(),
            forall|x2: int, y2: int|
                old(self).spec_dimensions().in_bounds(x2, y2) ==> final(self).pixel_at(x2, y2)
                    == (if x2 == x && y2 == y {
                    pixel
                } else {
                    old(self).pixel_at(x2, y2)
                }),
    {
        let n = self.pixels.len();
        proof {
            lemma_index_in_area(self.dimensions, x as int, y as int);
        }
        let idx = y * self.dimensions.width + x;
        self.pixels[idx] = pixel;
        proof {
            let dims = self.spec_dimensions();
            assert forall|x2: int, y2: int| dims.in_bounds(x2, y2) implies self.pixel_at(x2, y2)
                == (if x2 == x && y2 == y {
                pixel
            } else {
                old(self).pixel_at(x2, y2)
            }) by {
                lemma_index_in_area(dims, x2, y2);
                if x2 != x || y2 != y {
                    lemma_index_injective(dims, x2, y2, x as int, y as int);
                }
            }
        }
    }

    /// Flattens the pixel buffer into row-major RGBA bytes, four per pixel.
    pub fn image_data(&self) -> (v: Vec<u8>)
        requires
            self.spec_pixels().len() * 4 <= usize::MAX,
        ensures
            v@.len() == self.spec_pixels().len() * 4,
            forall|i: int|
                0 <= i < self.spec_pixels().len() ==> {
                    &&& v@[4 * i] == red_of(#[trigger] self.spec_pixels()[i].0)
                    &&& v@[4 * i + 1] == green_of(self.spec_pixels()[i].0)
                    &&& v@[4 * i + 2] == blue_of(self.spec_pixels()[i].0)
                    &&& v@[4 * i + 3] == alpha_of(self.spec_pixels()[i].0)
                },
    {
        let mut v: Vec<u8> = Vec::new();
        let n = self.pixels.len();
        let mut i: usize = 0;
        while i < n
            invariant
                n == self.spec_pixels().len(),
                n * 4 <= usize::MAX,
                i <= n,
                v@.len() == 4 * i,
                forall|j: int|
                    0 <= j < i ==> {
                        &&& v@[4 * j] == red_of(#[trigger] self.spec_pixels()[j].0)
                        &&& v@[4 * j + 1] == green_of(self.spec_pixels()[j].0)
                        &&& v@[4 * j + 2] == blue_of(self.spec_pixels()[j].0)
                        &&& v@[4 * j + 3] == alpha_of(self.spec_pixels()[j].0)
                    },
            decreases n - i,
        {
            let (r, g, b, a) = self.pixels[i].as_rgba();
            v.push(r);
            v.push(g);
            v.push(b);
            v.push(a);
            i = i + 1;
        }
        v
    }
}

} // verus!
