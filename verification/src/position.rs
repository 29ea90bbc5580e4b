//! Coordinate spaces and rectangles: unsigned view-pixel space, signed
//! canvas space, chunk coordinates, and the rectangle types over them.

use vstd::prelude::*;

verus! {

/// An unsigned width/height pair. A zero width or height denotes an empty
/// region, over which every operation is a no-op.
#[derive(Clone, Copy, PartialEq, Eq, Structural, Debug)]
pub struct Dimensions {
    pub width: usize,
    pub height: usize,
}

impl Dimensions {
    /// The number of pixels covered by these dimensions.
    pub open spec fn area(self) -> int {
        self.width * self.height
    }

    /// Whether these dimensions cover no pixels at all.
    pub open spec fn is_empty(self) -> bool {
        self.width == 0 || self.height == 0
    }

    /// Whether a local coordinate lies within these dimensions.
    pub open spec fn in_bounds(self, x: int, y: int) -> bool {
        0 <= x < self.width && 0 <= y < self.height
    }

    /// The row-major buffer index of a local coordinate.
    pub open spec fn index_of(self, x: int, y: int) -> int {
        y * self.width + x
    }
}

/// A position in view-pixel space.
#[derive(Clone, Copy, PartialEq, Eq, Structural, Debug)]
pub struct PixelPosition {
    pub x: usize,
    pub y: usize,
}

/// A position in the unbounded, signed canvas space.
#[derive(Clone, Copy, PartialEq, Eq, Structural, Debug)]
pub struct CanvasPosition {
    pub x: i64,
    pub y: i64,
}

/// The coordinate of a chunk within a layer's sparse grid, in units of the
/// layer's chunk edge length.
#[derive(Clone, Copy, PartialEq, Eq, Structural, Debug)]
pub struct ChunkPosition {
    pub x: i64,
    pub y: i64,
}

/// A rectangle in canvas space: a signed top-left corner plus dimensions.
/// It may lie anywhere in the unbounded canvas plane.
#[derive(Clone, Copy, PartialEq, Eq, Structural, Debug)]
pub struct CanvasRect {
    pub top_left: CanvasPosition,
    pub dimensions: Dimensions,
}

impl CanvasRect {
    /// Builds a rectangle from its top-left corner and dimensions.
    pub fn new(x: i64, y: i64, width: usize, height: usize) -> (r: CanvasRect)
        ensures
            r.top_left == (CanvasPosition { x, y }),
            r.dimensions == (Dimensions { width, height }),
    {
        CanvasRect { top_left: CanvasPosition { x, y }, dimensions: Dimensions { width, height } }
    }

    /// Whether a canvas-space point lies within this rectangle.
    pub open spec fn spec_contains(self, x: int, y: int) -> bool {
        &&& self.top_left.x <= x < self.top_left.x + self.dimensions.width
        &&& self.top_left.y <= y < self.top_left.y + self.dimensions.height
    }

    /// The width of this rectangle.
    pub fn width(&self) -> (w: usize)
        ensures
            w == self.dimensions.width,
    {
        self.dimensions.width
    }

    /// The height of this rectangle.
    pub fn height(&self) -> (h: usize)
        ensures
            h == self.dimensions.height,
    {
        self.dimensions.height
    }

    /// The top-left corner of this rectangle.
    pub fn top_left(&self) -> (p: CanvasPosition)
        ensures
            p == self.top_left,
    {
        self.top_left
    }
}

/// A rectangle in view-pixel space, always within the view's bounds. It is
/// produced only by clipping a canvas rectangle against a view.
#[derive(Clone, Copy, PartialEq, Eq, Structural, Debug)]
pub struct ViewRect {
    pub top_left: PixelPosition,
    pub dimensions: Dimensions,
}

impl ViewRect {
    /// The width of this rectangle.
    pub fn width(&self) -> (w: usize)
        ensures
            w == self.dimensions.width,
    {
        self.dimensions.width
    }

    /// The height of this rectangle.
    pub fn height(&self) -> (h: usize)
        ensures
            h == self.dimensions.height,
    {
        self.dimensions.height
    }

    /// The top-left corner of this rectangle.
    pub fn top_left(&self) -> (p: PixelPosition)
        ensures
            p == self.top_left,
    {
        self.top_left
    }
}

} // verus!
