//! The viewport: the mapping between view-pixel space and canvas space, with
//! pan, resize and anchor-preserving scaling.

use vstd::prelude::*;

verus! {

use vstd::arithmetic::div_mod::{lemma_fundamental_div_mod, lemma_fundamental_div_mod_converse,
    lemma_mod_bound};
use crate::layer::{floor_div_i128, lemma_mul_bound_signed};
use crate::position::{CanvasPosition, CanvasRect, Dimensions, PixelPosition, ViewRect};

/// The anchor coordinate after the canvas extent changes from `old_d` to
/// `new_d`: the same proportional position, rounded toward negative
/// infinity. A vanished old extent leaves the coordinate alone.
pub open spec fn scaled_anchor_coord(a: int, new_d: int, old_d: int) -> int {
    if old_d <= 0 {
        a
    } else {
        (a * new_d) / old_d
    }
}

/// A viewport descriptor: the output pixel size, the logical canvas extent
/// used for anchored scaling, and the canvas-space anchor that view-pixel
/// (0,0) maps to. It never touches canvas storage.
#[derive(Clone, Copy, PartialEq, Eq, Structural, Debug)]
pub struct CanvasView {
    pub view_dimensions: Dimensions,
    pub canvas_dimensions: Dimensions,
    pub top_left: CanvasPosition,
}

impl CanvasView {
    /// Creates a view of the given pixel size: the canvas extent defaults to
    /// the view size and the anchor to the origin.
    pub fn new(width: usize, height: usize) -> (v: CanvasView)
        ensures
            v.view_dimensions == (Dimensions { width, height }),
            v.canvas_dimensions == (Dimensions { width, height }),
            v.top_left == (CanvasPosition { x: 0, y: 0 }),
    {
        CanvasView {
            view_dimensions: Dimensions { width, height },
            canvas_dimensions: Dimensions { width, height },
            top_left: CanvasPosition { x: 0, y: 0 },
        }
    }

    /// Pans the anchor; dimensions are untouched.
    pub fn translate(&mut self, x: i64, y: i64)
        requires
            i64::MIN <= old(self).top_left.x + x <= i64::MAX,
            i64::MIN <= old(self).top_left.y + y <= i64::MAX,
        ensures
            final(self).top_left.x == old(self).top_left.x + x,
            final(self).top_left.y == old(self).top_left.y + y,
            final(self).view_dimensions == old(self).view_dimensions,
            final(self).canvas_dimensions == old(self).canvas_dimensions,
    {
        self.top_left = CanvasPosition { x: self.top_left.x + x, y: self.top_left.y + y };
    }

    /// Changes the output pixel size only.
    pub fn resize_view(&mut self, width: usize, height: usize)
        ensures
            final(self).view_dimensions == (Dimensions { width, height }),
            final(self).canvas_dimensions == old(self).canvas_dimensions,
            final(self).top_left == old(self).top_left,
    {
        self.view_dimensions = Dimensions { width, height };
    }

    /// Changes the logical canvas extent used for anchored scaling only.
    pub fn resize_canvas_source(&mut self, width: usize, height: usize)
        ensures
            final(self).canvas_dimensions == (Dimensions { width, height }),
            final(self).view_dimensions == old(self).view_dimensions,
            final(self).top_left == old(self).top_left,
    {
        self.canvas_dimensions = Dimensions { width, height };
    }

    /// The output width in view pixels.
    pub fn view_width(&self) -> (w: usize)
        ensures
            w == self.view_dimensions.width,
    {
        self.view_dimensions.width
    }

    /// The output height in view pixels.
    pub fn view_height(&self) -> (h: usize)
        ensures
            h == self.view_dimensions.height,
    {
        self.view_dimensions.height
    }

    /// The logical canvas width.
    pub fn canvas_width(&self) -> (w: usize)
        ensures
            w == self.canvas_dimensions.width,
    {
        self.canvas_dimensions.width
    }

    /// The logical canvas height.
    pub fn canvas_height(&self) -> (h: usize)
        ensures
            h == self.canvas_dimensions.height,
    {
        self.canvas_dimensions.height
    }

    /// The x coordinate of the anchor.
    pub fn anchor_x(&self) -> (x: i64)
        ensures
            x == self.top_left.x,
    {
        self.top_left.x
    }

    /// The y coordinate of the anchor.
    pub fn anchor_y(&self) -> (y: i64)
        ensures
            y == self.top_left.y,
    {
        self.top_left.y
    }

    /// Resizes the logical canvas extent while keeping the anchor at the
    /// same proportional position within it.
    pub fn pin_resize_canvas(&mut self, dimensions: Dimensions)
        requires
            i64::MIN <= scaled_anchor_coord(
                old(self).top_left.x as int,
                dimensions.width as int,
                old(self).canvas_dimensions.width as int,
            ) <= i64::MAX,
            i64::MIN <= scaled_anchor_coord(
                old(self).top_left.y as int,
                dimensions.height as int,
                old(self).canvas_dimensions.height as int,
            ) <= i64::MAX,
        ensures
            final(self).canvas_dimensions == dimensions,
            final(self).view_dimensions == old(self).view_dimensions,
            final(self).top_left.x == scaled_anchor_coord(
                old(self).top_left.x as int,
                dimensions.width as int,
                old(self).canvas_dimensions.width as int,
            ),
            final(self).top_left.y == scaled_anchor_coord(
                old(self).top_left.y as int,
                dimensions.height as int,
                old(self).canvas_dimensions.height as int,
            ),
    {
        let ax = scale_coord_exec(
            self.top_left.x,
            dimensions.width,
            self.canvas_dimensions.width,
        );
        let ay = scale_coord_exec(
            self.top_left.y,
            dimensions.height,
            self.canvas_dimensions.height,
        );
        self.top_left = CanvasPosition { x: ax, y: ay };
        self.canvas_dimensions = dimensions;
    }

    /// Where a view pixel lands in canvas space.
    pub open spec fn spec_view_to_canvas(self, x: int, y: int) -> (int, int) {
        (self.top_left.x + x, self.top_left.y + y)
    }

    /// Where a canvas position lands in view-pixel space, if it is visible.
    pub open spec fn spec_canvas_to_view(self, x: int, y: int) -> Option<PixelPosition> {
        let dx = x - self.top_left.x;
        let dy = y - self.top_left.y;
        if 0 <= dx < self.view_dimensions.width && 0 <= dy < self.view_dimensions.height {
            Some(PixelPosition { x: dx as usize, y: dy as usize })
        } else {
            None
        }
    }

    /// Maps a view pixel to the canvas position it shows. Total; the result
    /// may lie outside the logical canvas extent.
    pub fn transform_view_to_canvas(&self, position: PixelPosition) -> (c: CanvasPosition)
        requires
            self.top_left.x + position.x <= i64::MAX,
            self.top_left.y + position.y <= i64::MAX,
        ensures
            (c.x as int, c.y as int) == self.spec_view_to_canvas(
                position.x as int,
                position.y as int,
            ),
    {
        let x = self.top_left.x as i128 + position.x as i128;
        let y = self.top_left.y as i128 + position.y as i128;
        CanvasPosition { x: x as i64, y: y as i64 }
    }

    /// Maps a canvas position to the view pixel showing it, or nothing when
    /// it lies outside the visible window.
    pub fn transform_canvas_to_view(&self, position: CanvasPosition) -> (r: Option<PixelPosition>)
        ensures
            r == self.spec_canvas_to_view(position.x as int, position.y as int),
    {
        let dx = position.x as i128 - self.top_left.x as i128;
        let dy = position.y as i128 - self.top_left.y as i128;
        if 0 <= dx && dx < self.view_dimensions.width as i128 && 0 <= dy && dy
            < self.view_dimensions.height as i128 {
            Some(PixelPosition { x: dx as usize, y: dy as usize })
        } else {
            None
        }
    }
}

/// The anchor scaling computation, over machine integers.
fn scale_coord_exec(a: i64, new_d: usize, old_d: usize) -> (r: i64)
    requires
        i64::MIN <= scaled_anchor_coord(a as int, new_d as int, old_d as int) <= i64::MAX,
    ensures
        r == scaled_anchor_coord(a as int, new_d as int, old_d as int),
{
    if old_d == 0 {
        a
    } else {
        proof {
            lemma_mul_bound_signed(
                a as int,
                new_d as int,
                0x8000_0000_0000_0000,
                0xffff_ffff_ffff_ffff,
            );
        }
        let num = (a as i128) * (new_d as i128);
        let q = floor_div_i128(num, old_d as i128);
        q as i64
    }
}

impl CanvasRect {
    /// Where this rectangle appears in a view, if anywhere: the intersection
    /// with the view's visible window, in view-pixel coordinates.
    pub open spec fn spec_to_view_rect(self, view: CanvasView) -> Option<ViewRect> {
        let ix0 = if self.top_left.x > view.top_left.x {
            self.top_left.x as int
        } else {
            view.top_left.x as int
        };
        let iy0 = if self.top_left.y > view.top_left.y {
            self.top_left.y as int
        } else {
            view.top_left.y as int
        };
        let rx1 = self.top_left.x + self.dimensions.width;
        let vx1 = view.top_left.x + view.view_dimensions.width;
        let ry1 = self.top_left.y + self.dimensions.height;
        let vy1 = view.top_left.y + view.view_dimensions.height;
        let ix1 = if rx1 < vx1 {
            rx1
        } else {
            vx1
        };
        let iy1 = if ry1 < vy1 {
            ry1
        } else {
            vy1
        };
        if ix0 < ix1 && iy0 < iy1 {
            Some(
                ViewRect {
                    top_left: PixelPosition {
                        x: (ix0 - view.top_left.x) as usize,
                        y: (iy0 - view.top_left.y) as usize,
                    },
                    dimensions: Dimensions {
                        width: (ix1 - ix0) as usize,
                        height: (iy1 - iy0) as usize,
                    },
                },
            )
        } else {
            None
        }
    }

    /// Clips this rectangle against a view's visible window.
    pub fn to_view_rect(&self, view: &CanvasView) -> (r: Option<ViewRect>)
        ensures
            r == self.spec_to_view_rect(*view),
    {
        let rx0 = self.top_left.x as i128;
        let ry0 = self.top_left.y as i128;
        let vx0 = view.top_left.x as i128;
        let vy0 = view.top_left.y as i128;
        let ix0 = if rx0 > vx0 { rx0 } else { vx0 };
        let iy0 = if ry0 > vy0 { ry0 } else { vy0 };
        let rx1 = rx0 + self.dimensions.width as i128;
        let vx1 = vx0 + view.view_dimensions.width as i128;
        let ry1 = ry0 + self.dimensions.height as i128;
        let vy1 = vy0 + view.view_dimensions.height as i128;
        let ix1 = if rx1 < vx1 { rx1 } else { vx1 };
        let iy1 = if ry1 < vy1 { ry1 } else { vy1 };
        if ix0 < ix1 && iy0 < iy1 {
            Some(
                ViewRect {
                    top_left: PixelPosition {
                        x: (ix0 - vx0) as usize,
                        y: (iy0 - vy0) as usize,
                    },
                    dimensions: Dimensions {
                        width: (ix1 - ix0) as usize,
                        height: (iy1 - iy0) as usize,
                    },
                },
            )
        } else {
            None
        }
    }
}

/// Round trip of the coordinate transforms: a visible view pixel, mapped to
/// canvas space and back, lands exactly where it started.
pub proof fn lemma_view_transform_round_trip(view: CanvasView, x: int, y: int)
    requires
        0 <= x < view.view_dimensions.width,
        0 <= y < view.view_dimensions.height,
    ensures
        view.spec_canvas_to_view(
            view.spec_view_to_canvas(x, y).0,
            view.spec_view_to_canvas(x, y).1,
        ) == Some(PixelPosition { x: x as usize, y: y as usize }),
{
}

/// Scaling the canvas extent by a positive integer factor scales the anchor
/// coordinate exactly: the anchor keeps its proportional position.
pub proof fn lemma_pin_scale_anchor_exact(a: int, d: int, k: int)
    requires
        d > 0,
        k > 0,
    ensures
        scaled_anchor_coord(a, k * d, d) == k * a,
{
    assert(a * (k * d) == (k * a) * d) by (nonlinear_arith);
    lemma_fundamental_div_mod_converse(a * (k * d), d, k * a, 0);
}

/// The general anchoring law: after a pin-resize the new anchor denotes the
/// same fraction of the new extent that the old anchor denoted of the old
/// one, up to the rounding that integer coordinates force.
pub proof fn lemma_pin_resize_fraction(a: int, new_d: int, old_d: int)
    requires
        old_d > 0,
    ensures
        scaled_anchor_coord(a, new_d, old_d) * old_d <= a * new_d,
        a * new_d < scaled_anchor_coord(a, new_d, old_d) * old_d + old_d,
{
    lemma_fundamental_div_mod(a * new_d, old_d);
    lemma_mod_bound(a * new_d, old_d);
    assert(old_d * ((a * new_d) / old_d) == ((a * new_d) / old_d) * old_d) by (nonlinear_arith);
}

} // verus!
