//! The canvas: an ordered stack of layers, the mutation entry point, and the
//! compositing renderer.

use vstd::prelude::*;

verus! {

use crate::chunks::{lemma_index_in_area, RasterChunk};
use crate::layer::{action_applied, RasterLayer, RasterLayerAction};
use crate::pixels::Pixel;
use crate::position::{CanvasRect, Dimensions};
use crate::view::CanvasView;

/// A caller-contract violation reported by the canvas.
#[derive(Clone, Copy, PartialEq, Eq, Structural, Debug)]
pub enum CanvasError {
    /// The addressed layer index is not smaller than the layer count.
    LayerIndexOutOfBounds,
}

/// The color a stack of layers shows at a canvas coordinate: the topmost
/// layer whose stored pixel is not the default wins; where every layer holds
/// the default, the default shows through.
pub open spec fn composite_from(layers: Seq<RasterLayer>, x: int, y: int) -> Pixel
    decreases layers.len(),
{
    if layers.len() == 0 {
        Pixel(0)
    } else if layers.last().pixel_value(x, y) != Pixel(0) {
        layers.last().pixel_value(x, y)
    } else {
        composite_from(layers.drop_last(), x, y)
    }
}

/// An ordered stack of layers; later layers draw on top of earlier ones.
#[derive(Clone, Debug)]
pub struct Canvas {
    layers: Vec<RasterLayer>,
}

impl Canvas {
    /// The layer stack, as a specification value.
    pub closed spec fn spec_layers(self) -> Seq<RasterLayer> {
        self.layers@
    }

    /// Well-formedness: every layer is well formed.
    pub open spec fn wf(self) -> bool {
        forall|i: int|
            0 <= i < self.spec_layers().len() ==> (#[trigger] self.spec_layers()[i]).wf()
    }

    /// The composited color of this canvas at a canvas coordinate.
    pub open spec fn composite_value(self, x: int, y: int) -> Pixel {
        composite_from(self.spec_layers(), x, y)
    }

    /// Creates a canvas without layers.
    pub fn new() -> (c: Canvas)
        ensures
            c.wf(),
            c.spec_layers().len() == 0,
    {
        Canvas { layers: Vec::new() }
    }

    /// The number of layers.
    pub fn layer_count(&self) -> (n: usize)
        ensures
            n == self.spec_layers().len(),
    {
        self.layers.len()
    }

    /// Appends a layer on top of the stack and returns its stacking index.
    pub fn add_layer(&mut self, layer: RasterLayer) -> (idx: usize)
        requires
            old(self).wf(),
            layer.wf(),
            old(self).spec_layers().len() < usize::MAX,
        ensures
            final(self).wf(),
            final(self).spec_layers() == old(self).spec_layers().push(layer),
            idx == old(self).spec_layers().len(),
    {
        let idx = self.layers.len();
        self.layers.push(layer);
        idx
    }

    /// Applies a rasterization action to the addressed layer. An
    /// out-of-range layer index is a caller error, reported distinctly and
    /// leaving the canvas untouched; a degenerate target yields `Ok(None)`.
    pub fn perform_raster_action(&mut self, layer_index: usize, action: RasterLayerAction) -> (r:
        Result<Option<CanvasRect>, CanvasError>)
        requires
            old(self).wf(),
            action.spec_valid_target(),
        ensures
            final(self).wf(),
            layer_index >= old(self).spec_layers().len() ==> r == Err::<
                Option<CanvasRect>,
                CanvasError,
            >(CanvasError::LayerIndexOutOfBounds) && final(self).spec_layers() == old(
                self,
            ).spec_layers(),
            layer_index < old(self).spec_layers().len() ==> {
                &&& final(self).spec_layers().len() == old(self).spec_layers().len()
                &&& forall|j: int|
                    0 <= j < old(self).spec_layers().len() && j != layer_index
                        ==> final(self).spec_layers()[j] == old(self).spec_layers()[j]
                &&& action_applied(
                    old(self).spec_layers()[layer_index as int],
                    final(self).spec_layers()[layer_index as int],
                    action,
                )
                &&& final(self).spec_layers()[layer_index as int].spec_chunk_size() == old(
                    self,
                ).spec_layers()[layer_index as int].spec_chunk_size()
                &&& action.spec_target().dimensions.is_empty() ==> r == Ok::<
                    Option<CanvasRect>,
                    CanvasError,
                >(None)
                &&& !action.spec_target().dimensions.is_empty() ==> r == Ok::<
                    Option<CanvasRect>,
                    CanvasError,
                >(Some(action.spec_target()))
            },
    {
        if layer_index >= self.layers.len() {
            return Err(CanvasError::LayerIndexOutOfBounds);
        }
        let layer = &mut self.layers[layer_index];
        let r = layer.perform_action(action);
        Ok(r)
    }

    /// The composited color at one canvas coordinate.
    fn composite_at(&self, x: i128, y: i128) -> (p: Pixel)
        requires
            self.wf(),
            -0x8000_0000_0000_0000 <= x < 0x8000_0000_0000_0000,
            -0x8000_0000_0000_0000 <= y < 0x8000_0000_0000_0000,
        ensures
            p == self.composite_value(x as int, y as int),
    {
        let n = self.layers.len();
        proof {
            assert(self.spec_layers().take(n as int) =~= self.spec_layers());
        }
        let mut i: usize = n;
        while i > 0
            invariant
                self.wf(),
                n == self.spec_layers().len(),
                i <= n,
                composite_from(self.spec_layers(), x as int, y as int) == composite_from(
                    self.spec_layers().take(i as int),
                    x as int,
                    y as int,
                ),
                -0x8000_0000_0000_0000 <= x < 0x8000_0000_0000_0000,
                -0x8000_0000_0000_0000 <= y < 0x8000_0000_0000_0000,
            decreases i,
        {
            let p = self.layers[i - 1].pixel_at_canvas(x, y);
            proof {
                let s = self.spec_layers().take(i as int);
                assert(s.last() == self.spec_layers()[i - 1]);
                assert(s.drop_last() =~= self.spec_layers().take(i - 1));
            }
            if p.0 != 0 {
                proof {
                    assert(p != Pixel(0));
                }
                return p;
            }
            proof {
                assert(p == Pixel(0));
            }
            i = i - 1;
        }
        proof {
            assert(self.spec_layers().take(0) =~= Seq::<RasterLayer>::empty());
        }
        Pixel(0)
    }

    /// Renders an explicit canvas-space rectangle into a dense pixel block,
    /// compositing all layers bottom to top.
    pub fn render_canvas_rect(&self, rect: CanvasRect) -> (chunk: RasterChunk)
        requires
            self.wf(),
            rect.top_left.x + rect.dimensions.width <= 0x8000_0000_0000_0000,
            rect.top_left.y + rect.dimensions.height <= 0x8000_0000_0000_0000,
            rect.dimensions.area() <= usize::MAX,
        ensures
            chunk.wf(),
            chunk.spec_dimensions() == rect.dimensions,
            forall|lx: int, ly: int|
                rect.dimensions.in_bounds(lx, ly) ==> #[trigger] chunk.pixel_at(lx, ly)
                    == self.composite_value(rect.top_left.x + lx, rect.top_left.y + ly),
    {
        let w = rect.dimensions.width;
        let h = rect.dimensions.height;
        let x0 = rect.top_left.x as i128;
        let y0 = rect.top_left.y as i128;
        let mut pixels: Vec<Pixel> = Vec::new();
        let mut ly: usize = 0;
        while ly < h
            invariant
                self.wf(),
                w == rect.dimensions.width,
                h == rect.dimensions.height,
                x0 == rect.top_left.x as int,
                y0 == rect.top_left.y as int,
                rect.top_left.x + w <= 0x8000_0000_0000_0000,
                rect.top_left.y + h <= 0x8000_0000_0000_0000,
                w * h <= usize::MAX,
                ly <= h,
                pixels@.len() == ly * w,
                forall|qx: int, qy: int|
                    0 <= qx < w && 0 <= qy < ly ==> #[trigger] pixels@[qy * w + qx]
                        == self.composite_value(rect.top_left.x + qx, rect.top_left.y + qy),
            decreases h - ly,
        {
            let mut lx: usize = 0;
            proof {
                lemma_row_area_bound(ly as int, w as int, h as int);
            }
            while lx < w
                invariant
                    self.wf(),
                    w == rect.dimensions.width,
                    h == rect.dimensions.height,
                    x0 == rect.top_left.x as int,
                    y0 == rect.top_left.y as int,
                    rect.top_left.x + w <= 0x8000_0000_0000_0000,
                    rect.top_left.y + h <= 0x8000_0000_0000_0000,
                    w * h <= usize::MAX,
                    ly < h,
                    lx <= w,
                    ly * w + w <= usize::MAX,
                    pixels@.len() == ly * w + lx,
                    forall|qx: int, qy: int|
                        0 <= qx < w && 0 <= qy < ly ==> #[trigger] pixels@[qy * w + qx]
                            == self.composite_value(rect.top_left.x + qx, rect.top_left.y + qy),
                    forall|qx: int|
                        0 <= qx < lx ==> #[trigger] pixels@[ly * w + qx] == self.composite_value(
                            rect.top_left.x + qx,
                            rect.top_left.y + ly,
                        ),
                decreases w - lx,
            {
                let p = self.composite_at(x0 + lx as i128, y0 + ly as i128);
                pixels.push(p);
                proof {
                    assert forall|qx: int, qy: int| 0 <= qx < w && 0 <= qy < ly as int
                        implies #[trigger] pixels@[qy * w + qx] == self.composite_value(
                        rect.top_left.x + qx,
                        rect.top_left.y + qy,
                    ) by {
                        assert(0 <= qy * w + qx && qy * w + qx < ly as int * w)
                            by (nonlinear_arith)
                            requires 0 <= qx < w, 0 <= qy < ly as int
                        ;
                    }
                }
                lx = lx + 1;
            }
            proof {
                assert((ly as int + 1) * w == ly as int * w + w) by (nonlinear_arith);
                assert forall|qx: int, qy: int| 0 <= qx < w && 0 <= qy < ly as int + 1
                    implies #[trigger] pixels@[qy * w + qx] == self.composite_value(
                    rect.top_left.x + qx,
                    rect.top_left.y + qy,
                ) by {
                    assert(0 <= qy * w + qx && qy * w + qx < ly as int * w + w)
                        by (nonlinear_arith)
                        requires 0 <= qx < w, 0 <= qy <= ly as int
                    ;
                    if qy == ly as int {
                        assert(pixels@[qy * w + qx] == pixels@[ly as int * w + qx]);
                    }
                }
            }
            ly = ly + 1;
        }
        proof {
            assert(h as int * w == w as int * h) by (nonlinear_arith);
            assert(pixels@.len() == rect.dimensions.area());
        }
        let chunk = RasterChunk::from_pixels_exact(pixels, rect.dimensions);
        proof {
            assert forall|lx: int, ly2: int| rect.dimensions.in_bounds(lx, ly2)
                implies #[trigger] chunk.pixel_at(lx, ly2) == self.composite_value(
                rect.top_left.x + lx,
                rect.top_left.y + ly2,
            ) by {
                lemma_index_in_area(rect.dimensions, lx, ly2);
                assert(chunk.spec_pixels()[ly2 * w + lx] == self.composite_value(
                    rect.top_left.x + lx,
                    rect.top_left.y + ly2,
                ));
            }
        }
        chunk
    }

    /// Renders the window that a view maps onto the canvas: the rectangle
    /// anchored at the view's top-left anchor with the view's dimensions.
    pub fn render(&self, view: &CanvasView) -> (chunk: RasterChunk)
        requires
            self.wf(),
            view.top_left.x + view.view_dimensions.width <= 0x8000_0000_0000_0000,
            view.top_left.y + view.view_dimensions.height <= 0x8000_0000_0000_0000,
            view.view_dimensions.area() <= usize::MAX,
        ensures
            chunk.wf(),
            chunk.spec_dimensions() == view.view_dimensions,
            forall|lx: int, ly: int|
                view.view_dimensions.in_bounds(lx, ly) ==> #[trigger] chunk.pixel_at(lx, ly)
                    == self.composite_value(view.top_left.x + lx, view.top_left.y + ly),
    {
        self.render_canvas_rect(
            CanvasRect { top_left: view.top_left, dimensions: view.view_dimensions },
        )
    }
}

/// A filled row prefix stays within the total area.
proof fn lemma_row_area_bound(ly: int, w: int, h: int)
    by (nonlinear_arith)
    requires
        0 <= ly < h,
        0 <= w,
    ensures
        ly * w + w <= h * w,
        h * w == w * h,
{
}


/// Fill containment: when a canvas's only layer holds a fill of `rect` with
/// `p` over an otherwise untouched layer, compositing shows `p` exactly
/// inside `rect` and the default pixel everywhere else.
pub proof fn lemma_fill_containment(layers: Seq<RasterLayer>, rect: CanvasRect, p: Pixel)
    requires
        layers.len() == 1,
        forall|x: int, y: int|
            #![trigger layers[0].pixel_value(x, y)]
            layers[0].pixel_value(x, y) == (if rect.spec_contains(x, y) {
                p
            } else {
                Pixel(0)
            }),
    ensures
        forall|x: int, y: int|
            #![trigger composite_from(layers, x, y)]
            composite_from(layers, x, y) == (if rect.spec_contains(x, y) {
                p
            } else {
                Pixel(0)
            }),
{
    assert forall|x: int, y: int|
        #![trigger composite_from(layers, x, y)]
        composite_from(layers, x, y) == (if rect.spec_contains(x, y) {
            p
        } else {
            Pixel(0)
        }) by {
        assert(layers.last() == layers[0]);
        assert(layers[0].pixel_value(x, y) == (if rect.spec_contains(x, y) {
            p
        } else {
            Pixel(0)
        }));
        let e = Seq::<RasterLayer>::empty();
        assert(layers.drop_last() =~= e);
        assert(composite_from(e, x, y) == Pixel(0));
    }
}

/// Layering: with a lower layer filled over `r0` with `a` and an upper layer
/// filled over `r1` with a visible pixel `b`, the composite shows `b` inside
/// `r1`, `a` in the rest of `r0`, and the default pixel elsewhere.
pub proof fn lemma_layer_compositing(
    layers: Seq<RasterLayer>,
    r0: CanvasRect,
    a: Pixel,
    r1: CanvasRect,
    b: Pixel,
)
    requires
        layers.len() == 2,
        forall|x: int, y: int|
            #![trigger layers[0].pixel_value(x, y)]
            layers[0].pixel_value(x, y) == (if r0.spec_contains(x, y) {
                a
            } else {
                Pixel(0)
            }),
        forall|x: int, y: int|
            #![trigger layers[1].pixel_value(x, y)]
            layers[1].pixel_value(x, y) == (if r1.spec_contains(x, y) {
                b
            } else {
                Pixel(0)
            }),
        b != Pixel(0),
    ensures
        forall|x: int, y: int|
            #![trigger composite_from(layers, x, y)]
            composite_from(layers, x, y) == (if r1.spec_contains(x, y) {
                b
            } else if r0.spec_contains(x, y) {
                a
            } else {
                Pixel(0)
            }),
{
    assert forall|x: int, y: int|
        #![trigger composite_from(layers, x, y)]
        composite_from(layers, x, y) == (if r1.spec_contains(x, y) {
            b
        } else if r0.spec_contains(x, y) {
            a
        } else {
            Pixel(0)
        }) by {
        assert(layers.last() == layers[1]);
        assert(layers[1].pixel_value(x, y) == (if r1.spec_contains(x, y) {
            b
        } else {
            Pixel(0)
        }));
        let lower = layers.drop_last();
        assert(lower.len() == 1);
        assert(lower.last() == layers[0]);
        assert(layers[0].pixel_value(x, y) == (if r0.spec_contains(x, y) {
            a
        } else {
            Pixel(0)
        }));
        let e = Seq::<RasterLayer>::empty();
        assert(lower.drop_last() =~= e);
        assert(composite_from(e, x, y) == Pixel(0));
        assert(composite_from(lower, x, y) == (if r0.spec_contains(x, y) {
            a
        } else {
            Pixel(0)
        }));
    }
}
} // verus!
