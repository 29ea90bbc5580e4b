//! Sparse, unbounded layers of fixed-size chunks, and the shape-fill actions
//! that rasterize into them.

use vstd::prelude::*;

verus! {

use vstd::arithmetic::div_mod::{
    lemma_div_is_ordered, lemma_fundamental_div_mod, lemma_fundamental_div_mod_converse,
    lemma_mod_bound,
};
use crate::chunks::RasterChunk;
use crate::pixels::Pixel;
use crate::position::{CanvasRect, ChunkPosition, Dimensions};

/// A shape-fill request: the canvas-space target rectangle and the pixel
/// value to write into every covered pixel.
#[derive(Clone, Copy, PartialEq, Eq, Structural, Debug)]
pub enum RasterLayerAction {
    /// Overwrite every pixel of the target rectangle.
    FillRect(CanvasRect, Pixel),
    /// Overwrite every pixel whose center lies within the ellipse inscribed
    /// in the target rectangle.
    FillOval(CanvasRect, Pixel),
}

/// Whether the center of pixel (x, y) lies within the ellipse inscribed in
/// `rect`. This is the inclusion rule
/// `((px - cx) / rx)^2 + ((py - cy) / ry)^2 <= 1` evaluated at the pixel
/// center `(x + 1/2, y + 1/2)` against the rectangle center and radii
/// `(rx, ry) = (w/2, h/2)`, multiplied through by `(2 rx)^2 (2 ry)^2` so that
/// it becomes exact integer arithmetic.
pub open spec fn oval_contains(rect: CanvasRect, x: int, y: int) -> bool {
    let w = rect.dimensions.width as int;
    let h = rect.dimensions.height as int;
    let dx = 2 * (x - rect.top_left.x) + 1 - w;
    let dy = 2 * (y - rect.top_left.y) + 1 - h;
    rect.spec_contains(x, y) && (dx * dx) * (h * h) + (dy * dy) * (w * w) <= (w * w) * (h * h)
}

impl RasterLayerAction {
    /// A fill of the whole rectangle.
    pub fn fill_rect(rect: CanvasRect, pixel: Pixel) -> (a: RasterLayerAction)
        ensures
            a == RasterLayerAction::FillRect(rect, pixel),
    {
        RasterLayerAction::FillRect(rect, pixel)
    }

    /// A fill of the ellipse inscribed in the rectangle.
    pub fn fill_oval(rect: CanvasRect, pixel: Pixel) -> (a: RasterLayerAction)
        ensures
            a == RasterLayerAction::FillOval(rect, pixel),
    {
        RasterLayerAction::FillOval(rect, pixel)
    }

    /// The target rectangle of this action.
    pub open spec fn spec_target(self) -> CanvasRect {
        match self {
            RasterLayerAction::FillRect(rect, _) => rect,
            RasterLayerAction::FillOval(rect, _) => rect,
        }
    }

    /// The pixel value this action writes.
    pub open spec fn spec_pixel(self) -> Pixel {
        match self {
            RasterLayerAction::FillRect(_, pixel) => pixel,
            RasterLayerAction::FillOval(_, pixel) => pixel,
        }
    }

    /// Whether this action overwrites the pixel at a canvas coordinate.
    pub open spec fn covers(self, x: int, y: int) -> bool {
        match self {
            RasterLayerAction::FillRect(rect, _) => rect.spec_contains(x, y),
            RasterLayerAction::FillOval(rect, _) => oval_contains(rect, x, y),
        }
    }

    /// Machine limits under which an action can be rasterized: the target
    /// must address only coordinates representable in canvas space, and its
    /// edge lengths must be small enough for the inclusion arithmetic.
    pub open spec fn spec_valid_target(self) -> bool {
        let rect = self.spec_target();
        &&& rect.top_left.x + rect.dimensions.width <= 0x8000_0000_0000_0000
        &&& rect.top_left.y + rect.dimensions.height <= 0x8000_0000_0000_0000
        &&& rect.dimensions.width <= 0x7fff_ffff
        &&& rect.dimensions.height <= 0x7fff_ffff
    }

    /// The target rectangle of this action.
    pub fn target(&self) -> (r: CanvasRect)
        ensures
            r == self.spec_target(),
    {
        match self {
            RasterLayerAction::FillRect(rect, _) => *rect,
            RasterLayerAction::FillOval(rect, _) => *rect,
        }
    }

    /// The pixel value this action writes.
    pub fn pixel(&self) -> (p: Pixel)
        ensures
            p == self.spec_pixel(),
    {
        match self {
            RasterLayerAction::FillRect(_, pixel) => *pixel,
            RasterLayerAction::FillOval(_, pixel) => *pixel,
        }
    }

    /// Decides whether this action overwrites the pixel at a canvas
    /// coordinate.
    pub fn covers_at(&self, x: i128, y: i128) -> (b: bool)
        requires
            self.spec_valid_target(),
        ensures
            b == self.covers(x as int, y as int),
    {
        let rect = self.target();
        let tx = rect.top_left.x as i128;
        let ty = rect.top_left.y as i128;
        let w = rect.dimensions.width as i128;
        let h = rect.dimensions.height as i128;
        let inside = tx <= x && x < tx + w && ty <= y && y < ty + h;
        proof {
            assert(inside == rect.spec_contains(x as int, y as int));
        }
        let b = match self {
            RasterLayerAction::FillRect(_, _) => inside,
            RasterLayerAction::FillOval(_, _) => {
                if inside {
                    let dx = 2 * (x - tx) + 1 - w;
                    let dy = 2 * (y - ty) + 1 - h;
                    proof {
                        let dxi = dx as int;
                        let dyi = dy as int;
                        let wi = w as int;
                        let hi = h as int;
                        assert(-wi <= dxi <= wi && -hi <= dyi <= hi);
                        lemma_oval_terms_bounded(dxi, dyi, wi, hi);
                        lemma_mul_le(dxi * dxi, hi * hi, 0x4000_0000_0000_0000);
                        lemma_mul_le(dyi * dyi, wi * wi, 0x4000_0000_0000_0000);
                        lemma_mul_le(wi * wi, hi * hi, 0x4000_0000_0000_0000);
                    }
                    let dx2 = dx * dx;
                    let dy2 = dy * dy;
                    let w2 = w * w;
                    let h2 = h * h;
                    dx2 * h2 + dy2 * w2 <= w2 * h2
                } else {
                    false
                }
            },
        };
        b
    }
}

/// Bounds on the four squared terms of the oval inclusion test.
proof fn lemma_oval_terms_bounded(dx: int, dy: int, w: int, h: int)
    by (nonlinear_arith)
    requires
        0 <= w <= 0x7fff_ffff,
        0 <= h <= 0x7fff_ffff,
        -w <= dx <= w,
        -h <= dy <= h,
    ensures
        0 <= dx * dx <= 0x4000_0000_0000_0000,
        0 <= dy * dy <= 0x4000_0000_0000_0000,
        0 <= w * w <= 0x4000_0000_0000_0000,
        0 <= h * h <= 0x4000_0000_0000_0000,
{
}

/// Bound on the product of two bounded non-negative values.
proof fn lemma_mul_le(a: int, b: int, m: int)
    by (nonlinear_arith)
    requires
        0 <= a <= m,
        0 <= b <= m,
    ensures
        0 <= a * b <= m * m,
{
}

/// The index of the first chunk entry with the given chunk coordinate, or -1
/// if no entry has it.
pub open spec fn find_pos(entries: Seq<(ChunkPosition, RasterChunk)>, cx: int, cy: int) -> int
    decreases entries.len(),
{
    if entries.len() == 0 {
        -1
    } else if entries[0].0.x == cx && entries[0].0.y == cy {
        0
    } else {
        let r = find_pos(entries.drop_first(), cx, cy);
        if r < 0 {
            -1
        } else {
            r + 1
        }
    }
}

/// Basic facts about `find_pos`: its result is either -1 or a valid index
/// whose entry matches, and it is the first such index.
pub proof fn lemma_find_pos_props(entries: Seq<(ChunkPosition, RasterChunk)>, cx: int, cy: int)
    ensures
        find_pos(entries, cx, cy) >= 0 ==> {
            &&& find_pos(entries, cx, cy) < entries.len()
            &&& entries[find_pos(entries, cx, cy)].0.x == cx
            &&& entries[find_pos(entries, cx, cy)].0.y == cy
        },
        find_pos(entries, cx, cy) >= -1,
        forall|i: int|
            0 <= i < entries.len() && (#[trigger] entries[i]).0.x == cx && entries[i].0.y == cy
                ==> 0 <= find_pos(entries, cx, cy) <= i,
    decreases entries.len(),
{
    if entries.len() == 0 {
    } else if entries[0].0.x == cx && entries[0].0.y == cy {
    } else {
        lemma_find_pos_props(entries.drop_first(), cx, cy);
        assert forall|i: int|
            0 <= i < entries.len() && (#[trigger] entries[i]).0.x == cx && entries[i].0.y == cy
            implies 0 <= find_pos(entries, cx, cy) <= i by {
            assert(i != 0);
            assert(entries.drop_first()[i - 1] == entries[i]);
        }
    }
}

/// Replacing an entry without changing its chunk coordinate leaves every
/// `find_pos` query unchanged.
pub proof fn lemma_find_pos_update(
    entries: Seq<(ChunkPosition, RasterChunk)>,
    j: int,
    e: (ChunkPosition, RasterChunk),
    cx: int,
    cy: int,
)
    requires
        0 <= j < entries.len(),
        e.0 == entries[j].0,
    ensures
        find_pos(entries.update(j, e), cx, cy) == find_pos(entries, cx, cy),
    decreases entries.len(),
{
    let s2 = entries.update(j, e);
    assert(s2.len() == entries.len());
    assert(s2[0].0 == entries[0].0);
    if entries[0].0.x == cx && entries[0].0.y == cy {
    } else {
        if j == 0 {
            assert(s2.drop_first() =~= entries.drop_first());
        } else {
            assert(s2.drop_first() =~= entries.drop_first().update(j - 1, e));
            assert(entries.drop_first()[j - 1] == entries[j]);
            lemma_find_pos_update(entries.drop_first(), j - 1, e, cx, cy);
        }
    }
}

/// Appending an entry leaves every existing `find_pos` result unchanged and
/// makes the new entry findable where nothing was before.
pub proof fn lemma_find_pos_push(
    entries: Seq<(ChunkPosition, RasterChunk)>,
    e: (ChunkPosition, RasterChunk),
    cx: int,
    cy: int,
)
    ensures
        find_pos(entries.push(e), cx, cy) == (if find_pos(entries, cx, cy) >= 0 {
            find_pos(entries, cx, cy)
        } else if e.0.x == cx && e.0.y == cy {
            entries.len() as int
        } else {
            -1
        }),
    decreases entries.len(),
{
    lemma_find_pos_props(entries, cx, cy);
    let s2 = entries.push(e);
    assert(s2.len() == entries.len() + 1);
    assert(s2[entries.len() as int] == e);
    if entries.len() == 0 {
        assert(s2[0] == e);
        if e.0.x == cx && e.0.y == cy {
            assert(find_pos(s2, cx, cy) == 0);
        } else {
            assert(s2.drop_first() =~= Seq::<(ChunkPosition, RasterChunk)>::empty());
            assert(find_pos(s2.drop_first(), cx, cy) == -1);
            assert(find_pos(s2, cx, cy) == -1);
        }
    } else {
        assert(s2[0] == entries[0]);
        if entries[0].0.x == cx && entries[0].0.y == cy {
            assert(find_pos(s2, cx, cy) == 0);
            assert(find_pos(entries, cx, cy) == 0);
        } else {
            lemma_find_pos_push(entries.drop_first(), e, cx, cy);
            assert(s2.drop_first() =~= entries.drop_first().push(e));
            let rd = find_pos(entries.drop_first(), cx, cy);
            lemma_find_pos_props(entries.drop_first(), cx, cy);
            assert(find_pos(s2.drop_first(), cx, cy) == (if rd >= 0 {
                rd
            } else if e.0.x == cx && e.0.y == cy {
                entries.len() - 1
            } else {
                -1
            }));
            assert(find_pos(entries, cx, cy) == (if rd >= 0 {
                rd + 1
            } else {
                -1
            }));
        }
    }
}

/// Floor division by a positive divisor, agreeing with mathematical
/// (Euclidean) division on every input.
pub(crate) fn floor_div_i128(a: i128, b: i128) -> (q: i128)
    requires
        0 < b,
    ensures
        q == a as int / b as int,
{
    if a >= 0 {
        let q0 = (a as u128) / (b as u128);
        proof {
            let ai = a as int;
            let bi = b as int;
            let q0i = q0 as int;
            assert(q0i == ai / bi);
            lemma_fundamental_div_mod(ai, bi);
            lemma_mod_bound(ai, bi);
            assert(bi * q0i <= ai);
            assert(q0i <= bi * q0i) by (nonlinear_arith)
                requires 0 <= q0i, 1 <= bi
            ;
        }
        q0 as i128
    } else {
        // floor(a / b) == -1 - floor((-a - 1) / b) for b > 0
        let na = -(a + 1);
        let q0 = (na as u128) / (b as u128);
        let q = -1 - (q0 as i128);
        proof {
            let ai = a as int;
            let bi = b as int;
            let nai = na as int;
            let q0i = q0 as int;
            lemma_fundamental_div_mod(nai, bi);
            lemma_mod_bound(nai, bi);
            let r0 = nai % bi;
            assert(nai == bi * q0i + r0);
            assert(ai == -nai - 1);
            assert(ai == (-q0i - 1) * bi + (bi - r0 - 1)) by (nonlinear_arith)
                requires nai == bi * q0i + r0, ai == -nai - 1
            ;
            lemma_fundamental_div_mod_converse(ai, bi, -q0i - 1, bi - r0 - 1);
        }
        q
    }
}


/// A chunk coordinate stays within the canvas coordinate range when it comes
/// from a coordinate in that range.
proof fn lemma_div_range(a: int, d: int)
    requires
        d >= 1,
        -0x8000_0000_0000_0000 <= a < 0x8000_0000_0000_0000,
    ensures
        -0x8000_0000_0000_0000 <= a / d < 0x8000_0000_0000_0000,
{
    lemma_fundamental_div_mod(a, d);
    lemma_mod_bound(a, d);
    let q = a / d;
    let r = a % d;
    assert(-0x8000_0000_0000_0000 <= q < 0x8000_0000_0000_0000) by (nonlinear_arith)
        requires
            d >= 1,
            0 <= r < d,
            a == d * q + r,
            -0x8000_0000_0000_0000 <= a < 0x8000_0000_0000_0000,
    ;
}

/// A sparse, unbounded grid of fixed-size chunks, created lazily on first
/// write. Coordinates not covered by any chunk implicitly hold the default
/// pixel.
#[derive(Clone, Debug)]
pub struct RasterLayer {
    chunk_size: usize,
    chunks: Vec<(ChunkPosition, RasterChunk)>,
}

impl RasterLayer {
    /// The configured chunk edge length, as a specification value.
    pub closed spec fn spec_chunk_size(self) -> usize {
        self.chunk_size
    }

    /// The stored chunk entries, as a specification value.
    pub closed spec fn spec_chunks(self) -> Seq<(ChunkPosition, RasterChunk)> {
        self.chunks@
    }

    /// Well-formedness: a positive chunk edge whose square is addressable,
    /// and every stored chunk dense with exactly that edge length.
    pub open spec fn wf(self) -> bool {
        &&& self.spec_chunk_size() > 0
        &&& self.spec_chunk_size() * self.spec_chunk_size() <= usize::MAX
        &&& forall|i: int|
            0 <= i < self.spec_chunks().len() ==> {
                &&& (#[trigger] self.spec_chunks()[i]).1.wf()
                &&& self.spec_chunks()[i].1.spec_dimensions() == (Dimensions {
                    width: self.spec_chunk_size(),
                    height: self.spec_chunk_size(),
                })
            }
    }

    /// The pixel this layer holds at a canvas coordinate: the stored value in
    /// the chunk covering the coordinate, or the default pixel where no chunk
    /// has been created.
    pub open spec fn pixel_value(self, x: int, y: int) -> Pixel {
        let cs = self.spec_chunk_size() as int;
        let i = find_pos(self.spec_chunks(), x / cs, y / cs);
        if i >= 0 {
            self.spec_chunks()[i].1.pixel_at(x % cs, y % cs)
        } else {
            Pixel(0)
        }
    }

    /// Creates an empty layer with the given chunk edge length.
    pub fn new(chunk_size: usize) -> (l: RasterLayer)
        requires
            chunk_size > 0,
            chunk_size * chunk_size <= usize::MAX,
        ensures
            l.wf(),
            l.spec_chunk_size() == chunk_size,
            l.spec_chunks().len() == 0,
    {
        RasterLayer { chunk_size, chunks: Vec::new() }
    }

    /// The configured chunk edge length.
    pub fn chunk_size(&self) -> (s: usize)
        ensures
            s == self.spec_chunk_size(),
    {
        self.chunk_size
    }

    /// Finds the index of the stored chunk at a chunk coordinate, if any.
    fn find_chunk_index(&self, cx: i64, cy: i64) -> (r: Option<usize>)
        ensures
            match r {
                Some(i) => i < self.spec_chunks().len() && find_pos(
                    self.spec_chunks(),
                    cx as int,
                    cy as int,
                ) == i,
                None => find_pos(self.spec_chunks(), cx as int, cy as int) == -1,
            },
    {
        let n = self.chunks.len();
        let mut i: usize = 0;
        while i < n
            invariant
                n == self.spec_chunks().len(),
                i <= n,
                forall|j: int|
                    0 <= j < i ==> !((#[trigger] self.spec_chunks()[j]).0.x == cx
                        && self.spec_chunks()[j].0.y == cy),
            decreases n - i,
        {
            let pos = self.chunks[i].0;
            if pos.x == cx && pos.y == cy {
                proof {
                    lemma_find_pos_props(self.spec_chunks(), cx as int, cy as int);
                }
                return Some(i);
            }
            i = i + 1;
        }
        proof {
            lemma_find_pos_props(self.spec_chunks(), cx as int, cy as int);
        }
        None
    }

    /// Reads the pixel at a canvas coordinate.
    pub fn pixel_at_canvas(&self, x: i128, y: i128) -> (p: Pixel)
        requires
            self.wf(),
            -0x8000_0000_0000_0000 <= x < 0x8000_0000_0000_0000,
            -0x8000_0000_0000_0000 <= y < 0x8000_0000_0000_0000,
        ensures
            p == self.pixel_value(x as int, y as int),
    {
        let cs = self.chunk_size as i128;
        let cx = floor_div_i128(x, cs);
        let cy = floor_div_i128(y, cs);
        proof {
            lemma_div_range(x as int, cs as int);
            lemma_div_range(y as int, cs as int);
        }
        match self.find_chunk_index(cx as i64, cy as i64) {
            Some(i) => {
                proof {
                    lemma_fundamental_div_mod(x as int, cs as int);
                    lemma_mod_bound(x as int, cs as int);
                    lemma_fundamental_div_mod(y as int, cs as int);
                    lemma_mod_bound(y as int, cs as int);
                }
                let lx = (x - cx * cs) as usize;
                let ly = (y - cy * cs) as usize;
                self.chunks[i].1.get_pixel(lx, ly)
            },
            None => Pixel(0),
        }
    }

    /// Finds the chunk covering a chunk coordinate, creating a default-filled
    /// chunk there if none exists. Never changes any pixel value.
    fn ensure_chunk(&mut self, cx: i64, cy: i64) -> (idx: usize)
        requires
            old(self).wf(),
        ensures
            final(self).wf(),
            final(self).spec_chunk_size() == old(self).spec_chunk_size(),
            idx < final(self).spec_chunks().len(),
            find_pos(final(self).spec_chunks(), cx as int, cy as int) == idx,
            final(self).spec_chunks()[idx as int].0.x == cx,
            final(self).spec_chunks()[idx as int].0.y == cy,
            forall|x: int, y: int|
                #![trigger final(self).pixel_value(x, y)]
                #![trigger old(self).pixel_value(x, y)]
                final(self).pixel_value(x, y) == old(self).pixel_value(x, y),
    {
        match self.find_chunk_index(cx, cy) {
            Some(i) => {
                proof {
                    lemma_find_pos_props(self.spec_chunks(), cx as int, cy as int);
                }
                i
            },
            None => {
                let cs = self.chunk_size;
                let chunk = RasterChunk::new_filled(
                    Dimensions { width: cs, height: cs },
                    Pixel(0),
                );
                let idx = self.chunks.len();
                let entry = (ChunkPosition { x: cx, y: cy }, chunk);
                self.chunks.push(entry);
                proof {
                    let pre = old(self).spec_chunks();
                    let post = self.spec_chunks();
                    assert(post =~= pre.push(entry));
                    lemma_find_pos_push(pre, entry, cx as int, cy as int);
                    let csi = self.spec_chunk_size() as int;
                    assert forall|x: int, y: int|
                        self.pixel_value(x, y) == old(self).pixel_value(x, y) by {
                        let qx = x / csi;
                        let qy = y / csi;
                        lemma_find_pos_push(pre, entry, qx, qy);
                        lemma_find_pos_props(pre, qx, qy);
                        lemma_mod_bound(x, csi);
                        lemma_mod_bound(y, csi);
                        if find_pos(pre, qx, qy) >= 0 {
                            assert(post[find_pos(pre, qx, qy)] == pre[find_pos(pre, qx, qy)]);
                        } else if qx == cx && qy == cy {
                            assert(self.pixel_value(x, y) == entry.1.pixel_at(x % csi, y % csi));
                            assert(entry.1.pixel_at(x % csi, y % csi) == Pixel(0));
                        } else {
                        }
                    }
                }
                idx
            },
        }
    }
}


/// Bound on a product of a signed bounded value and a non-negative bounded
/// value.
pub(crate) proof fn lemma_mul_bound_signed(a: int, b: int, ma: int, mb: int)
    by (nonlinear_arith)
    requires
        -ma <= a <= ma,
        0 <= b <= mb,
        0 <= ma,
    ensures
        -ma * mb <= a * b <= ma * mb,
{
}

/// An action's coverage lies within its target rectangle.
proof fn lemma_covers_in_target(action: RasterLayerAction, x: int, y: int)
    requires
        action.covers(x, y),
    ensures
        action.spec_target().spec_contains(x, y),
{
}

/// What one rasterization action does to a layer, stated over the layers'
/// pixel values: covered coordinates take the action's pixel, all others keep
/// the value they had.
pub open spec fn action_applied(
    before: RasterLayer,
    after: RasterLayer,
    action: RasterLayerAction,
) -> bool {
    forall|x: int, y: int|
        #![trigger action.covers(x, y)]
        #![trigger after.pixel_value(x, y)]
        #![trigger before.pixel_value(x, y)]
        after.pixel_value(x, y) == (if action.covers(x, y) {
            action.spec_pixel()
        } else {
            before.pixel_value(x, y)
        })
}

/// Fill idempotence: applying the same action a second time changes no pixel
/// beyond what the first application already wrote.
pub proof fn lemma_action_idempotent(
    l0: RasterLayer,
    l1: RasterLayer,
    l2: RasterLayer,
    action: RasterLayerAction,
)
    requires
        action_applied(l0, l1, action),
        action_applied(l1, l2, action),
    ensures
        forall|x: int, y: int| l2.pixel_value(x, y) == l1.pixel_value(x, y),
{
}

/// A layer without chunks holds the default pixel everywhere.
pub proof fn lemma_empty_layer_default(l: RasterLayer)
    requires
        l.spec_chunks().len() == 0,
    ensures
        forall|x: int, y: int| l.pixel_value(x, y) == Pixel(0),
{
}

/// Applies an action to one chunk's pixels within a chunk-local scan window.
/// `origin` is the canvas coordinate of the chunk's top-left pixel.
fn apply_action_in_chunk(
    chunk: &mut RasterChunk,
    origin_x: i128,
    origin_y: i128,
    x0: usize,
    y0: usize,
    x1: usize,
    y1: usize,
    action: RasterLayerAction,
)
    requires
        old(chunk).wf(),
        action.spec_valid_target(),
        x0 <= x1 <= old(chunk).spec_dimensions().width,
        y0 <= y1 <= old(chunk).spec_dimensions().height,
        -0x10_0000_0000_0000_0000_0000_0000 <= origin_x <= 0x10_0000_0000_0000_0000_0000_0000,
        -0x10_0000_0000_0000_0000_0000_0000 <= origin_y <= 0x10_0000_0000_0000_0000_0000_0000,
    ensures
        final(chunk).wf(),
        final(chunk).spec_dimensions() == old(chunk).spec_dimensions(),
        forall|lx: int, ly: int|
            old(chunk).spec_dimensions().in_bounds(lx, ly) ==> final(chunk).pixel_at(lx, ly) == (
            if x0 <= lx < x1 && y0 <= ly < y1 && action.covers(origin_x + lx, origin_y + ly) {
                action.spec_pixel()
            } else {
                old(chunk).pixel_at(lx, ly)
            }),
{
    let px = action.pixel();
    let ghost c0 = *chunk;
    let ghost dims = c0.spec_dimensions();
    let mut ly = y0;
    while ly < y1
        invariant
            chunk.wf(),
            chunk.spec_dimensions() == dims,
            c0.wf(),
            dims == c0.spec_dimensions(),
            x0 <= x1 <= dims.width,
            y0 <= ly,
            y0 <= y1 <= dims.height,
            ly <= y1,
            action.spec_valid_target(),
            px == action.spec_pixel(),
            -0x10_0000_0000_0000_0000_0000_0000 <= origin_x
                <= 0x10_0000_0000_0000_0000_0000_0000,
            -0x10_0000_0000_0000_0000_0000_0000 <= origin_y
                <= 0x10_0000_0000_0000_0000_0000_0000,
            forall|lx2: int, ly2: int|
                dims.in_bounds(lx2, ly2) ==> chunk.pixel_at(lx2, ly2) == (if x0 <= lx2 < x1
                    && y0 <= ly2 < ly && action.covers(origin_x + lx2, origin_y + ly2) {
                    px
                } else {
                    c0.pixel_at(lx2, ly2)
                }),
        decreases y1 - ly,
    {
        let mut lx = x0;
        while lx < x1
            invariant
                chunk.wf(),
                chunk.spec_dimensions() == dims,
                c0.wf(),
                dims == c0.spec_dimensions(),
                x0 <= lx,
                x0 <= x1 <= dims.width,
                lx <= x1,
                y0 <= ly < y1,
                y0 <= y1 <= dims.height,
                action.spec_valid_target(),
                px == action.spec_pixel(),
                -0x10_0000_0000_0000_0000_0000_0000 <= origin_x
                    <= 0x10_0000_0000_0000_0000_0000_0000,
                -0x10_0000_0000_0000_0000_0000_0000 <= origin_y
                    <= 0x10_0000_0000_0000_0000_0000_0000,
                forall|lx2: int, ly2: int|
                    dims.in_bounds(lx2, ly2) ==> chunk.pixel_at(lx2, ly2) == (if x0 <= lx2 < x1
                        && y0 <= ly2 < y1 && (ly2 < ly || (ly2 == ly && lx2 < lx))
                        && action.covers(origin_x + lx2, origin_y + ly2) {
                        px
                    } else {
                        c0.pixel_at(lx2, ly2)
                    }),
            decreases x1 - lx,
        {
            if action.covers_at(origin_x + lx as i128, origin_y + ly as i128) {
                chunk.set_pixel(lx, ly, px);
            }
            lx = lx + 1;
        }
        ly = ly + 1;
    }
}

impl RasterLayer {
    /// Applies an action to the pixels lying in the single chunk at a chunk
    /// coordinate, creating the chunk if the action touches it.
    fn apply_to_chunk(&mut self, cx: i64, cy: i64, action: RasterLayerAction)
        requires
            old(self).wf(),
            action.spec_valid_target(),
        ensures
            final(self).wf(),
            final(self).spec_chunk_size() == old(self).spec_chunk_size(),
            forall|x: int, y: int|
                #![trigger action.covers(x, y)]
                #![trigger final(self).pixel_value(x, y)]
                #![trigger old(self).pixel_value(x, y)]
                final(self).pixel_value(x, y) == (if x / (old(self).spec_chunk_size() as int)
                    == cx && y / (old(self).spec_chunk_size() as int) == cy && action.covers(
                    x,
                    y,
                ) {
                    action.spec_pixel()
                } else {
                    old(self).pixel_value(x, y)
                }),
    {
        let ghost l0 = *self;
        let cs = self.chunk_size;
        let csi = cs as i128;
        let ghost csii = cs as int;
        proof {
            assert(csii <= 0x1_0000_0000) by (nonlinear_arith)
                requires 1 <= csii, csii * csii <= 0xffff_ffff_ffff_ffff
            ;
            lemma_mul_bound_signed(cx as int, csii, 0x8000_0000_0000_0000, 0x1_0000_0000);
            lemma_mul_bound_signed(cy as int, csii, 0x8000_0000_0000_0000, 0x1_0000_0000);
        }
        let ox = (cx as i128) * csi;
        let oy = (cy as i128) * csi;
        let rect = action.target();
        let tx0 = rect.top_left.x as i128;
        let ty0 = rect.top_left.y as i128;
        let tx1 = tx0 + rect.dimensions.width as i128;
        let ty1 = ty0 + rect.dimensions.height as i128;
        let lo_x = if tx0 > ox { tx0 } else { ox };
        let hi_x = if tx1 < ox + csi { tx1 } else { ox + csi };
        let lo_y = if ty0 > oy { ty0 } else { oy };
        let hi_y = if ty1 < oy + csi { ty1 } else { oy + csi };
        if lo_x < hi_x && lo_y < hi_y {
            let x0 = (lo_x - ox) as usize;
            let y0 = (lo_y - oy) as usize;
            let x1 = (hi_x - ox) as usize;
            let y1 = (hi_y - oy) as usize;
            let idx = self.ensure_chunk(cx, cy);
            let ghost mid = *self;
            let entry = &mut self.chunks[idx];
            apply_action_in_chunk(&mut entry.1, ox, oy, x0, y0, x1, y1, action);
            proof {
                let post = *self;
                let ghost newentry = post.spec_chunks()[idx as int];
                assert(post.spec_chunks() =~= mid.spec_chunks().update(idx as int, newentry));
                assert(newentry.0 == mid.spec_chunks()[idx as int].0);
                assert forall|x: int, y: int|
                    #![trigger action.covers(x, y)]
                    #![trigger post.pixel_value(x, y)]
                    #![trigger l0.pixel_value(x, y)]
                    post.pixel_value(x, y) == (if x / csii == cx && y / csii == cy
                        && action.covers(x, y) {
                        action.spec_pixel()
                    } else {
                        l0.pixel_value(x, y)
                    }) by {
                    let qx = x / csii;
                    let qy = y / csii;
                    lemma_find_pos_update(mid.spec_chunks(), idx as int, newentry, qx, qy);
                    lemma_fundamental_div_mod(x, csii);
                    lemma_mod_bound(x, csii);
                    lemma_fundamental_div_mod(y, csii);
                    lemma_mod_bound(y, csii);
                    if qx == cx && qy == cy {
                        let lx = x % csii;
                        let ly = y % csii;
                        assert(ox == (cx as int) * csii);
                        assert(x == csii * qx + lx);
                        assert(csii * qx == (cx as int) * csii) by (nonlinear_arith)
                            requires qx == cx as int
                        ;
                        assert(x == ox + lx);
                        assert(oy == (cy as int) * csii);
                        assert(y == csii * qy + ly);
                        assert(csii * qy == (cy as int) * csii) by (nonlinear_arith)
                            requires qy == cy as int
                        ;
                        assert(y == oy + ly);
                        assert(post.pixel_value(x, y) == newentry.1.pixel_at(lx, ly));
                        if action.covers(x, y) {
                            lemma_covers_in_target(action, x, y);
                            assert(x0 <= lx < x1 && y0 <= ly < y1);
                        }
                        assert(mid.spec_chunks()[idx as int].1.pixel_at(lx, ly)
                            == mid.pixel_value(x, y));
                    } else {
                        let j = find_pos(mid.spec_chunks(), qx, qy);
                        lemma_find_pos_props(mid.spec_chunks(), qx, qy);
                        if j >= 0 {
                            assert(j != idx);
                            assert(post.spec_chunks()[j] == mid.spec_chunks()[j]);
                        }
                    }
                }
            }
        } else {
            proof {
                assert forall|x: int, y: int|
                    #![trigger x / csii, y / csii]
                    !(x / csii == cx && y / csii == cy && action.covers(x, y)) by {
                    if x / csii == cx && y / csii == cy && action.covers(x, y) {
                        lemma_covers_in_target(action, x, y);
                        lemma_fundamental_div_mod(x, csii);
                        lemma_mod_bound(x, csii);
                        lemma_fundamental_div_mod(y, csii);
                        lemma_mod_bound(y, csii);
                        assert(x == csii * (x / csii) + x % csii);
                        assert(csii * (x / csii) == (cx as int) * csii) by (nonlinear_arith)
                            requires x / csii == cx as int
                        ;
                        assert(ox <= x < ox + csii);
                        assert(y == csii * (y / csii) + y % csii);
                        assert(csii * (y / csii) == (cy as int) * csii) by (nonlinear_arith)
                            requires y / csii == cy as int
                        ;
                        assert(oy <= y < oy + csii);
                    }
                }
            }
        }
    }
}

impl RasterLayer {
    /// Applies a rasterization action: every covered pixel takes the
    /// action's value, every other pixel keeps its value, and chunks are
    /// created for every touched chunk coordinate. Returns the canvas-space
    /// bounding rectangle of the changed pixels — the target rectangle
    /// itself — or nothing when the target is degenerate.
    pub fn perform_action(&mut self, action: RasterLayerAction) -> (r: Option<CanvasRect>)
        requires
            old(self).wf(),
            action.spec_valid_target(),
        ensures
            final(self).wf(),
            final(self).spec_chunk_size() == old(self).spec_chunk_size(),
            action.spec_target().dimensions.is_empty() ==> r is None,
            !action.spec_target().dimensions.is_empty() ==> r == Some(action.spec_target()),
            action_applied(*old(self), *final(self), action),
    {
        let rect = action.target();
        if rect.dimensions.width == 0 || rect.dimensions.height == 0 {
            proof {
                assert forall|x: int, y: int| #![trigger action.covers(x, y)] !action.covers(
                    x,
                    y,
                ) by {
                    if action.covers(x, y) {
                        lemma_covers_in_target(action, x, y);
                    }
                }
            }
            return None;
        }
        let cs = self.chunk_size;
        let csi = cs as i128;
        let ghost csii = cs as int;
        let rx0 = rect.top_left.x as i128;
        let ry0 = rect.top_left.y as i128;
        let rx1 = rx0 + rect.dimensions.width as i128;
        let ry1 = ry0 + rect.dimensions.height as i128;
        let cx0 = floor_div_i128(rx0, csi);
        let cx1 = floor_div_i128(rx1 - 1, csi);
        let cy0 = floor_div_i128(ry0, csi);
        let cy1 = floor_div_i128(ry1 - 1, csi);
        proof {
            lemma_div_range(rx0 as int, csii);
            lemma_div_range((rx1 - 1) as int, csii);
            lemma_div_range(ry0 as int, csii);
            lemma_div_range((ry1 - 1) as int, csii);
            lemma_div_is_ordered(rx0 as int, (rx1 - 1) as int, csii);
            lemma_div_is_ordered(ry0 as int, (ry1 - 1) as int, csii);
        }
        let ghost l0 = *self;
        proof {
            assert forall|x: int, y: int|
                #![trigger action.covers(x, y)]
                #![trigger self.pixel_value(x, y)]
                #![trigger l0.pixel_value(x, y)]
                self.pixel_value(x, y) == (if action.covers(x, y) && y / csii < cy0 {
                    action.spec_pixel()
                } else {
                    l0.pixel_value(x, y)
                }) by {
                if action.covers(x, y) {
                    lemma_covers_in_target(action, x, y);
                    lemma_div_is_ordered(ry0 as int, y, csii);
                }
            }
        }
        let mut cy = cy0;
        while cy <= cy1
            invariant
                self.wf(),
                self.spec_chunk_size() == l0.spec_chunk_size(),
                l0.wf(),
                action.spec_valid_target(),
                csii == l0.spec_chunk_size() as int,
                csii == csi as int,
                1 <= csi,
                rect == action.spec_target(),
                rx0 == rect.top_left.x as int,
                ry0 == rect.top_left.y as int,
                rx1 == rx0 + rect.dimensions.width,
                ry1 == ry0 + rect.dimensions.height,
                rx0 < rx1,
                ry0 < ry1,
                cx0 == rx0 as int / csii,
                cx1 == (rx1 - 1) as int / csii,
                cy0 == ry0 as int / csii,
                cy1 == (ry1 - 1) as int / csii,
                -0x8000_0000_0000_0000 <= cx0,
                cx1 < 0x8000_0000_0000_0000,
                -0x8000_0000_0000_0000 <= cy0,
                cy1 < 0x8000_0000_0000_0000,
                cx0 <= cx1,
                cy0 <= cy <= cy1 + 1,
                forall|x: int, y: int|
                    #![trigger action.covers(x, y)]
                    #![trigger self.pixel_value(x, y)]
                    #![trigger l0.pixel_value(x, y)]
                    self.pixel_value(x, y) == (if action.covers(x, y) && y / csii < cy {
                        action.spec_pixel()
                    } else {
                        l0.pixel_value(x, y)
                    }),
            decreases cy1 + 1 - cy,
        {
            let mut cx = cx0;
            proof {
                assert forall|x: int, y: int|
                    #![trigger action.covers(x, y)]
                    #![trigger self.pixel_value(x, y)]
                    #![trigger l0.pixel_value(x, y)]
                    self.pixel_value(x, y) == (if action.covers(x, y) && (y / csii < cy as int
                        || (y / csii == cy as int && x / csii < cx0)) {
                        action.spec_pixel()
                    } else {
                        l0.pixel_value(x, y)
                    }) by {
                    if action.covers(x, y) {
                        lemma_covers_in_target(action, x, y);
                        lemma_div_is_ordered(rx0 as int, x, csii);
                    }
                }
            }
            while cx <= cx1
                invariant
                    self.wf(),
                    self.spec_chunk_size() == l0.spec_chunk_size(),
                    l0.wf(),
                    action.spec_valid_target(),
                    csii == l0.spec_chunk_size() as int,
                    csii == csi as int,
                    1 <= csi,
                    rect == action.spec_target(),
                    rx0 == rect.top_left.x as int,
                    ry0 == rect.top_left.y as int,
                    rx1 == rx0 + rect.dimensions.width,
                    ry1 == ry0 + rect.dimensions.height,
                    rx0 < rx1,
                    ry0 < ry1,
                    cx0 == rx0 as int / csii,
                    cx1 == (rx1 - 1) as int / csii,
                    cy0 == ry0 as int / csii,
                    cy1 == (ry1 - 1) as int / csii,
                    -0x8000_0000_0000_0000 <= cx0,
                    cx1 < 0x8000_0000_0000_0000,
                    -0x8000_0000_0000_0000 <= cy0,
                    cy1 < 0x8000_0000_0000_0000,
                    cy0 <= cy <= cy1,
                    cx0 <= cx <= cx1 + 1,
                    forall|x: int, y: int|
                        #![trigger action.covers(x, y)]
                        #![trigger self.pixel_value(x, y)]
                        #![trigger l0.pixel_value(x, y)]
                        self.pixel_value(x, y) == (if action.covers(x, y) && (y / csii < cy
                            || (y / csii == cy && x / csii < cx)) {
                            action.spec_pixel()
                        } else {
                            l0.pixel_value(x, y)
                        }),
                decreases cx1 + 1 - cx,
            {
                let ghost prev = *self;
                self.apply_to_chunk(cx as i64, cy as i64, action);
                proof {
                    assert(self.spec_chunk_size() == prev.spec_chunk_size());
                    assert(self.wf());
                    assert(prev.wf());
                    assert(prev.spec_chunk_size() as int == csii);
                    assert((cx as i64) as int == cx as int);
                    assert((cy as i64) as int == cy as int);
                    assert forall|x: int, y: int|
                        #![trigger action.covers(x, y)]
                        #![trigger self.pixel_value(x, y)]
                        #![trigger l0.pixel_value(x, y)]
                        self.pixel_value(x, y) == (if action.covers(x, y) && (y / csii < cy as int
                            || (y / csii == cy as int && x / csii < cx as int + 1)) {
                            action.spec_pixel()
                        } else {
                            l0.pixel_value(x, y)
                        }) by {
                        assert(self.pixel_value(x, y) == (if x / (prev.spec_chunk_size()
                            as int) == (cx as i64) && y / (prev.spec_chunk_size() as int) == (
                        cy as i64) && action.covers(x, y) {
                            action.spec_pixel()
                        } else {
                            prev.pixel_value(x, y)
                        }));
                        assert(x / (prev.spec_chunk_size() as int) == x / csii);
                        assert(y / (prev.spec_chunk_size() as int) == y / csii);
                        assert(self.pixel_value(x, y) == (if x / csii == cx as int && y / csii
                            == cy as int && action.covers(x, y) {
                            action.spec_pixel()
                        } else {
                            prev.pixel_value(x, y)
                        }));
                        assert(prev.pixel_value(x, y) == (if action.covers(x, y) && (y / csii
                            < cy as int || (y / csii == cy as int && x / csii < cx as int)) {
                            action.spec_pixel()
                        } else {
                            l0.pixel_value(x, y)
                        }));
                    }
                }
                cx = cx + 1;
            }
            proof {
                assert forall|x: int, y: int|
                    #![trigger action.covers(x, y)]
                    #![trigger self.pixel_value(x, y)]
                    #![trigger l0.pixel_value(x, y)]
                    self.pixel_value(x, y) == (if action.covers(x, y) && y / csii < cy + 1 {
                        action.spec_pixel()
                    } else {
                        l0.pixel_value(x, y)
                    }) by {
                    if action.covers(x, y) && y / csii == cy {
                        lemma_covers_in_target(action, x, y);
                        lemma_div_is_ordered(rx0 as int, x, csii);
                        lemma_div_is_ordered(x, (rx1 - 1) as int, csii);
                    }
                }
            }
            cy = cy + 1;
        }
        proof {
            assert forall|x: int, y: int|
                #![trigger action.covers(x, y)]
                #![trigger self.pixel_value(x, y)]
                #![trigger l0.pixel_value(x, y)]
                self.pixel_value(x, y) == (if action.covers(x, y) {
                    action.spec_pixel()
                } else {
                    l0.pixel_value(x, y)
                }) by {
                if action.covers(x, y) {
                    lemma_covers_in_target(action, x, y);
                    lemma_div_is_ordered(ry0 as int, y, csii);
                    lemma_div_is_ordered(y, (ry1 - 1) as int, csii);
                }
            }
        }
        Some(rect)
    }
}

} // verus!
