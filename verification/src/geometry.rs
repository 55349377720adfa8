//! Quad geometry for glyphs.
//!
//! A [`Glyph`] describes one character cell in a top-left-origin unit square:
//! `(0, 0)` is the top-left of the viewport and `(1, 1)` the bottom-right,
//! together with the sub-rectangle of the atlas texture it samples.
//! [`Glyph::as_vertices`] turns it into the four corners of a quad in
//! normalized device coordinates (`x` in `[-1, 1]` left to right, `y` in
//! `[-1, 1]` bottom to top), ordered bottom-left, bottom-right, top-right,
//! top-left so the index pattern `[0, 1, 2, 0, 2, 3]` draws two triangles.

use vstd::prelude::*;
use crate::frac::{Frac, frac_wf, frac_is, FRAC_NUM_BOUND, FRAC_DEN_BOUND, FRAC_SUM_NUM_BOUND,
    FRAC_SUM_DEN_BOUND};

verus! {

/// A pair of rational scalars; a point or extent in screen or texture space.
#[derive(Clone, Copy, PartialEq, Eq, Structural, Debug)]
pub struct Vec2 {
    pub x: Frac,
    pub y: Frac,
}

impl Vec2 {
    /// Build the vector `(x, y)`.
    pub fn new(x: Frac, y: Frac) -> (r: Vec2)
        ensures
            r.x == x,
            r.y == y,
    {
        Vec2 { x, y }
    }
}

/// Both components are well-formed scalars.
pub open spec fn vec2_wf(v: Vec2) -> bool {
    frac_wf(v.x) && frac_wf(v.y)
}

/// One corner of a glyph quad: a position in normalized device coordinates
/// and the texture coordinate sampled there.
#[derive(Clone, Copy, PartialEq, Eq, Structural, Debug)]
pub struct Vertex {
    pub pos: Vec2,
    pub uv: Vec2,
}

/// One character cell: its extent and position in the top-left-origin unit
/// square, and the atlas sub-rectangle (`uv_pos`, `uv_size`) it samples,
/// with `(0, 0)` the top-left of the atlas image.
#[derive(Clone, Copy, PartialEq, Eq, Structural, Debug)]
pub struct Glyph {
    pub size: Vec2,
    pub pos: Vec2,
    pub uv_pos: Vec2,
    pub uv_size: Vec2,
}

/// All eight scalars of the glyph are well-formed.
pub open spec fn glyph_wf(g: Glyph) -> bool {
    vec2_wf(g.size) && vec2_wf(g.pos) && vec2_wf(g.uv_pos) && vec2_wf(g.uv_size)
}

/// Numerator of the exact sum `a + b`, over the denominator [`add_den`].
pub open spec fn add_num(a: Frac, b: Frac) -> int {
    a.num * b.den + b.num * a.den
}

/// Denominator of the exact sum `a + b`.
pub open spec fn add_den(a: Frac, b: Frac) -> int {
    a.den * b.den
}

/// `f` is the device x of the unit-square coordinate `t = tn / td`:
/// `[0, 1]` left to right maps linearly onto `[-1, 1]`, so `f == 2 t - 1`.
pub open spec fn is_ndc_x(f: Frac, tn: int, td: int) -> bool {
    frac_is(f, 2 * tn - td, td)
}

/// `f` is the device y of the unit-square coordinate `t = tn / td`: the
/// vertical axis flips, `[0, 1]` top to bottom maps onto `[1, -1]`, so
/// `f == 1 - 2 t`.
pub open spec fn is_ndc_y(f: Frac, tn: int, td: int) -> bool {
    frac_is(f, td - 2 * tn, td)
}

/// `f` is the vertically flipped texture coordinate of `t = tn / td`:
/// the atlas rows are stored bottom-up in the texture, so `f == 1 - t`.
pub open spec fn is_uv_flip(f: Frac, tn: int, td: int) -> bool {
    frac_is(f, td - tn, td)
}

/// `q` is the quad of glyph `g`: four vertices ordered bottom-left,
/// bottom-right, top-right, top-left. Horizontally a vertex samples the
/// texture edge of its own side; vertically the texture coordinate is
/// flipped, so each corner samples the texel of its visual corner and the
/// UV values span exactly the rectangle `uv_pos .. uv_pos + uv_size`.
pub open spec fn quad_of(g: Glyph, q: Seq<Vertex>) -> bool {
    &&& q.len() == 4
    // bottom-left: x, y + height
    &&& is_ndc_x(q[0].pos.x, g.pos.x.num as int, g.pos.x.den as int)
    &&& is_ndc_y(q[0].pos.y, add_num(g.pos.y, g.size.y), add_den(g.pos.y, g.size.y))
    &&& frac_is(q[0].uv.x, g.uv_pos.x.num as int, g.uv_pos.x.den as int)
    &&& is_uv_flip(q[0].uv.y, add_num(g.uv_pos.y, g.uv_size.y), add_den(g.uv_pos.y, g.uv_size.y))
    // bottom-right: x + width, y + height
    &&& is_ndc_x(q[1].pos.x, add_num(g.pos.x, g.size.x), add_den(g.pos.x, g.size.x))
    &&& is_ndc_y(q[1].pos.y, add_num(g.pos.y, g.size.y), add_den(g.pos.y, g.size.y))
    &&& frac_is(q[1].uv.x, add_num(g.uv_pos.x, g.uv_size.x), add_den(g.uv_pos.x, g.uv_size.x))
    &&& is_uv_flip(q[1].uv.y, add_num(g.uv_pos.y, g.uv_size.y), add_den(g.uv_pos.y, g.uv_size.y))
    // top-right: x + width, y
    &&& is_ndc_x(q[2].pos.x, add_num(g.pos.x, g.size.x), add_den(g.pos.x, g.size.x))
    &&& is_ndc_y(q[2].pos.y, g.pos.y.num as int, g.pos.y.den as int)
    &&& frac_is(q[2].uv.x, add_num(g.uv_pos.x, g.uv_size.x), add_den(g.uv_pos.x, g.uv_size.x))
    &&& is_uv_flip(q[2].uv.y, g.uv_pos.y.num as int, g.uv_pos.y.den as int)
    // top-left: x, y
    &&& is_ndc_x(q[3].pos.x, g.pos.x.num as int, g.pos.x.den as int)
    &&& is_ndc_y(q[3].pos.y, g.pos.y.num as int, g.pos.y.den as int)
    &&& frac_is(q[3].uv.x, g.uv_pos.x.num as int, g.uv_pos.x.den as int)
    &&& is_uv_flip(q[3].uv.y, g.uv_pos.y.num as int, g.uv_pos.y.den as int)
}

/// Exact sum of two well-formed scalars, over the product denominator.
fn frac_add(a: Frac, b: Frac) -> (r: Frac)
    requires
        frac_wf(a),
        frac_wf(b),
    ensures
        r.num == add_num(a, b),
        r.den == add_den(a, b),
        0 < r.den <= FRAC_SUM_DEN_BOUND,
        -FRAC_SUM_NUM_BOUND <= r.num <= FRAC_SUM_NUM_BOUND,
{
    proof {
        assert(-1329227995784915872903807060280344576 <= a.num * b.den
            <= 1329227995784915872903807060280344576) by (nonlinear_arith)
            requires
                -FRAC_NUM_BOUND <= a.num <= FRAC_NUM_BOUND,
                0 < b.den <= FRAC_DEN_BOUND,
        ;
        assert(-1329227995784915872903807060280344576 <= b.num * a.den
            <= 1329227995784915872903807060280344576) by (nonlinear_arith)
            requires
                -FRAC_NUM_BOUND <= b.num <= FRAC_NUM_BOUND,
                0 < a.den <= FRAC_DEN_BOUND,
        ;
        assert(0 < a.den * b.den <= FRAC_SUM_DEN_BOUND) by (nonlinear_arith)
            requires
                0 < a.den <= FRAC_DEN_BOUND,
                0 < b.den <= FRAC_DEN_BOUND,
        ;
    }
    Frac { num: a.num * b.den + b.num * a.den, den: a.den * b.den }
}

impl Glyph {
    /// The four corners of this glyph's quad in normalized device
    /// coordinates, ordered bottom-left, bottom-right, top-right, top-left,
    /// meant to be drawn as the triangles `(0, 1, 2)` and `(0, 2, 3)`.
    pub fn as_vertices(&self) -> (r: [Vertex; 4])
        requires
            glyph_wf(*self),
        ensures
            quad_of(*self, r@),
    {
        let right = frac_add(self.pos.x, self.size.x);
        let bottom = frac_add(self.pos.y, self.size.y);
        let uv_right = frac_add(self.uv_pos.x, self.uv_size.x);
        let uv_bottom = frac_add(self.uv_pos.y, self.uv_size.y);

        let ndc_left = Frac { num: 2 * self.pos.x.num - self.pos.x.den, den: self.pos.x.den };
        let ndc_right = Frac { num: 2 * right.num - right.den, den: right.den };
        let ndc_top = Frac { num: self.pos.y.den - 2 * self.pos.y.num, den: self.pos.y.den };
        let ndc_bottom = Frac { num: bottom.den - 2 * bottom.num, den: bottom.den };

        let uv_x_left = self.uv_pos.x;
        let uv_x_right = uv_right;
        let uv_y_top = Frac { num: self.uv_pos.y.den - self.uv_pos.y.num, den: self.uv_pos.y.den };
        let uv_y_bottom = Frac { num: uv_bottom.den - uv_bottom.num, den: uv_bottom.den };

        let bottom_left = Vertex {
            pos: Vec2 { x: ndc_left, y: ndc_bottom },
            uv: Vec2 { x: uv_x_left, y: uv_y_bottom },
        };
        let bottom_right = Vertex {
            pos: Vec2 { x: ndc_right, y: ndc_bottom },
            uv: Vec2 { x: uv_x_right, y: uv_y_bottom },
        };
        let top_right = Vertex {
            pos: Vec2 { x: ndc_right, y: ndc_top },
            uv: Vec2 { x: uv_x_right, y: uv_y_top },
        };
        let top_left = Vertex {
            pos: Vec2 { x: ndc_left, y: ndc_top },
            uv: Vec2 { x: uv_x_left, y: uv_y_top },
        };
        [bottom_left, bottom_right, top_right, top_left]
    }
}

} // verus!
