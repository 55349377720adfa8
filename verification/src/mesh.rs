//! Per-frame mesh assembly: the flat vertex buffer for a run of glyphs and
//! the matching index buffer, two triangles per quad.

use vstd::prelude::*;
use crate::geometry::{Glyph, Vertex, glyph_wf, quad_of};

verus! {

/// Most quads a 16-bit index buffer can address: `4 * 16384 == 65536`
/// vertices, indices `0` through `65535`.
pub const MAX_QUADS: usize = 16384;

/// The flat vertex buffer for `glyphs`: four vertices per glyph, in glyph
/// order, each quad laid out as [`Glyph::as_vertices`] emits it.
pub fn build_vertices(glyphs: &Vec<Glyph>) -> (r: Vec<Vertex>)
    requires
        forall|k: int| 0 <= k < glyphs@.len() ==> glyph_wf(#[trigger] glyphs@[k]),
    ensures
        r@.len() == 4 * glyphs@.len(),
        forall|k: int|
            0 <= k < glyphs@.len() ==> quad_of(
                #[trigger] glyphs@[k],
                r@.subrange(4 * k, 4 * k + 4),
            ),
{
    let mut r: Vec<Vertex> = Vec::new();
    let mut k: usize = 0;
    while k < glyphs.len()
        invariant
            forall|q: int| 0 <= q < glyphs@.len() ==> glyph_wf(#[trigger] glyphs@[q]),
            k <= glyphs@.len(),
            r@.len() == 4 * k,
            forall|q: int|
                0 <= q < k ==> quad_of(#[trigger] glyphs@[q], r@.subrange(4 * q, 4 * q + 4)),
        decreases glyphs@.len() - k,
    {
        let ghost before = r@;
        let quad = glyphs[k].as_vertices();
        r.push(quad[0]);
        r.push(quad[1]);
        r.push(quad[2]);
        r.push(quad[3]);
        proof {
            assert(r@.subrange(4 * k as int, 4 * k as int + 4) =~= quad@);
            assert(forall|q: int|
                0 <= q < k ==> #[trigger] r@.subrange(4 * q, 4 * q + 4) =~= before.subrange(
                    4 * q,
                    4 * q + 4,
                ));
        }
        k = k + 1;
    }
    r
}

/// The index buffer for `quads` quads: for quad `k` the six indices
/// `4k, 4k+1, 4k+2, 4k, 4k+2, 4k+3`, the two triangles of the quad.
pub fn quad_indices(quads: usize) -> (r: Vec<u16>)
    requires
        quads <= MAX_QUADS,
    ensures
        r@.len() == 6 * quads,
        forall|k: int| #![trigger r@[6 * k]]
            0 <= k < quads ==> {
                &&& r@[6 * k] == 4 * k
                &&& r@[6 * k + 1] == 4 * k + 1
                &&& r@[6 * k + 2] == 4 * k + 2
                &&& r@[6 * k + 3] == 4 * k
                &&& r@[6 * k + 4] == 4 * k + 2
                &&& r@[6 * k + 5] == 4 * k + 3
            },
{
    let mut r: Vec<u16> = Vec::new();
    let mut k: usize = 0;
    while k < quads
        invariant
            quads <= MAX_QUADS,
            k <= quads,
            r@.len() == 6 * k,
            forall|q: int| #![trigger r@[6 * q]]
                0 <= q < k ==> {
                    &&& r@[6 * q] == 4 * q
                    &&& r@[6 * q + 1] == 4 * q + 1
                    &&& r@[6 * q + 2] == 4 * q + 2
                    &&& r@[6 * q + 3] == 4 * q
                    &&& r@[6 * q + 4] == 4 * q + 2
                    &&& r@[6 * q + 5] == 4 * q + 3
                },
        decreases quads - k,
    {
        let ghost before = r@;
        let base = (4 * k) as u16;
        r.push(base);
        r.push(base + 1);
        r.push(base + 2);
        r.push(base);
        r.push(base + 2);
        r.push(base + 3);
        proof {
            let kk = k as int;
            assert(r@[6 * kk] == 4 * kk);
            assert(r@[6 * kk + 1] == 4 * kk + 1);
            assert(r@[6 * kk + 2] == 4 * kk + 2);
            assert(r@[6 * kk + 3] == 4 * kk);
            assert(r@[6 * kk + 4] == 4 * kk + 2);
            assert(r@[6 * kk + 5] == 4 * kk + 3);
            assert(forall|q: int|
                0 <= q < 6 * kk ==> #[trigger] r@[q] == before[q]);
        }
        k = k + 1;
    }
    r
}

} // verus!
