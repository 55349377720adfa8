use glyphgrid::frac::Frac;
use glyphgrid::geometry::{Glyph, Vec2};
use glyphgrid::grid::CharacterGrid;
use glyphgrid::mesh::{build_vertices, quad_indices};

fn unit_glyph() -> Glyph {
    let zero = Frac::new(0, 1);
    let one = Frac::new(1, 1);
    Glyph {
        size: Vec2::new(one, one),
        pos: Vec2::new(zero, zero),
        uv_pos: Vec2::new(zero, zero),
        uv_size: Vec2::new(one, one),
    }
}

#[test]
fn unit_glyph_vertex_positions() {
    let vs = unit_glyph().as_vertices();
    // bottom-left, bottom-right, top-right, top-left in device coordinates
    let expect = [(-1, -1), (1, -1), (1, 1), (-1, 1)];
    for (v, (x, y)) in vs.iter().zip(expect) {
        assert_eq!(v.pos.x.num, x);
        assert_eq!(v.pos.x.den, 1);
        assert_eq!(v.pos.y.num, y);
        assert_eq!(v.pos.y.den, 1);
    }
}

#[test]
fn unit_glyph_uv_spans_declared_rectangle() {
    let vs = unit_glyph().as_vertices();
    // with the vertical texture flip the four corners sample the four
    // corners of uv_pos .. uv_pos + uv_size
    let expect = [(0, 0), (1, 0), (1, 1), (0, 1)];
    for (v, (x, y)) in vs.iter().zip(expect) {
        assert_eq!(v.uv.x.num, x);
        assert_eq!(v.uv.x.den, 1);
        assert_eq!(v.uv.y.num, y);
        assert_eq!(v.uv.y.den, 1);
    }
}

#[test]
fn quarter_glyph_vertices_are_exact() {
    // pos (1/2, 0), size (1/2, 1/2): the top-right quarter of the square
    let g = Glyph {
        size: Vec2::new(Frac::new(1, 2), Frac::new(1, 2)),
        pos: Vec2::new(Frac::new(1, 2), Frac::new(0, 1)),
        uv_pos: Vec2::new(Frac::new(0, 1), Frac::new(0, 1)),
        uv_size: Vec2::new(Frac::new(1, 1), Frac::new(1, 1)),
    };
    let vs = g.as_vertices();
    // left edge x: 2 * 1/2 - 1 == 0
    assert_eq!(vs[0].pos.x.num, 0);
    assert_eq!(vs[0].pos.x.den, 2);
    // right edge x: 2 * (1/2 + 1/2) - 1 == 1, over the common denominator 2 * 1
    assert_eq!(vs[1].pos.x.num * 1, 1 * vs[1].pos.x.den);
    // top edge y: 1 - 2 * 0 == 1
    assert_eq!(vs[2].pos.y.num, 1);
    assert_eq!(vs[2].pos.y.den, 1);
    // bottom edge y: 1 - 2 * 1/2 == 0
    assert_eq!(vs[0].pos.y.num, 0);
}

#[test]
fn vertex_buffer_concatenates_quads() {
    let mut grid = CharacterGrid::new(20, (20, 40));
    grid.insert_text("AB");
    let glyphs = grid.glyphs();
    let vertices = build_vertices(&glyphs);
    assert_eq!(vertices.len(), 8);
    let first = glyphs[0].as_vertices();
    let second = glyphs[1].as_vertices();
    assert_eq!(&vertices[0..4], &first[..]);
    assert_eq!(&vertices[4..8], &second[..]);
}

#[test]
fn index_buffer_pattern() {
    assert_eq!(quad_indices(0), Vec::<u16>::new());
    assert_eq!(quad_indices(1), vec![0, 1, 2, 0, 2, 3]);
    assert_eq!(quad_indices(2), vec![0, 1, 2, 0, 2, 3, 4, 5, 6, 4, 6, 7]);
}
