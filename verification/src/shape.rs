//! Shape descriptions and the rasterizer dispatch: one immutable value
//! per shape instance, and one draw call that turns it into pixel writes
//! on the canvas.

use vstd::prelude::*;
use vstd::arithmetic::div_mod::lemma_div_multiples_vanish;
use vstd::relations::sorted_by;
use vstd::seq_lib::lemma_sorted_unique;
use crate::canvas::Canvas;
use crate::canvas::MAX_DIM;
use crate::color::Rgb;
use crate::disk::fill_disk;
use crate::disk::fill_half_disk;
use crate::disk::fill_triangle;
use crate::disk::in_disk;
use crate::disk::in_half_disk;
use crate::disk::in_triangle;
use crate::line::draw_polygon_outline;
use crate::line::outline_covers;
use crate::numeric::round_div;
use crate::numeric::tdiv;
use crate::polyfill::col_le;
use crate::polyfill::edge_crosses;
use crate::polyfill::fill_polygon;
use crate::polyfill::lemma_col_le_total;
use crate::polyfill::pair_covers;
use crate::polyfill::poly_covered;
use crate::polyfill::row_at;
use crate::polyfill::row_covers;
use crate::polyfill::xs_at;
use crate::polyfill::xs_upto;
use crate::rotation::Rotation;
use crate::vertices::lemma_square_corners_at_identity;
use crate::vertices::polygon_vertices;
use crate::vertices::square_vertex_seq;
use crate::vertices::square_vertices;
use crate::vertices::vertex_seq;
use crate::vertices::MAX_SHAPE;

verus! {

/// The closed set of shape kinds.
#[derive(Clone, Copy, PartialEq, Eq, Structural, Debug)]
pub enum ShapeKind {
    Circle,
    HalfDisk,
    Triangle,
    Square,
    Pentagon,
    Hexagon,
}

/// The number of vertices of a polygonal kind (0 for the others).
pub open spec fn kind_sides(k: ShapeKind) -> int {
    match k {
        ShapeKind::Square => 4,
        ShapeKind::Pentagon => 5,
        ShapeKind::Hexagon => 6,
        _ => 0,
    }
}

/// Is the kind drawn through the vertex generator?
pub open spec fn is_polygon(k: ShapeKind) -> bool {
    kind_sides(k) >= 4
}

/// One shape instance: kind, anchor, circumradius, rotation and fill
/// color. Created per draw and never mutated.
#[derive(Clone, Copy, PartialEq, Eq, Structural, Debug)]
pub struct ShapeSpec {
    pub kind: ShapeKind,
    pub cx: u32,
    pub cy: u32,
    pub size: u32,
    pub rot: Rotation,
    pub color: Rgb,
}

impl ShapeSpec {
    /// Anchor and size within the engine's limits, rotation well-formed.
    pub open spec fn wf(self) -> bool {
        &&& self.cx <= MAX_DIM
        &&& self.cy <= MAX_DIM
        &&& self.size <= MAX_SHAPE
        &&& self.rot.wf()
    }
}

/// The vertex list a polygonal shape is rasterized from: the square has
/// its own corner set, the pentagon and hexagon come from the regular
/// vertex generator.
pub open spec fn shape_vertices(s: ShapeSpec) -> Seq<(i64, i64)> {
    if s.kind == ShapeKind::Square {
        square_vertex_seq(s.cx as int, s.cy as int, s.size as int, s.rot)
    } else {
        vertex_seq(kind_sides(s.kind), s.cx as int, s.cy as int, s.size as int, s.rot)
    }
}

/// Does the filled rasterization of shape `s` paint pixel `(x, y)`?
pub open spec fn shape_covered(s: ShapeSpec, x: int, y: int) -> bool {
    match s.kind {
        ShapeKind::Circle => in_disk(s.cx as int, s.cy as int, s.size as int, x, y),
        ShapeKind::HalfDisk => in_half_disk(s.cx as int, s.cy as int, s.size as int, s.rot, x, y),
        ShapeKind::Triangle => in_triangle(s.cx as int, s.cy as int, s.size as int, x, y),
        _ => poly_covered(shape_vertices(s), x, y),
    }
}

/// Rasterizes one filled shape onto the canvas: disk membership for the
/// round kinds, scan-line fill for the polygonal ones. Never fails;
/// out-of-canvas pixels are silently dropped.
pub fn draw_shape(canvas: &mut Canvas, s: ShapeSpec)
    requires
        old(canvas).wf(),
        s.wf(),
    ensures
        final(canvas).wf(),
        final(canvas).same_dims(*old(canvas)),
        forall|i: int, j: int|
            old(canvas).in_bounds(i, j) ==> final(canvas).pix(i, j) == (if shape_covered(s, i, j) {
                s.color
            } else {
                old(canvas).pix(i, j)
            }),
{
    match s.kind {
        ShapeKind::Circle => fill_disk(canvas, s.cx, s.cy, s.size, s.color),
        ShapeKind::HalfDisk => fill_half_disk(canvas, s.cx, s.cy, s.size, s.rot, s.color),
        ShapeKind::Triangle => fill_triangle(canvas, s.cx, s.cy, s.size, s.color),
        ShapeKind::Square => {
            let v = square_vertices(s.cx as i64, s.cy as i64, s.size, s.rot);
            fill_polygon(canvas, &v, s.color);
        },
        _ => {
            let n: u32 = if matches!(s.kind, ShapeKind::Pentagon) {
                5
            } else {
                6
            };
            let v = polygon_vertices(n, s.cx as i64, s.cy as i64, s.size, s.rot);
            fill_polygon(canvas, &v, s.color);
        },
    }
}

/// Law: at rotation zero the square covers exactly the half-open
/// axis-aligned square of side `size` around the anchor — the pixels
/// with `cx - h <= x < cx + h` and `cy - h <= y < cy + h`, where `h` is
/// half the size rounded to the nearest pixel.
pub proof fn lemma_square_region_at_identity(s: ShapeSpec, x: int, y: int)
    requires
        s.wf(),
        s.kind == ShapeKind::Square,
        s.rot == (Rotation { cos_q: 65536, sin_q: 0 }),
        2 <= s.size,
    ensures
        ({
            let h = round_div(s.size as int * 32768, 65536);
            shape_covered(s, x, y) <==> (s.cx - h <= x < s.cx + h && s.cy - h <= y < s.cy + h)
        }),
{
    let cx = s.cx as int;
    let cy = s.cy as int;
    let size = s.size as int;
    let h = round_div(size * 32768, 65536);
    let rot = Rotation { cos_q: 65536, sin_q: 0 };
    let pts = square_vertex_seq(cx, cy, size, rot);
    lemma_square_corners_at_identity(cx, cy, size);
    assert(1 <= h <= size) by {
        assert((size * 32768 + 32768) / 65536 >= 1) by (nonlinear_arith)
            requires size >= 2;
        assert(size * 32768 + 32768 <= size * 65536) by (nonlinear_arith)
            requires size >= 1;
        vstd::arithmetic::div_mod::lemma_div_is_ordered(size * 32768 + 32768, size * 65536, 65536);
        lemma_div_multiples_vanish(size, 65536);
    }
    assert(pts[0].0 as int == cx + h - 1 && pts[0].1 as int == cy + h);
    assert(pts[1].0 as int == cx - h && pts[1].1 as int == cy + h);
    assert(pts[2].0 as int == cx - h && pts[2].1 as int == cy - h);
    assert(pts[3].0 as int == cx + h - 1 && pts[3].1 as int == cy - h);
    assert(!edge_crosses(pts[0], pts[1], y));
    assert(!edge_crosses(pts[2], pts[3], y));
    assert(tdiv(0, pts[2].1 as int - pts[1].1 as int) == 0) by {
        lemma_div_multiples_vanish(0, 2 * h);
    }
    assert(tdiv(0, pts[0].1 as int - pts[3].1 as int) == 0) by {
        lemma_div_multiples_vanish(0, 2 * h);
    }
    assert(xs_upto(pts, y, 0) =~= Seq::<i64>::empty());
    assert(xs_upto(pts, y, 1) =~= Seq::<i64>::empty());
    if cy - h <= y < cy + h {
        let a = (cx - h) as i64;
        let b = (cx + h - 1) as i64;
        assert(edge_crosses(pts[1], pts[2], y));
        assert(edge_crosses(pts[3], pts[0], y));
        assert((y - pts[1].1 as int) * (pts[2].0 as int - pts[1].0 as int) == 0);
        assert((y - pts[3].1 as int) * (pts[0].0 as int - pts[3].0 as int) == 0);
        assert(xs_upto(pts, y, 2) =~= seq![a]);
        assert(xs_upto(pts, y, 3) =~= seq![a]);
        assert(xs_at(pts, y) =~= seq![a, b]);
        let xs = xs_at(pts, y);
        assert(sorted_by(xs, col_le())) by {
            assert forall|i: int, j: int| 0 <= i < j < xs.len() implies #[trigger] col_le()(
                xs[i],
                xs[j],
            ) by {
                assert(i == 0 && j == 1);
            }
        }
        xs.lemma_sort_by_ensures(col_le());
        lemma_col_le_total();
        lemma_sorted_unique(xs, xs.sort_by(col_le()), col_le());
        let row = row_at(pts, y);
        assert(row =~= seq![a, b]);
        if cx - h <= x < cx + h {
            assert(pair_covers(row, 0, x));
            assert(row_covers(row, x));
        }
        if row_covers(row, x) {
            let t = choose|t: int| 0 <= t && #[trigger] pair_covers(row, t, x);
            assert(t == 0);
            assert(cx - h <= x < cx + h);
        }
    } else {
        assert(xs_upto(pts, y, 2) =~= Seq::<i64>::empty());
        assert(xs_upto(pts, y, 3) =~= Seq::<i64>::empty());
        assert(xs_at(pts, y) =~= Seq::<i64>::empty());
        let xs = xs_at(pts, y);
        xs.lemma_sort_by_ensures(col_le());
        let row = row_at(pts, y);
        assert(row.len() == 0) by {
            broadcast use vstd::seq_lib::group_to_multiset_ensures;

            assert(xs.to_multiset() =~= row.to_multiset());
            assert(xs.to_multiset().len() == xs.len());
            assert(row.to_multiset().len() == row.len());
        }
        assert(!row_covers(row, x)) by {
            if row_covers(row, x) {
                let t = choose|t: int| 0 <= t && #[trigger] pair_covers(row, t, x);
            }
        }
    }
}

/// Draws only the outline of a polygonal shape: the closed chain of
/// 8-connected lines between consecutive vertices.
pub fn draw_shape_outline(canvas: &mut Canvas, s: ShapeSpec)
    requires
        old(canvas).wf(),
        s.wf(),
        is_polygon(s.kind),
    ensures
        final(canvas).wf(),
        final(canvas).same_dims(*old(canvas)),
        forall|i: int, j: int|
            old(canvas).in_bounds(i, j) ==> final(canvas).pix(i, j) == (if outline_covers(
                shape_vertices(s),
                i,
                j,
            ) {
                s.color
            } else {
                old(canvas).pix(i, j)
            }),
{
    if matches!(s.kind, ShapeKind::Square) {
        let v = square_vertices(s.cx as i64, s.cy as i64, s.size, s.rot);
        draw_polygon_outline(canvas, &v, s.color);
    } else {
        let n: u32 = if matches!(s.kind, ShapeKind::Pentagon) {
            5
        } else {
            6
        };
        let v = polygon_vertices(n, s.cx as i64, s.cy as i64, s.size, s.rot);
        draw_polygon_outline(canvas, &v, s.color);
    }
}

} // verus!
