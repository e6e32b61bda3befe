//! Vertex generation for the polygonal kinds: vertex `i` of the
//! pentagon and hexagon lies at angle `rotation + i * (2*pi / n)`, at
//! the circumradius, rounded to the nearest pixel. The cosines and
//! sines of the fixed per-kind angles are built-in fixed-point
//! constants; the rotation contributes through the angle-addition
//! identities, so the whole computation is exact integer arithmetic.
//!
//! The square has its own corner set: at rotation zero its vertices are
//! the axis-aligned corners at half the size, with the two corners on
//! the positive-x side pulled in by one pixel, so that under the
//! scan-line fill rule (half-open rows, inclusive columns) the filled
//! region is exactly the half-open square of side `size`.

use vstd::prelude::*;
use vstd::arithmetic::div_mod::lemma_fundamental_div_mod;
use crate::canvas::MAX_DIM;
use crate::numeric::lemma_mul_bound;
use crate::numeric::round_div;
use crate::numeric::round_div_i64;
use crate::rotation::Rotation;
use crate::rotation::SCALE_SQ;

verus! {

/// The largest shape size the engine accepts.
pub const MAX_SHAPE: u32 = 0x100000;

/// Scaled cosine of the fixed angle of vertex `i` of the `n`-gon
/// (meaningful for `5 <= n <= 6`, `0 <= i < n`).
pub open spec fn tab_cos(n: int, i: int) -> int {
    if n == 5 {
        if i == 0 { 65536 } else if i == 1 { 20252 } else if i == 2 { -53020 } else if i == 3 {
            -53020
        } else { 20252 }
    } else {
        if i == 0 { 65536 } else if i == 1 { 32768 } else if i == 2 { -32768 } else if i == 3 {
            -65536
        } else if i == 4 { -32768 } else { 32768 }
    }
}

/// Scaled sine of the fixed angle of vertex `i` of the `n`-gon.
pub open spec fn tab_sin(n: int, i: int) -> int {
    if n == 5 {
        if i == 0 { 0 } else if i == 1 { 62328 } else if i == 2 { 38521 } else if i == 3 {
            -38521
        } else { -62328 }
    } else {
        if i == 0 { 0 } else if i == 1 { 56756 } else if i == 2 { 56756 } else if i == 3 {
            0
        } else if i == 4 { -56756 } else { -56756 }
    }
}

/// The table entry for vertex `i` of the `n`-gon.
fn table_entry(n: u32, i: u32) -> (e: (i64, i64))
    requires
        5 <= n <= 6,
        i < n,
    ensures
        e.0 == tab_cos(n as int, i as int),
        e.1 == tab_sin(n as int, i as int),
{
    if n == 5 {
        match i {
            0 => (65536, 0),
            1 => (20252, 62328),
            2 => (-53020, 38521),
            3 => (-53020, -38521),
            _ => (20252, -62328),
        }
    } else {
        match i {
            0 => (65536, 0),
            1 => (32768, 56756),
            2 => (-32768, 56756),
            3 => (-65536, 0),
            4 => (-32768, -56756),
            _ => (32768, -56756),
        }
    }
}

/// Horizontal offset of vertex `i` from the anchor: the rotated, scaled
/// cosine times the size, rounded to the nearest pixel.
pub open spec fn vertex_dx(n: int, rot: Rotation, size: int, i: int) -> int {
    round_div(size * (rot.cos_q * tab_cos(n, i) - rot.sin_q * tab_sin(n, i)), SCALE_SQ as int)
}

/// Vertical offset of vertex `i` from the anchor.
pub open spec fn vertex_dy(n: int, rot: Rotation, size: int, i: int) -> int {
    round_div(size * (rot.cos_q * tab_sin(n, i) + rot.sin_q * tab_cos(n, i)), SCALE_SQ as int)
}

/// The ordered vertices of the regular `n`-gon centered at `(cx, cy)`.
pub open spec fn vertex_seq(n: int, cx: int, cy: int, size: int, rot: Rotation) -> Seq<(i64, i64)> {
    Seq::new(
        n as nat,
        |i: int| ((cx + vertex_dx(n, rot, size, i)) as i64, (cy + vertex_dy(n, rot, size, i)) as i64),
    )
}

/// A quotient rounded to nearest is bounded by any bound on the exact
/// quotient.
proof fn lemma_round_div_bound(a: int, b: int, m: int)
    requires
        b > 0,
        b % 2 == 0,
        m >= 0,
        -(m * b) <= a <= m * b,
    ensures
        -m <= round_div(a, b) <= m,
{
    if a >= 0 {
        let x = a + b / 2;
        lemma_fundamental_div_mod(x, b);
        assert(x < (m + 1) * b) by (nonlinear_arith)
            requires a <= m * b && b > 0 && x == a + b / 2 && b / 2 < b;
        assert(x / b <= m) by (nonlinear_arith)
            requires x >= 0 && b > 0 && x == b * (x / b) + x % b && 0 <= x % b < b && x < (m + 1) * b;
    } else {
        let x = -a + b / 2;
        lemma_fundamental_div_mod(x, b);
        assert(x < (m + 1) * b) by (nonlinear_arith)
            requires -a <= m * b && b > 0 && x == -a + b / 2 && b / 2 < b;
        assert(x / b <= m) by (nonlinear_arith)
            requires x >= 0 && b > 0 && x == b * (x / b) + x % b && 0 <= x % b < b && x < (m + 1) * b;
        assert(x / b >= 0) by (nonlinear_arith)
            requires x >= 0 && b > 0 && x == b * (x / b) + x % b && 0 <= x % b < b;
    }
}

/// Every vertex offset is at most twice the size plus the anchor bound.
proof fn lemma_vertex_offset_bound(n: int, rot: Rotation, size: int, i: int)
    requires
        rot.wf(),
        0 <= size <= MAX_SHAPE,
    ensures
        -2 * size <= vertex_dx(n, rot, size, i) <= 2 * size,
        -2 * size <= vertex_dy(n, rot, size, i) <= 2 * size,
{
    let s2 = SCALE_SQ as int;
    let tc = tab_cos(n, i);
    let ts = tab_sin(n, i);
    assert(-65536 <= tc <= 65536);
    assert(-65536 <= ts <= 65536);
    lemma_mul_bound(rot.cos_q as int, tc, 65536, 65536);
    lemma_mul_bound(rot.sin_q as int, ts, 65536, 65536);
    lemma_mul_bound(rot.cos_q as int, ts, 65536, 65536);
    lemma_mul_bound(rot.sin_q as int, tc, 65536, 65536);
    let ux = rot.cos_q * tc - rot.sin_q * ts;
    let uy = rot.cos_q * ts + rot.sin_q * tc;
    assert(-2 * s2 <= ux <= 2 * s2);
    assert(-2 * s2 <= uy <= 2 * s2);
    lemma_mul_bound(size, ux, size, 2 * s2);
    lemma_mul_bound(size, uy, size, 2 * s2);
    assert(size * (2 * s2) == (2 * size) * s2) by (nonlinear_arith);
    lemma_round_div_bound(size * ux, s2, 2 * size);
    lemma_round_div_bound(size * uy, s2, 2 * size);
}

/// Computes the ordered vertex list of a regular `n`-gon.
pub fn polygon_vertices(n: u32, cx: i64, cy: i64, size: u32, rot: Rotation) -> (v: Vec<(i64, i64)>)
    requires
        5 <= n <= 6,
        0 <= cx <= MAX_DIM,
        0 <= cy <= MAX_DIM,
        size <= MAX_SHAPE,
        rot.wf(),
    ensures
        v@ == vertex_seq(n as int, cx as int, cy as int, size as int, rot),
        v@.len() == n,
        forall|k: int|
            0 <= k < n ==> -0x400000 <= (#[trigger] v@[k]).0 <= 0x500000 && -0x400000 <= v@[k].1
                <= 0x500000,
{
    let mut v: Vec<(i64, i64)> = Vec::new();
    let mut i: u32 = 0;
    let ghost target = vertex_seq(n as int, cx as int, cy as int, size as int, rot);
    while i < n
        invariant
            i <= n,
            5 <= n <= 6,
            0 <= cx <= MAX_DIM,
            0 <= cy <= MAX_DIM,
            size <= MAX_SHAPE,
            rot.wf(),
            target == vertex_seq(n as int, cx as int, cy as int, size as int, rot),
            v@.len() == i,
            forall|k: int| 0 <= k < i ==> v@[k] == target[k],
        decreases n - i,
    {
        let (tc, ts) = table_entry(n, i);
        proof {
            lemma_mul_bound(rot.cos_q as int, tc as int, 65536, 65536);
            lemma_mul_bound(rot.sin_q as int, ts as int, 65536, 65536);
            lemma_mul_bound(rot.cos_q as int, ts as int, 65536, 65536);
            lemma_mul_bound(rot.sin_q as int, tc as int, 65536, 65536);
        }
        let ux: i64 = rot.cos_q * tc - rot.sin_q * ts;
        let uy: i64 = rot.cos_q * ts + rot.sin_q * tc;
        proof {
            lemma_mul_bound(size as int, ux as int, MAX_SHAPE as int, 2 * (SCALE_SQ as int));
            lemma_mul_bound(size as int, uy as int, MAX_SHAPE as int, 2 * (SCALE_SQ as int));
        }
        let dx = round_div_i64((size as i64) * ux, SCALE_SQ);
        let dy = round_div_i64((size as i64) * uy, SCALE_SQ);
        proof {
            lemma_vertex_offset_bound(n as int, rot, size as int, i as int);
        }
        v.push((cx + dx, cy + dy));
        i = i + 1;
    }
    proof {
        assert(v@ =~= target);
        assert forall|k: int|
            0 <= k < n implies -0x400000 <= (#[trigger] v@[k]).0 <= 0x500000 && -0x400000
            <= v@[k].1 <= 0x500000 by {
            lemma_vertex_offset_bound(n as int, rot, size as int, k);
        }
    }
    v
}

/// The pre-rotation corner offsets of the square, scaled by `SCALE`:
/// half the size on each axis, with the two corners on the positive-x
/// side pulled in by one pixel. Corners come in increasing angular
/// order, starting in the positive-x, positive-y quadrant.
pub open spec fn square_corner_x_q(size: int, i: int) -> int {
    if i == 0 || i == 3 {
        size * 32768 - 65536
    } else {
        -(size * 32768)
    }
}

/// The vertical pre-rotation corner offset of the square, scaled by
/// `SCALE`.
pub open spec fn square_corner_y_q(size: int, i: int) -> int {
    if i == 0 || i == 1 {
        size * 32768
    } else {
        -(size * 32768)
    }
}

/// Horizontal offset of square corner `i` from the anchor, rotated and
/// rounded to the nearest pixel.
pub open spec fn square_dx(rot: Rotation, size: int, i: int) -> int {
    round_div(
        square_corner_x_q(size, i) * rot.cos_q - square_corner_y_q(size, i) * rot.sin_q,
        SCALE_SQ as int,
    )
}

/// Vertical offset of square corner `i` from the anchor.
pub open spec fn square_dy(rot: Rotation, size: int, i: int) -> int {
    round_div(
        square_corner_x_q(size, i) * rot.sin_q + square_corner_y_q(size, i) * rot.cos_q,
        SCALE_SQ as int,
    )
}

/// The ordered corners of the square of side `size` centered at
/// `(cx, cy)`.
pub open spec fn square_vertex_seq(cx: int, cy: int, size: int, rot: Rotation) -> Seq<(i64, i64)> {
    Seq::new(
        4,
        |i: int| ((cx + square_dx(rot, size, i)) as i64, (cy + square_dy(rot, size, i)) as i64),
    )
}

/// Every square corner offset is bounded by the size plus two pixels.
proof fn lemma_square_offset_bound(rot: Rotation, size: int, i: int)
    requires
        rot.wf(),
        0 <= size <= MAX_SHAPE,
    ensures
        -(size + 2) <= square_dx(rot, size, i) <= size + 2,
        -(size + 2) <= square_dy(rot, size, i) <= size + 2,
{
    let s2 = SCALE_SQ as int;
    let ax = square_corner_x_q(size, i);
    let ay = square_corner_y_q(size, i);
    assert(-(size * 32768 + 65536) <= ax <= size * 32768 + 65536);
    assert(-(size * 32768 + 65536) <= ay <= size * 32768 + 65536);
    lemma_mul_bound(ax, rot.cos_q as int, size * 32768 + 65536, 65536);
    lemma_mul_bound(ay, rot.sin_q as int, size * 32768 + 65536, 65536);
    lemma_mul_bound(ax, rot.sin_q as int, size * 32768 + 65536, 65536);
    lemma_mul_bound(ay, rot.cos_q as int, size * 32768 + 65536, 65536);
    assert(2 * ((size * 32768 + 65536) * 65536) == (size + 2) * (65536 * 65536))
        by (nonlinear_arith);
    lemma_round_div_bound(ax * rot.cos_q - ay * rot.sin_q, s2, size + 2);
    lemma_round_div_bound(ax * rot.sin_q + ay * rot.cos_q, s2, size + 2);
}

/// Computes the ordered corner list of the square.
pub fn square_vertices(cx: i64, cy: i64, size: u32, rot: Rotation) -> (v: Vec<(i64, i64)>)
    requires
        0 <= cx <= MAX_DIM,
        0 <= cy <= MAX_DIM,
        size <= MAX_SHAPE,
        rot.wf(),
    ensures
        v@ == square_vertex_seq(cx as int, cy as int, size as int, rot),
        v@.len() == 4,
        forall|k: int|
            0 <= k < 4 ==> -0x400000 <= (#[trigger] v@[k]).0 <= 0x500000 && -0x400000 <= v@[k].1
                <= 0x500000,
{
    let half_q: i64 = (size as i64) * 32768;
    let mut v: Vec<(i64, i64)> = Vec::new();
    let ghost target = square_vertex_seq(cx as int, cy as int, size as int, rot);
    let mut i: u32 = 0;
    while i < 4
        invariant
            i <= 4,
            0 <= cx <= MAX_DIM,
            0 <= cy <= MAX_DIM,
            size <= MAX_SHAPE,
            rot.wf(),
            half_q == size * 32768,
            target == square_vertex_seq(cx as int, cy as int, size as int, rot),
            v@.len() == i,
            forall|k: int| 0 <= k < i ==> v@[k] == target[k],
        decreases 4 - i,
    {
        let ax: i64 = if i == 0 || i == 3 {
            half_q - 65536
        } else {
            -half_q
        };
        let ay: i64 = if i == 0 || i == 1 {
            half_q
        } else {
            -half_q
        };
        proof {
            let m1 = size as int * 32768 + 65536;
            lemma_mul_bound(ax as int, rot.cos_q as int, m1, 65536);
            lemma_mul_bound(ay as int, rot.sin_q as int, m1, 65536);
            lemma_mul_bound(ax as int, rot.sin_q as int, m1, 65536);
            lemma_mul_bound(ay as int, rot.cos_q as int, m1, 65536);
            assert((size as int * 32768 + 65536) * 65536 <= 0x2000_0000_0000_0000)
                by (nonlinear_arith)
                requires size <= 0x100000;
        }
        let dx = round_div_i64(ax * rot.cos_q - ay * rot.sin_q, SCALE_SQ);
        let dy = round_div_i64(ax * rot.sin_q + ay * rot.cos_q, SCALE_SQ);
        proof {
            lemma_square_offset_bound(rot, size as int, i as int);
        }
        v.push((cx + dx, cy + dy));
        i = i + 1;
    }
    proof {
        assert(v@ =~= target);
        assert forall|k: int|
            0 <= k < 4 implies -0x400000 <= (#[trigger] v@[k]).0 <= 0x500000 && -0x400000
            <= v@[k].1 <= 0x500000 by {
            lemma_square_offset_bound(rot, size as int, k);
        }
    }
    v
}

/// Rounding a quotient is unchanged by scaling the numerator and the
/// denominator by the fixed-point scale.
proof fn lemma_round_div_scale(x: int)
    ensures
        round_div(x * 65536, SCALE_SQ as int) == round_div(x, 65536),
{
    if x >= 0 {
        assert(x * 65536 + (SCALE_SQ as int) / 2 == 65536 * (x + 32768));
        vstd::arithmetic::div_mod::lemma_div_denominator(65536 * (x + 32768), 65536, 65536);
        vstd::arithmetic::div_mod::lemma_div_multiples_vanish(x + 32768, 65536);
    } else {
        assert(-(x * 65536) + (SCALE_SQ as int) / 2 == 65536 * (-x + 32768));
        vstd::arithmetic::div_mod::lemma_div_denominator(65536 * (-x + 32768), 65536, 65536);
        vstd::arithmetic::div_mod::lemma_div_multiples_vanish(-x + 32768, 65536);
    }
}

/// Pulling a nonnegative numerator back by one whole denominator lowers
/// the rounded quotient by exactly one.
proof fn lemma_round_div_pred(a: int)
    requires
        a >= 65536,
    ensures
        round_div(a - 65536, 65536) == round_div(a, 65536) - 1,
{
    let y = a + 32768;
    lemma_fundamental_div_mod(y, 65536);
    let q = y / 65536;
    let r = y % 65536;
    vstd::arithmetic::div_mod::lemma_fundamental_div_mod_converse_div(y - 65536, 65536, q - 1, r);
}

/// Law: at rotation zero, the square's corners are the axis-aligned
/// points with offsets `-h` and `h` vertically and `-h` and `h - 1`
/// horizontally, where `h` is half the size rounded to the nearest
/// pixel.
pub proof fn lemma_square_corners_at_identity(cx: int, cy: int, size: int)
    requires
        2 <= size <= MAX_SHAPE,
    ensures
        ({
            let h = round_div(size * 32768, 65536);
            let v = square_vertex_seq(cx, cy, size, Rotation { cos_q: 65536, sin_q: 0 });
            v[0] == (((cx + h - 1) as i64), ((cy + h) as i64)) && v[1] == (((cx - h) as i64), ((cy
                + h) as i64)) && v[2] == (((cx - h) as i64), ((cy - h) as i64)) && v[3] == (((cx + h
                - 1) as i64), ((cy - h) as i64))
        }),
{
    let rot = Rotation { cos_q: 65536, sin_q: 0 };
    let hq = size * 32768;
    let h = round_div(hq, 65536);
    assert forall|i: int| 0 <= i < 4 implies square_dx(rot, size, i) == round_div(
        square_corner_x_q(size, i),
        65536,
    ) && square_dy(rot, size, i) == round_div(square_corner_y_q(size, i), 65536) by {
        let ax = square_corner_x_q(size, i);
        let ay = square_corner_y_q(size, i);
        assert(ax * 65536 - ay * 0 == ax * 65536);
        assert(ax * 0 + ay * 65536 == ay * 65536);
        lemma_round_div_scale(ax);
        lemma_round_div_scale(ay);
    }
    lemma_round_div_pred(hq);
    assert(round_div(-hq, 65536) == -h);
}

/// Law: at rotation zero, vertex 0 of the pentagon and of the hexagon
/// lies exactly at `(cx + size, cy)`.
pub proof fn lemma_vertex_zero_at_identity(n: int, cx: int, cy: int, size: int)
    requires
        n == 5 || n == 6,
        0 <= size <= MAX_SHAPE,
    ensures
        vertex_seq(n, cx, cy, size, Rotation { cos_q: 65536, sin_q: 0 })[0] == (
            ((cx + size) as i64),
            (cy as i64),
        ),
{
    let rot = Rotation { cos_q: 65536, sin_q: 0 };
    let s2 = SCALE_SQ as int;
    assert(rot.cos_q * tab_cos(n, 0) - rot.sin_q * tab_sin(n, 0) == s2);
    assert(rot.cos_q * tab_sin(n, 0) + rot.sin_q * tab_cos(n, 0) == 0);
    assert(size * s2 + s2 / 2 == (s2 / 2) + s2 * size) by (nonlinear_arith);
    assert((size * s2 + s2 / 2) / s2 == size) by {
        vstd::arithmetic::div_mod::lemma_div_multiples_vanish_fancy(size, s2 / 2, s2);
    }
    assert(vertex_dx(n, rot, size, 0) == size);
    assert(size * 0 == 0) by (nonlinear_arith);
    assert(vertex_dy(n, rot, size, 0) == 0);
}

} // verus!
