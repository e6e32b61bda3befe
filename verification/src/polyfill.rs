//! Scan-line polygon fill: for every horizontal row between the polygon's
//! lowest and highest vertex, the crossings of each edge whose vertical
//! span brackets the row under the half-open rule are collected, sorted
//! ascending, and the pixels between consecutive pairs are filled
//! inclusively (the even/odd parity rule). Edge crossings interpolate
//! with division truncating toward zero, which can place a boundary
//! column one pixel off the exact intersection.

use vstd::prelude::*;
use vstd::multiset::Multiset;
use vstd::arithmetic::div_mod::lemma_div_is_ordered;
use vstd::arithmetic::div_mod::lemma_div_multiples_vanish;
use vstd::relations::sorted_by;
use vstd::relations::total_ordering;
use vstd::seq_lib::lemma_multiset_commutative;
use vstd::seq_lib::lemma_sorted_unique;
use vstd::seq_lib::to_multiset_build;
use crate::canvas::Canvas;
use crate::color::Rgb;
use crate::numeric::abs;
use crate::numeric::lemma_mul_bound;
use crate::numeric::tdiv;
use crate::numeric::tdiv_i64;

verus! {

/// The coordinate bound within which polygon vertices must lie.
pub const MAX_COORD: i64 = 0x4000_0000;

/// One vertex within the coordinate bound.
pub open spec fn vertex_ok(p: (i64, i64)) -> bool {
    &&& -MAX_COORD <= p.0 <= MAX_COORD
    &&& -MAX_COORD <= p.1 <= MAX_COORD
}

/// A non-empty vertex list within the coordinate bound.
pub open spec fn poly_ok(pts: Seq<(i64, i64)>) -> bool {
    &&& pts.len() >= 1
    &&& forall|k: int| 0 <= k < pts.len() ==> vertex_ok(#[trigger] pts[k])
}

/// The index following `i` in the closed vertex cycle of length `n`.
pub open spec fn next_idx(n: int, i: int) -> int {
    if i + 1 == n {
        0
    } else {
        i + 1
    }
}

/// The half-open bracketing rule: the edge from `p` to `q` crosses row
/// `y` iff `min(p.1, q.1) <= y < max(p.1, q.1)`.
pub open spec fn edge_crosses(p: (i64, i64), q: (i64, i64), y: int) -> bool {
    (p.1 <= y < q.1) || (q.1 <= y < p.1)
}

/// The column where the edge from `p` to `q` meets row `y`, with the
/// interpolation quotient truncated toward zero (meaningful when the
/// edge crosses the row).
pub open spec fn edge_x_at(p: (i64, i64), q: (i64, i64), y: int) -> int {
    p.0 + tdiv((y - p.1) * (q.0 - p.0), q.1 - p.1)
}

/// The crossings of row `y` by the first `k` edges, in edge order.
pub open spec fn xs_upto(pts: Seq<(i64, i64)>, y: int, k: int) -> Seq<i64>
    decreases k,
{
    if k <= 0 {
        Seq::empty()
    } else {
        let p = pts[k - 1];
        let q = pts[next_idx(pts.len() as int, k - 1)];
        xs_upto(pts, y, k - 1) + (if edge_crosses(p, q, y) {
            seq![(edge_x_at(p, q, y)) as i64]
        } else {
            Seq::empty()
        })
    }
}

/// All crossings of row `y`, in edge order.
pub open spec fn xs_at(pts: Seq<(i64, i64)>, y: int) -> Seq<i64> {
    xs_upto(pts, y, pts.len() as int)
}

/// Ascending order on columns.
pub open spec fn col_le() -> spec_fn(i64, i64) -> bool {
    |a: i64, b: i64| a <= b
}

/// The crossings of row `y`, sorted ascending.
pub open spec fn row_at(pts: Seq<(i64, i64)>, y: int) -> Seq<i64> {
    xs_at(pts, y).sort_by(col_le())
}

/// Is `x` inside crossing pair `t` of the sorted row (inclusive at both
/// ends)?
pub open spec fn pair_covers(row: Seq<i64>, t: int, x: int) -> bool {
    2 * t + 1 < row.len() && row[2 * t] <= x <= row[2 * t + 1]
}

/// Is `x` inside one of the even/odd crossing pairs?
pub open spec fn row_covers(row: Seq<i64>, x: int) -> bool {
    exists|t: int| 0 <= t && #[trigger] pair_covers(row, t, x)
}

/// Pairs whose second index lies below `k` only.
pub open spec fn row_covers_upto(row: Seq<i64>, k: int, x: int) -> bool {
    exists|t: int| 0 <= t && 2 * t + 1 < k && #[trigger] pair_covers(row, t, x)
}

/// Does the scan-line fill of the polygon paint pixel `(x, y)`?
pub open spec fn poly_covered(pts: Seq<(i64, i64)>, x: int, y: int) -> bool {
    row_covers(row_at(pts, y), x)
}

/// The least vertex row among the first `k` vertices (`k >= 1`).
pub open spec fn min_y_upto(pts: Seq<(i64, i64)>, k: int) -> int
    decreases k,
{
    if k <= 1 {
        pts[0].1 as int
    } else if pts[k - 1].1 < min_y_upto(pts, k - 1) {
        pts[k - 1].1 as int
    } else {
        min_y_upto(pts, k - 1)
    }
}

/// The greatest vertex row among the first `k` vertices (`k >= 1`).
pub open spec fn max_y_upto(pts: Seq<(i64, i64)>, k: int) -> int
    decreases k,
{
    if k <= 1 {
        pts[0].1 as int
    } else if pts[k - 1].1 > max_y_upto(pts, k - 1) {
        pts[k - 1].1 as int
    } else {
        max_y_upto(pts, k - 1)
    }
}

/// The least vertex row of the polygon.
pub open spec fn poly_min_y(pts: Seq<(i64, i64)>) -> int {
    min_y_upto(pts, pts.len() as int)
}

/// The greatest vertex row of the polygon.
pub open spec fn poly_max_y(pts: Seq<(i64, i64)>) -> int {
    max_y_upto(pts, pts.len() as int)
}

/// Every vertex row lies between the running minimum and maximum, and
/// both stay within the coordinate bound.
proof fn lemma_minmax_bounds(pts: Seq<(i64, i64)>, k: int, i: int)
    requires
        poly_ok(pts),
        0 <= i < k <= pts.len(),
    ensures
        min_y_upto(pts, k) <= pts[i].1 <= max_y_upto(pts, k),
        min_y_upto(pts, k) <= max_y_upto(pts, k),
        -MAX_COORD <= min_y_upto(pts, k),
        max_y_upto(pts, k) <= MAX_COORD,
    decreases k,
{
    assert(vertex_ok(pts[0]));
    assert(vertex_ok(pts[i]));
    if k <= 1 {
    } else {
        assert(vertex_ok(pts[k - 1]));
        if i < k - 1 {
            lemma_minmax_bounds(pts, k - 1, i);
        } else {
            lemma_minmax_bounds(pts, k - 1, 0);
        }
    }
}

/// A truncating quotient is bounded by any bound on the exact quotient.
proof fn lemma_tdiv_bound(a: int, b: int, m: int)
    requires
        b != 0,
        m >= 0,
        abs(a) <= m * abs(b),
    ensures
        -m <= tdiv(a, b) <= m,
{
    lemma_div_is_ordered(abs(a), m * abs(b), abs(b));
    assert(m * abs(b) == abs(b) * m);
    lemma_div_multiples_vanish(m, abs(b));
    assert(abs(a) / abs(b) <= m);
    assert(abs(a) / abs(b) >= 0) by (nonlinear_arith)
        requires abs(a) >= 0 && abs(b) > 0;
}

/// The crossing column of a bracketing edge lies within three times the
/// coordinate bound, and the interpolation products stay within `i64`.
proof fn lemma_edge_x_bound(p: (i64, i64), q: (i64, i64), y: int)
    requires
        vertex_ok(p),
        vertex_ok(q),
        edge_crosses(p, q, y),
    ensures
        -3 * (MAX_COORD as int) <= edge_x_at(p, q, y) <= 3 * (MAX_COORD as int),
        -(MAX_COORD as int) * 2 <= tdiv((y - p.1) * (q.0 - p.0), q.1 - p.1) <= (MAX_COORD as int)
            * 2,
        abs((y - p.1) * (q.0 - p.0)) <= 0x4000_0000_0000_0000,
{
    let b = q.1 - p.1;
    let dx = q.0 - p.0;
    let a = (y - p.1) * dx;
    assert(abs(y - p.1) <= abs(b));
    assert(abs(dx) <= 2 * (MAX_COORD as int));
    assert(abs(a) <= abs(b) * abs(dx)) by (nonlinear_arith)
        requires abs(y - p.1) <= abs(b) && a == (y - p.1) * dx && abs(y - p.1) >= 0 && abs(dx) >= 0;
    assert(abs(b) * abs(dx) == abs(dx) * abs(b));
    lemma_tdiv_bound(a, b, abs(dx));
    assert(abs(b) <= 2 * (MAX_COORD as int));
    assert(abs(a) <= abs(b) * abs(dx));
    assert(abs(b) * abs(dx) <= 0x4000_0000_0000_0000) by (nonlinear_arith)
        requires abs(b) <= 0x8000_0000 && abs(dx) <= 0x8000_0000 && abs(b) >= 0 && abs(dx) >= 0;
}

/// Rows outside the vertex span have no crossings.
proof fn lemma_xs_empty_outside(pts: Seq<(i64, i64)>, y: int, k: int)
    requires
        poly_ok(pts),
        0 <= k <= pts.len(),
        y < poly_min_y(pts) || y > poly_max_y(pts),
    ensures
        xs_upto(pts, y, k) =~= Seq::<i64>::empty(),
    decreases k,
{
    if k > 0 {
        lemma_xs_empty_outside(pts, y, k - 1);
        let p = pts[k - 1];
        let q = pts[next_idx(pts.len() as int, k - 1)];
        lemma_minmax_bounds(pts, pts.len() as int, k - 1);
        lemma_minmax_bounds(pts, pts.len() as int, next_idx(pts.len() as int, k - 1));
        assert(!edge_crosses(p, q, y));
    }
}

/// Law: no pixel outside the polygon's vertical vertex span is covered.
pub proof fn lemma_no_cover_outside(pts: Seq<(i64, i64)>, x: int, y: int)
    requires
        poly_ok(pts),
        y < poly_min_y(pts) || y > poly_max_y(pts),
    ensures
        !poly_covered(pts, x, y),
{
    lemma_xs_empty_outside(pts, y, pts.len() as int);
    xs_at(pts, y).lemma_sort_by_ensures(col_le());
    lemma_row_len(xs_at(pts, y));
    lemma_row_len(row_at(pts, y));
    assert(row_at(pts, y).len() == 0);
}

/// Multiset length of a sequence equals its length — helper trigger.
proof fn lemma_row_len(s: Seq<i64>)
    ensures
        s.to_multiset().len() == s.len(),
{
    broadcast use vstd::seq_lib::group_to_multiset_ensures;

}

/// Inserting into a sequence adds to its multiset.
proof fn lemma_insert_multiset(s: Seq<i64>, i: int, a: i64)
    requires
        0 <= i <= s.len(),
    ensures
        s.insert(i, a).to_multiset() =~= s.to_multiset().insert(a),
{
    broadcast use vstd::multiset::group_multiset_axioms;
    broadcast use vstd::seq_lib::group_to_multiset_ensures;

    assert(s.insert(i, a) =~= s.take(i) + (seq![a] + s.skip(i)));
    lemma_multiset_commutative(s.take(i), seq![a] + s.skip(i));
    lemma_multiset_commutative(seq![a], s.skip(i));
    assert(seq![a] =~= Seq::<i64>::empty().push(a));
    to_multiset_build(Seq::<i64>::empty(), a);
    vstd::multiset::lemma_multiset_empty_len(Seq::<i64>::empty().to_multiset());
    assert(Seq::<i64>::empty().to_multiset() =~= Multiset::<i64>::empty());
    assert(seq![a].to_multiset() =~= Multiset::<i64>::empty().insert(a));
    assert(s =~= s.take(i) + s.skip(i));
    lemma_multiset_commutative(s.take(i), s.skip(i));
}

/// The ascending order on columns is a total order.
pub proof fn lemma_col_le_total()
    ensures
        total_ordering(col_le()),
{
    let leq = col_le();
    assert forall|a: i64| #[trigger] leq(a, a) by {}
    assert forall|a: i64, b: i64| #[trigger] leq(a, b) && #[trigger] leq(b, a) implies a == b by {}
    assert forall|a: i64, b: i64, c: i64| #[trigger] leq(a, b) && #[trigger] leq(b, c) implies leq(
        a,
        c,
    ) by {}
    assert forall|a: i64, b: i64| !(#[trigger] leq(a, b)) implies #[trigger] leq(b, a) by {}
}

/// Inserts `x` into a sorted vector, keeping it sorted.
fn sorted_insert(v: &mut Vec<i64>, x: i64)
    requires
        sorted_by(old(v)@, col_le()),
    ensures
        sorted_by(final(v)@, col_le()),
        final(v)@.to_multiset() =~= old(v)@.to_multiset().insert(x),
        final(v)@.len() == old(v)@.len() + 1,
{
    let ghost orig = v@;
    let mut pos: usize = 0;
    while pos < v.len() && v[pos] <= x
        invariant
            pos <= v@.len(),
            sorted_by(v@, col_le()),
            v@ == orig,
            forall|t: int| 0 <= t < pos ==> v@[t] <= x,
        decreases v@.len() - pos,
    {
        pos = pos + 1;
    }
    proof {
        assert(forall|t: int| pos <= t < v@.len() ==> col_le()(v@[pos as int], #[trigger] v@[t]));
        assert(forall|t: int| pos <= t < v@.len() ==> x < #[trigger] v@[t]);
    }
    let ghost before = v@;
    v.insert(pos, x);
    proof {
        lemma_insert_multiset(before, pos as int, x);
        assert forall|a: int, b: int| 0 <= a < b < v@.len() implies col_le()(v@[a], v@[b]) by {
            if b < pos {
            } else if a < pos && b == pos {
            } else if a < pos && b > pos {
                assert(v@[b] == before[b - 1]);
            } else if a == pos {
                assert(b > pos && v@[b] == before[b - 1] && x < before[b - 1]);
            } else {
                assert(v@[a] == before[a - 1] && v@[b] == before[b - 1]);
            }
        }
    }
}

/// Sorts the crossing columns ascending; the result is exactly the
/// sorted permutation `Seq::sort_by` denotes.
fn sort_columns(xs: &Vec<i64>) -> (out: Vec<i64>)
    ensures
        out@ == xs@.sort_by(col_le()),
        sorted_by(out@, col_le()),
{
    let mut out: Vec<i64> = Vec::new();
    proof {
        assert(xs@.take(0) =~= Seq::<i64>::empty());
    }
    let mut i: usize = 0;
    while i < xs.len()
        invariant
            i <= xs@.len(),
            sorted_by(out@, col_le()),
            out@.to_multiset() =~= xs@.take(i as int).to_multiset(),
            out@.len() == i,
        decreases xs@.len() - i,
    {
        let ghost prefix = xs@.take(i as int);
        sorted_insert(&mut out, xs[i]);
        proof {
            to_multiset_build(prefix, xs@[i as int]);
            assert(xs@.take(i + 1) =~= prefix.push(xs@[i as int]));
        }
        i = i + 1;
    }
    proof {
        assert(xs@.take(xs@.len() as int) =~= xs@);
        xs@.lemma_sort_by_ensures(col_le());
        lemma_col_le_total();
        lemma_sorted_unique(out@, xs@.sort_by(col_le()), col_le());
    }
    out
}

/// Every crossing column of a row lies within three times the coordinate
/// bound.
proof fn lemma_xs_bounded(pts: Seq<(i64, i64)>, y: int, k: int)
    requires
        poly_ok(pts),
        0 <= k <= pts.len(),
    ensures
        forall|t: int|
            0 <= t < xs_upto(pts, y, k).len() ==> -3 * (MAX_COORD as int) <= #[trigger] xs_upto(
                pts,
                y,
                k,
            )[t] <= 3 * (MAX_COORD as int),
    decreases k,
{
    if k > 0 {
        lemma_xs_bounded(pts, y, k - 1);
        let p = pts[k - 1];
        let q = pts[next_idx(pts.len() as int, k - 1)];
        let prev = xs_upto(pts, y, k - 1);
        let cur = xs_upto(pts, y, k);
        if edge_crosses(p, q, y) {
            lemma_edge_x_bound(p, q, y);
            assert(cur =~= prev + seq![(edge_x_at(p, q, y)) as i64]);
        } else {
            assert(cur =~= prev);
        }
        assert forall|t: int| 0 <= t < cur.len() implies -3 * (MAX_COORD as int) <= #[trigger] cur[t]
            <= 3 * (MAX_COORD as int) by {
            if t < prev.len() {
                assert(cur[t] == prev[t]);
            }
        }
    }
}

/// Fills the polygon's interior row by row under the parity rule; pixels
/// outside the canvas are silently skipped.
pub fn fill_polygon(canvas: &mut Canvas, pts: &Vec<(i64, i64)>, color: Rgb)
    requires
        old(canvas).wf(),
        poly_ok(pts@),
    ensures
        final(canvas).wf(),
        final(canvas).same_dims(*old(canvas)),
        forall|i: int, j: int|
            old(canvas).in_bounds(i, j) ==> final(canvas).pix(i, j) == (if poly_covered(
                pts@,
                i,
                j,
            ) {
                color
            } else {
                old(canvas).pix(i, j)
            }),
{
    let ghost c0 = *canvas;
    let n = pts.len();
    let mut miny: i64 = pts[0].1;
    let mut maxy: i64 = pts[0].1;
    let mut k: usize = 1;
    while k < n
        invariant
            1 <= k <= n,
            n == pts@.len(),
            poly_ok(pts@),
            miny == min_y_upto(pts@, k as int),
            maxy == max_y_upto(pts@, k as int),
        decreases n - k,
    {
        let py = pts[k].1;
        if py < miny {
            miny = py;
        }
        if py > maxy {
            maxy = py;
        }
        k = k + 1;
    }
    proof {
        lemma_minmax_bounds(pts@, n as int, 0);
        assert(vertex_ok(pts@[0]));
    }
    let mut y: i64 = miny;
    while y <= maxy
        invariant
            canvas.wf(),
            canvas.same_dims(c0),
            c0.wf(),
            n == pts@.len(),
            poly_ok(pts@),
            miny == poly_min_y(pts@),
            maxy == poly_max_y(pts@),
            -MAX_COORD <= miny <= maxy <= MAX_COORD,
            miny <= y <= maxy + 1,
            forall|i: int, j: int|
                c0.in_bounds(i, j) ==> canvas.pix(i, j) == (if poly_covered(pts@, i, j) && miny
                    <= j < y {
                    color
                } else {
                    c0.pix(i, j)
                }),
        decreases maxy + 1 - y,
    {
        let mut xs: Vec<i64> = Vec::new();
        let mut e: usize = 0;
        while e < n
            invariant
                e <= n,
                n == pts@.len(),
                poly_ok(pts@),
                xs@ == xs_upto(pts@, y as int, e as int),
                canvas.wf(),
                canvas.same_dims(c0),
                c0.wf(),
                miny == poly_min_y(pts@),
                maxy == poly_max_y(pts@),
                -MAX_COORD <= miny <= y <= maxy <= MAX_COORD,
                forall|i: int, j: int|
                    c0.in_bounds(i, j) ==> canvas.pix(i, j) == (if poly_covered(pts@, i, j) && miny
                        <= j < y {
                        color
                    } else {
                        c0.pix(i, j)
                    }),
            decreases n - e,
        {
            let p = pts[e];
            let q = if e + 1 == n {
                pts[0]
            } else {
                pts[e + 1]
            };
            if (p.1 <= y && y < q.1) || (q.1 <= y && y < p.1) {
                proof {
                    lemma_edge_x_bound(p, q, y as int);
                    lemma_mul_bound(
                        y as int - p.1 as int,
                        q.0 as int - p.0 as int,
                        0x8000_0000,
                        0x8000_0000,
                    );
                }
                let xx: i64 = p.0 + tdiv_i64((y - p.1) * (q.0 - p.0), q.1 - p.1);
                xs.push(xx);
                proof {
                    assert(xs@ =~= xs_upto(pts@, y as int, e + 1));
                }
            } else {
                proof {
                    assert(xs@ =~= xs_upto(pts@, y as int, e + 1));
                }
            }
            e = e + 1;
        }
        let row = sort_columns(&xs);
        proof {
            lemma_xs_bounded(pts@, y as int, n as int);
            xs@.lemma_sort_by_ensures(col_le());
            assert forall|t: int| 0 <= t < row@.len() implies -3 * (MAX_COORD as int)
                <= #[trigger] row@[t] <= 3 * (MAX_COORD as int) by {
                assert(row@.contains(row@[t]));
                assert(xs@.contains(row@[t]));
                let w = choose|w: int| 0 <= w < xs@.len() && xs@[w] == row@[t];
                assert(xs@[w] == row@[t]);
            }
        }
        let mut pair: usize = 0;
        while pair + 1 < row.len()
            invariant
                canvas.wf(),
                canvas.same_dims(c0),
                c0.wf(),
                n == pts@.len(),
                poly_ok(pts@),
                miny == poly_min_y(pts@),
                maxy == poly_max_y(pts@),
                -MAX_COORD <= miny <= y <= maxy <= MAX_COORD,
                row@ == row_at(pts@, y as int),
                sorted_by(row@, col_le()),
                pair == 0 || pair <= row@.len(),
                pair % 2 == 0,
                forall|t: int|
                    0 <= t < row@.len() ==> -3 * (MAX_COORD as int) <= #[trigger] row@[t] <= 3 * (
                    MAX_COORD as int),
                forall|i: int, j: int|
                    c0.in_bounds(i, j) ==> canvas.pix(i, j) == (if (poly_covered(pts@, i, j) && miny
                        <= j < y) || (j == y && row_covers_upto(row@, pair as int, i)) {
                        color
                    } else {
                        c0.pix(i, j)
                    }),
            decreases row@.len() - pair,
        {
            let xs_start = row[pair];
            let xs_end = row[pair + 1];
            proof {
                assert(col_le()(row@[pair as int], row@[pair as int + 1]));
            }
            let mut xp: i64 = xs_start;
            while xp <= xs_end
                invariant
                    canvas.wf(),
                    canvas.same_dims(c0),
                    c0.wf(),
                    n == pts@.len(),
                    poly_ok(pts@),
                    miny == poly_min_y(pts@),
                    maxy == poly_max_y(pts@),
                    -MAX_COORD <= miny <= y <= maxy <= MAX_COORD,
                    row@ == row_at(pts@, y as int),
                    pair + 1 < row@.len(),
                    xs_start == row@[pair as int],
                    xs_end == row@[pair as int + 1],
                    -3 * (MAX_COORD as int) <= xs_start <= xp <= xs_end + 1 <= 3 * (MAX_COORD as int)
                        + 1,
                    forall|i: int, j: int|
                        c0.in_bounds(i, j) ==> canvas.pix(i, j) == (if (poly_covered(pts@, i, j)
                            && miny <= j < y) || (j == y && (row_covers_upto(row@, pair as int, i)
                            || (xs_start <= i < xp))) {
                            color
                        } else {
                            c0.pix(i, j)
                        }),
                decreases xs_end + 1 - xp,
            {
                canvas.put_pixel(xp, y, color);
                xp = xp + 1;
            }
            proof {
                let pr = pair as int;
                assert forall|i: int, j: int| c0.in_bounds(i, j) implies canvas.pix(i, j) == (if (
                poly_covered(pts@, i, j) && miny <= j < y) || (j == y && row_covers_upto(
                    row@,
                    pr + 2,
                    i,
                )) {
                    color
                } else {
                    c0.pix(i, j)
                }) by {
                    if j == y {
                        if row_covers_upto(row@, pr, i) {
                            let t = choose|t: int|
                                0 <= t && 2 * t + 1 < pr && #[trigger] pair_covers(row@, t, i);
                            assert(0 <= t && 2 * t + 1 < pr + 2 && pair_covers(row@, t, i));
                        } else if xs_start <= i <= xs_end {
                            let t = pr / 2;
                            assert(2 * t == pr && 2 * t + 1 == pr + 1 < pr + 2);
                            assert(pair_covers(row@, t, i));
                        } else if row_covers_upto(row@, pr + 2, i) {
                            let t = choose|t: int|
                                0 <= t && 2 * t + 1 < pr + 2 && #[trigger] pair_covers(row@, t, i);
                            assert(2 * t + 1 != pr + 1 || (row@[pr] <= i <= row@[pr + 1]));
                            assert(2 * t + 1 < pr);
                        }
                    }
                }
            }
            pair = pair + 2;
        }
        proof {
            assert forall|i: int, j: int| c0.in_bounds(i, j) implies canvas.pix(i, j) == (if (
            poly_covered(pts@, i, j) && miny <= j < y + 1) {
                color
            } else {
                c0.pix(i, j)
            }) by {
                if j == y {
                    assert(row_covers(row@, i) <==> row_covers_upto(row@, pair as int, i)) by {
                        if row_covers(row@, i) {
                            let t = choose|t: int| 0 <= t && #[trigger] pair_covers(row@, t, i);
                            assert(2 * t + 1 < row@.len());
                            assert(2 * t + 1 < pair as int + 1);
                            assert(2 * t + 1 != pair as int);
                            assert(0 <= t && 2 * t + 1 < pair as int && pair_covers(row@, t, i));
                        }
                        if row_covers_upto(row@, pair as int, i) {
                            let t = choose|t: int|
                                0 <= t && 2 * t + 1 < pair as int && #[trigger] pair_covers(
                                    row@,
                                    t,
                                    i,
                                );
                        }
                    }
                }
            }
        }
        y = y + 1;
    }
    proof {
        assert forall|i: int, j: int| c0.in_bounds(i, j) implies canvas.pix(i, j) == (
        if poly_covered(pts@, i, j) {
            color
        } else {
            c0.pix(i, j)
        }) by {
            if poly_covered(pts@, i, j) && !(miny <= j <= maxy) {
                lemma_no_cover_outside(pts@, i, j);
            }
        }
    }
}

} // verus!
