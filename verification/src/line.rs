//! Bresenham line drawing: the 8-connected line between two integer
//! endpoints by integer error accumulation, and polygon outlines as the
//! closed chain of such lines. The specification mirrors the algorithm's
//! step function, so the contract pins down exactly which pixels the
//! line visits.

use vstd::prelude::*;
use crate::canvas::Canvas;
use crate::color::Rgb;
use crate::numeric::abs;
use crate::polyfill::next_idx;
use crate::polyfill::poly_ok;
use crate::polyfill::MAX_COORD;

verus! {

/// The points the algorithm still visits from state `(x, y, err)`, with
/// enough `fuel` to reach the endpoint; one step consumes one unit.
pub open spec fn line_rest(
    x: int,
    y: int,
    err: int,
    x1: int,
    y1: int,
    sx: int,
    sy: int,
    dx: int,
    dy: int,
    fuel: nat,
) -> Seq<(i64, i64)>
    decreases fuel,
{
    let here = seq![((x as i64), (y as i64))];
    if (x == x1 && y == y1) || fuel == 0 {
        here
    } else {
        let e2 = 2 * err;
        let xn = if e2 > -dy {
            x + sx
        } else {
            x
        };
        let erra = if e2 > -dy {
            err - dy
        } else {
            err
        };
        let yn = if e2 < dx {
            y + sy
        } else {
            y
        };
        let errn = if e2 < dx {
            erra + dx
        } else {
            erra
        };
        here + line_rest(xn, yn, errn, x1, y1, sx, sy, dx, dy, (fuel - 1) as nat)
    }
}

/// The pixels of the 8-connected line from `(x0, y0)` to `(x1, y1)`, in
/// visiting order.
pub open spec fn line_points(x0: int, y0: int, x1: int, y1: int) -> Seq<(i64, i64)> {
    let dx = abs(x1 - x0);
    let dy = abs(y1 - y0);
    let sx: int = if x0 < x1 {
        1
    } else {
        -1
    };
    let sy: int = if y0 < y1 {
        1
    } else {
        -1
    };
    line_rest(x0, y0, dx - dy, x1, y1, sx, sy, dx, dy, (dx + dy) as nat)
}

/// Does the line from `(x0, y0)` to `(x1, y1)` visit pixel `(x, y)`?
pub open spec fn line_covers(x0: int, y0: int, x1: int, y1: int, x: int, y: int) -> bool {
    line_points(x0, y0, x1, y1).contains(((x as i64), (y as i64)))
}

/// Is `v` between `a` and `b`, whichever order they come in?
pub open spec fn between(a: int, b: int, v: int) -> bool {
    (a <= v <= b) || (b <= v <= a)
}

/// Draws the 8-connected line between the endpoints; pixels outside the
/// canvas are silently skipped. Both endpoints are always part of the
/// line.
pub fn draw_line(canvas: &mut Canvas, x0: i64, y0: i64, x1: i64, y1: i64, color: Rgb)
    requires
        old(canvas).wf(),
        -MAX_COORD <= x0 <= MAX_COORD,
        -MAX_COORD <= y0 <= MAX_COORD,
        -MAX_COORD <= x1 <= MAX_COORD,
        -MAX_COORD <= y1 <= MAX_COORD,
    ensures
        final(canvas).wf(),
        final(canvas).same_dims(*old(canvas)),
        forall|i: int, j: int|
            old(canvas).in_bounds(i, j) ==> final(canvas).pix(i, j) == (if line_covers(
                x0 as int,
                y0 as int,
                x1 as int,
                y1 as int,
                i,
                j,
            ) {
                color
            } else {
                old(canvas).pix(i, j)
            }),
        line_covers(x0 as int, y0 as int, x1 as int, y1 as int, x0 as int, y0 as int),
        line_covers(x0 as int, y0 as int, x1 as int, y1 as int, x1 as int, y1 as int),
        forall|w: int|
            0 <= w < line_points(x0 as int, y0 as int, x1 as int, y1 as int).len() ==> between(
                x0 as int,
                x1 as int,
                (#[trigger] line_points(x0 as int, y0 as int, x1 as int, y1 as int)[w]).0 as int,
            ) && between(
                y0 as int,
                y1 as int,
                line_points(x0 as int, y0 as int, x1 as int, y1 as int)[w].1 as int,
            ),
{
    let ghost c0 = *canvas;
    let ghost total = line_points(x0 as int, y0 as int, x1 as int, y1 as int);
    let dx: i64 = if x1 >= x0 {
        x1 - x0
    } else {
        x0 - x1
    };
    let dy: i64 = if y1 >= y0 {
        y1 - y0
    } else {
        y0 - y1
    };
    let sx: i64 = if x0 < x1 {
        1
    } else {
        -1
    };
    let sy: i64 = if y0 < y1 {
        1
    } else {
        -1
    };
    let mut err: i64 = dx - dy;
    let mut x: i64 = x0;
    let mut y: i64 = y0;
    let ghost mut i: int = 0;
    let ghost mut j: int = 0;
    let ghost mut t: int = 0;
    let ghost mut prefix: Seq<(i64, i64)> = Seq::empty();
    proof {
        assert(prefix + line_rest(
            x0 as int,
            y0 as int,
            (dx - dy) as int,
            x1 as int,
            y1 as int,
            sx as int,
            sy as int,
            dx as int,
            dy as int,
            (dx + dy) as nat,
        ) =~= total);
    }
    while x != x1 || y != y1
        invariant
            canvas.wf(),
            canvas.same_dims(c0),
            c0.wf(),
            -MAX_COORD <= x0 <= MAX_COORD,
            -MAX_COORD <= y0 <= MAX_COORD,
            -MAX_COORD <= x1 <= MAX_COORD,
            -MAX_COORD <= y1 <= MAX_COORD,
            dx == abs(x1 as int - x0 as int),
            dy == abs(y1 as int - y0 as int),
            sx == (if x0 < x1 { 1int } else { -1int }),
            sy == (if y0 < y1 { 1int } else { -1int }),
            sx == 1 ==> x == x0 + i && x1 == x0 + dx,
            sx == -1 ==> x == x0 - i && x1 == x0 - dx,
            sy == 1 ==> y == y0 + j && y1 == y0 + dy,
            sy == -1 ==> y == y0 - j && y1 == y0 - dy,
            0 <= i <= dx,
            0 <= j <= dy,
            err == dx * (1 + j) - dy * (1 + i),
            -2 * (dy as int) <= err <= 2 * (dx as int),
            0 <= t <= i + j,
            total == line_points(x0 as int, y0 as int, x1 as int, y1 as int),
            prefix.len() == t,
            forall|w: int|
                0 <= w < prefix.len() ==> between(x0 as int, x1 as int, (#[trigger] prefix[w]).0 as int)
                    && between(y0 as int, y1 as int, prefix[w].1 as int),
            total =~= prefix + line_rest(
                x as int,
                y as int,
                err as int,
                x1 as int,
                y1 as int,
                sx as int,
                sy as int,
                dx as int,
                dy as int,
                (dx + dy - t) as nat,
            ),
            forall|a: int, b: int|
                c0.in_bounds(a, b) ==> canvas.pix(a, b) == (if prefix.contains(
                    (((a as i64), (b as i64))),
                ) {
                    color
                } else {
                    c0.pix(a, b)
                }),
        decreases dx + dy - i - j,
    {
        let ghost xprev = x as int;
        let ghost yprev = y as int;
        let ghost prefix0 = prefix;
        canvas.put_pixel(x, y, color);
        proof {
            assert(between(x0 as int, x1 as int, x as int));
            assert(between(y0 as int, y1 as int, y as int));
            let oldprefix = prefix;
            prefix = prefix.push((x, y));
            assert forall|w: int|
                0 <= w < prefix.len() implies between(
                x0 as int,
                x1 as int,
                (#[trigger] prefix[w]).0 as int,
            ) && between(y0 as int, y1 as int, prefix[w].1 as int) by {
                if w < oldprefix.len() {
                    assert(prefix[w] == oldprefix[w]);
                } else {
                    assert(prefix[w] == ((x, y)));
                }
            }
            assert forall|a: int, b: int| c0.in_bounds(a, b) implies canvas.pix(a, b) == (
            if prefix.contains((((a as i64), (b as i64)))) {
                color
            } else {
                c0.pix(a, b)
            }) by {
                if prefix.contains(((a as i64), (b as i64))) {
                    let w = choose|w: int|
                        0 <= w < prefix.len() && prefix[w] == ((a as i64), (b as i64));
                    if w < oldprefix.len() {
                        assert(oldprefix.contains(((a as i64), (b as i64))));
                    }
                } else {
                    assert(!oldprefix.contains(((a as i64), (b as i64)))) by {
                        if oldprefix.contains(((a as i64), (b as i64))) {
                            let w = choose|w: int|
                                0 <= w < oldprefix.len() && oldprefix[w] == (
                                (a as i64),
                                (b as i64),
                                );
                            assert(prefix[w] == ((a as i64), (b as i64)));
                        }
                    }
                    assert(prefix[prefix.len() - 1] == ((x, y)));
                    assert(prefix.contains(((x, y))));
                    assert(((x, y)) != (((a as i64), (b as i64))));
                    assert((x as int, y as int) != (a, b));
                }
            }
        }
        let e2: i64 = 2 * err;
        proof {
            // The step never leaves the segment: when the column has
            // reached its end, the horizontal advance cannot fire, and
            // symmetrically for the row.
            if i == dx && !(j == dy) {
                assert(2 * (dx * (1 + j) - dy * (1 + dx)) <= -dy) by (nonlinear_arith)
                    requires 0 <= j < dy && 0 <= dx;
            }
            if j == dy && !(i == dx) {
                assert(2 * (dx * (1 + dy) - dy * (1 + i)) >= dx) by (nonlinear_arith)
                    requires 0 <= i < dx && 0 <= dy;
            }
        }
        let ghost iprev = i;
        let ghost jprev = j;
        let ghost errprev = err;
        if e2 > -dy {
            err = err - dy;
            x = x + sx;
            proof {
                i = i + 1;
                assert(dy * (1 + i) == dy * (1 + iprev) + dy) by (nonlinear_arith)
                    requires i == iprev + 1;
            }
        }
        if e2 < dx {
            err = err + dx;
            y = y + sy;
            proof {
                j = j + 1;
                assert(dx * (1 + j) == dx * (1 + jprev) + dx) by (nonlinear_arith)
                    requires j == jprev + 1;
            }
        }
        proof {
            if i == iprev && j == jprev {
                assert(dx <= e2 && e2 <= -dy);
                assert(dx == 0 && dy == 0);
                assert(false);
            }
            t = t + 1;
            assert(iprev < dx || jprev < dy);
            let fuelprev = (dx + dy - (t - 1)) as nat;
            assert(fuelprev >= 1);
            let restprev = line_rest(
                xprev,
                yprev,
                errprev as int,
                x1 as int,
                y1 as int,
                sx as int,
                sy as int,
                dx as int,
                dy as int,
                fuelprev,
            );
            let restnext = line_rest(
                x as int,
                y as int,
                err as int,
                x1 as int,
                y1 as int,
                sx as int,
                sy as int,
                dx as int,
                dy as int,
                (dx + dy - t) as nat,
            );
            assert((dx + dy - t) as nat == (fuelprev - 1) as nat);
            assert(restprev =~= seq![((xprev as i64), (yprev as i64))] + restnext);
            assert(prefix =~= prefix0.push(((xprev as i64), (yprev as i64))));
            assert(prefix0 + restprev =~= prefix + restnext);
            assert(total =~= prefix + restnext);
        }
    }
    canvas.put_pixel(x, y, color);
    proof {
        assert(line_rest(
            x as int,
            y as int,
            err as int,
            x1 as int,
            y1 as int,
            sx as int,
            sy as int,
            dx as int,
            dy as int,
            (dx + dy - t) as nat,
        ) =~= seq![((x1 as i64), (y1 as i64))]);
        assert(total =~= prefix.push((x1, y1)));
        assert forall|w: int|
            0 <= w < total.len() implies between(
            x0 as int,
            x1 as int,
            (#[trigger] total[w]).0 as int,
        ) && between(y0 as int, y1 as int, total[w].1 as int) by {
            if w < prefix.len() {
                assert(total[w] == prefix[w]);
            } else {
                assert(total[w] == ((x1, y1)));
            }
        }
        assert(total[total.len() - 1] == ((x1, y1)));
        assert(total.contains((x1, y1)));
        assert(total[0] == ((x0, y0)));
        assert(total.contains((x0, y0)));
        assert forall|a: int, b: int| c0.in_bounds(a, b) implies canvas.pix(a, b) == (
        if total.contains((((a as i64), (b as i64)))) {
            color
        } else {
            c0.pix(a, b)
        }) by {
            if total.contains(((a as i64), (b as i64))) {
                let w = choose|w: int| 0 <= w < total.len() && total[w] == ((a as i64), (b as i64));
                if w < prefix.len() {
                    assert(prefix.contains(((a as i64), (b as i64))));
                }
            } else {
                assert(!prefix.contains(((a as i64), (b as i64)))) by {
                    if prefix.contains(((a as i64), (b as i64))) {
                        let w = choose|w: int|
                            0 <= w < prefix.len() && prefix[w] == ((a as i64), (b as i64));
                        assert(total[w] == ((a as i64), (b as i64)));
                    }
                }
                assert((x1 as int, y1 as int) != (a, b));
            }
        }
    }
}

/// Is pixel `(x, y)` on the outline of the closed polygon, i.e. on the
/// line of edge `e`?
pub open spec fn edge_outline_covers(pts: Seq<(i64, i64)>, e: int, x: int, y: int) -> bool {
    line_covers(
        pts[e].0 as int,
        pts[e].1 as int,
        pts[next_idx(pts.len() as int, e)].0 as int,
        pts[next_idx(pts.len() as int, e)].1 as int,
        x,
        y,
    )
}

/// Is pixel `(x, y)` on any edge line of the closed polygon?
pub open spec fn outline_covers(pts: Seq<(i64, i64)>, x: int, y: int) -> bool {
    exists|e: int| 0 <= e < pts.len() && #[trigger] edge_outline_covers(pts, e, x, y)
}

/// Draws the closed outline of the polygon: one 8-connected line per
/// edge, wrapping the last vertex back to the first.
pub fn draw_polygon_outline(canvas: &mut Canvas, pts: &Vec<(i64, i64)>, color: Rgb)
    requires
        old(canvas).wf(),
        poly_ok(pts@),
    ensures
        final(canvas).wf(),
        final(canvas).same_dims(*old(canvas)),
        forall|i: int, j: int|
            old(canvas).in_bounds(i, j) ==> final(canvas).pix(i, j) == (if outline_covers(
                pts@,
                i,
                j,
            ) {
                color
            } else {
                old(canvas).pix(i, j)
            }),
{
    let ghost c0 = *canvas;
    let n = pts.len();
    let mut e: usize = 0;
    while e < n
        invariant
            canvas.wf(),
            canvas.same_dims(c0),
            c0.wf(),
            n == pts@.len(),
            poly_ok(pts@),
            e <= n,
            forall|a: int, b: int|
                c0.in_bounds(a, b) ==> canvas.pix(a, b) == (if exists|w: int|
                    0 <= w < e && #[trigger] edge_outline_covers(pts@, w, a, b) {
                    color
                } else {
                    c0.pix(a, b)
                }),
        decreases n - e,
    {
        let p = pts[e];
        let q = if e + 1 == n {
            pts[0]
        } else {
            pts[e + 1]
        };
        proof {
            assert(crate::polyfill::vertex_ok(pts@[e as int]));
            assert(crate::polyfill::vertex_ok(pts@[next_idx(n as int, e as int)]));
        }
        draw_line(canvas, p.0, p.1, q.0, q.1, color);
        proof {
            assert forall|a: int, b: int| c0.in_bounds(a, b) implies canvas.pix(a, b) == (
            if exists|w: int| 0 <= w < e + 1 && #[trigger] edge_outline_covers(pts@, w, a, b) {
                color
            } else {
                c0.pix(a, b)
            }) by {
                if edge_outline_covers(pts@, e as int, a, b) {
                } else if exists|w: int| 0 <= w < e && #[trigger] edge_outline_covers(pts@, w, a, b) {
                }
            }
        }
        e = e + 1;
    }
}

} // verus!
