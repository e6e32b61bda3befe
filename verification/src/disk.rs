//! Disk, half-disk and triangle rasterization: bounding-box scans with an
//! exact integer membership test per pixel.

use vstd::prelude::*;
use crate::canvas::Canvas;
use crate::canvas::MAX_DIM;
use crate::color::Rgb;
use crate::numeric::abs;
use crate::numeric::lemma_mul_bound;
use crate::rotation::Rotation;
use crate::vertices::MAX_SHAPE;

verus! {

/// Closed-disk membership: squared distance from the center at most the
/// squared radius.
pub open spec fn in_disk(cx: int, cy: int, size: int, x: int, y: int) -> bool {
    (x - cx) * (x - cx) + (y - cy) * (y - cy) <= size * size
}

/// Half-disk membership: the disk restricted to the half-plane where the
/// angle of `(x - cx, y - cy)`, measured relative to the rotation, lies
/// in the closed interval from a quarter turn to three quarter turns.
/// That interval is exactly where the cosine of the relative angle is at
/// most zero, i.e. where the dot product with the rotation direction is.
pub open spec fn in_half_disk(cx: int, cy: int, size: int, rot: Rotation, x: int, y: int) -> bool {
    &&& in_disk(cx, cy, size, x, y)
    &&& (x - cx) * rot.cos_q + (y - cy) * rot.sin_q <= 0
}

/// Triangle membership: the isoceles triangle with apex at the anchor,
/// spreading one pixel per row for `size` rows upward of it.
pub open spec fn in_triangle(cx: int, cy: int, size: int, x: int, y: int) -> bool {
    cy - size <= y <= cy && abs(x - cx) <= cy - y
}

/// A point of the disk lies in the bounding box of the disk.
pub proof fn lemma_disk_box(cx: int, cy: int, size: int, x: int, y: int)
    by (nonlinear_arith)
    requires
        size >= 0,
        in_disk(cx, cy, size, x, y),
    ensures
        cx - size <= x <= cx + size,
        cy - size <= y <= cy + size,
{
}

/// Law: no holes strictly inside the radius — any pixel within squared
/// distance `(size - 1)^2` of the center belongs to the disk of radius
/// `size`.
pub proof fn lemma_disk_no_holes(cx: int, cy: int, size: int, x: int, y: int)
    by (nonlinear_arith)
    requires
        size >= 1,
        (x - cx) * (x - cx) + (y - cy) * (y - cy) <= (size - 1) * (size - 1),
    ensures
        in_disk(cx, cy, size, x, y),
{
}

/// Fills the closed disk of radius `size` around `(cx, cy)`; pixels
/// outside the canvas are silently skipped.
pub fn fill_disk(canvas: &mut Canvas, cx: u32, cy: u32, size: u32, color: Rgb)
    requires
        old(canvas).wf(),
        cx <= MAX_DIM,
        cy <= MAX_DIM,
        size <= MAX_SHAPE,
    ensures
        final(canvas).wf(),
        final(canvas).same_dims(*old(canvas)),
        forall|i: int, j: int|
            old(canvas).in_bounds(i, j) ==> final(canvas).pix(i, j) == (if in_disk(
                cx as int,
                cy as int,
                size as int,
                i,
                j,
            ) {
                color
            } else {
                old(canvas).pix(i, j)
            }),
{
    let ghost c0 = *canvas;
    let x0: u32 = if cx >= size {
        cx - size
    } else {
        0
    };
    let y0: u32 = if cy >= size {
        cy - size
    } else {
        0
    };
    let x1: u32 = cx + size;
    let y1: u32 = cy + size;
    let mut x: u32 = x0;
    while x <= x1
        invariant
            canvas.wf(),
            canvas.same_dims(c0),
            c0.wf(),
            cx <= MAX_DIM,
            cy <= MAX_DIM,
            size <= MAX_SHAPE,
            x0 == (if cx >= size { cx - size } else { 0 }),
            y0 == (if cy >= size { cy - size } else { 0 }),
            x1 == cx + size,
            y1 == cy + size,
            x0 <= x <= x1 + 1,
            forall|i: int, j: int|
                c0.in_bounds(i, j) ==> canvas.pix(i, j) == (if in_disk(
                    cx as int,
                    cy as int,
                    size as int,
                    i,
                    j,
                ) && x0 <= i < x {
                    color
                } else {
                    c0.pix(i, j)
                }),
        decreases x1 + 1 - x,
    {
        let mut y: u32 = y0;
        while y <= y1
            invariant
                canvas.wf(),
                canvas.same_dims(c0),
                c0.wf(),
                cx <= MAX_DIM,
                cy <= MAX_DIM,
                size <= MAX_SHAPE,
                x0 == (if cx >= size { cx - size } else { 0 }),
                y0 == (if cy >= size { cy - size } else { 0 }),
                x1 == cx + size,
                y1 == cy + size,
                x0 <= x <= x1,
                y0 <= y <= y1 + 1,
                forall|i: int, j: int|
                    c0.in_bounds(i, j) ==> canvas.pix(i, j) == (if in_disk(
                        cx as int,
                        cy as int,
                        size as int,
                        i,
                        j,
                    ) && ((x0 <= i < x) || (i == x && y0 <= j < y)) {
                        color
                    } else {
                        c0.pix(i, j)
                    }),
            decreases y1 + 1 - y,
        {
            let dx: i64 = x as i64 - cx as i64;
            let dy: i64 = y as i64 - cy as i64;
            proof {
                lemma_mul_bound(dx as int, dx as int, 0x200000, 0x200000);
                lemma_mul_bound(dy as int, dy as int, 0x200000, 0x200000);
                lemma_mul_bound(size as int, size as int, MAX_SHAPE as int, MAX_SHAPE as int);
            }
            if dx * dx + dy * dy <= (size as i64) * (size as i64) {
                canvas.put_pixel(x as i64, y as i64, color);
            }
            y = y + 1;
        }
        proof {
            assert forall|i: int, j: int| c0.in_bounds(i, j) implies canvas.pix(i, j) == (if in_disk(
                cx as int,
                cy as int,
                size as int,
                i,
                j,
            ) && x0 <= i < x + 1 {
                color
            } else {
                c0.pix(i, j)
            }) by {
                if in_disk(cx as int, cy as int, size as int, i, j) {
                    lemma_disk_box(cx as int, cy as int, size as int, i, j);
                }
            }
        }
        x = x + 1;
    }
    proof {
        assert forall|i: int, j: int| c0.in_bounds(i, j) implies canvas.pix(i, j) == (if in_disk(
            cx as int,
            cy as int,
            size as int,
            i,
            j,
        ) {
            color
        } else {
            c0.pix(i, j)
        }) by {
            if in_disk(cx as int, cy as int, size as int, i, j) {
                lemma_disk_box(cx as int, cy as int, size as int, i, j);
            }
        }
    }
}

/// Fills the half of the closed disk selected by the fixed angular-sector
/// policy relative to `rot`; pixels outside the canvas are skipped.
pub fn fill_half_disk(canvas: &mut Canvas, cx: u32, cy: u32, size: u32, rot: Rotation, color: Rgb)
    requires
        old(canvas).wf(),
        cx <= MAX_DIM,
        cy <= MAX_DIM,
        size <= MAX_SHAPE,
        rot.wf(),
    ensures
        final(canvas).wf(),
        final(canvas).same_dims(*old(canvas)),
        forall|i: int, j: int|
            old(canvas).in_bounds(i, j) ==> final(canvas).pix(i, j) == (if in_half_disk(
                cx as int,
                cy as int,
                size as int,
                rot,
                i,
                j,
            ) {
                color
            } else {
                old(canvas).pix(i, j)
            }),
{
    let ghost c0 = *canvas;
    let x0: u32 = if cx >= size {
        cx - size
    } else {
        0
    };
    let y0: u32 = if cy >= size {
        cy - size
    } else {
        0
    };
    let x1: u32 = cx + size;
    let y1: u32 = cy + size;
    let mut x: u32 = x0;
    while x <= x1
        invariant
            canvas.wf(),
            canvas.same_dims(c0),
            c0.wf(),
            cx <= MAX_DIM,
            cy <= MAX_DIM,
            size <= MAX_SHAPE,
            rot.wf(),
            x0 == (if cx >= size { cx - size } else { 0 }),
            y0 == (if cy >= size { cy - size } else { 0 }),
            x1 == cx + size,
            y1 == cy + size,
            x0 <= x <= x1 + 1,
            forall|i: int, j: int|
                c0.in_bounds(i, j) ==> canvas.pix(i, j) == (if in_half_disk(
                    cx as int,
                    cy as int,
                    size as int,
                    rot,
                    i,
                    j,
                ) && x0 <= i < x {
                    color
                } else {
                    c0.pix(i, j)
                }),
        decreases x1 + 1 - x,
    {
        let mut y: u32 = y0;
        while y <= y1
            invariant
                canvas.wf(),
                canvas.same_dims(c0),
                c0.wf(),
                cx <= MAX_DIM,
                cy <= MAX_DIM,
                size <= MAX_SHAPE,
                rot.wf(),
                x0 == (if cx >= size { cx - size } else { 0 }),
                y0 == (if cy >= size { cy - size } else { 0 }),
                x1 == cx + size,
                y1 == cy + size,
                x0 <= x <= x1,
                y0 <= y <= y1 + 1,
                forall|i: int, j: int|
                    c0.in_bounds(i, j) ==> canvas.pix(i, j) == (if in_half_disk(
                        cx as int,
                        cy as int,
                        size as int,
                        rot,
                        i,
                        j,
                    ) && ((x0 <= i < x) || (i == x && y0 <= j < y)) {
                        color
                    } else {
                        c0.pix(i, j)
                    }),
            decreases y1 + 1 - y,
        {
            let dx: i64 = x as i64 - cx as i64;
            let dy: i64 = y as i64 - cy as i64;
            proof {
                lemma_mul_bound(dx as int, dx as int, 0x200000, 0x200000);
                lemma_mul_bound(dy as int, dy as int, 0x200000, 0x200000);
                lemma_mul_bound(size as int, size as int, MAX_SHAPE as int, MAX_SHAPE as int);
                lemma_mul_bound(dx as int, rot.cos_q as int, 0x200000, 65536);
                lemma_mul_bound(dy as int, rot.sin_q as int, 0x200000, 65536);
            }
            if dx * dx + dy * dy <= (size as i64) * (size as i64) {
                if dx * rot.cos_q + dy * rot.sin_q <= 0 {
                    canvas.put_pixel(x as i64, y as i64, color);
                }
            }
            y = y + 1;
        }
        proof {
            assert forall|i: int, j: int| c0.in_bounds(i, j) implies canvas.pix(i, j) == (
            if in_half_disk(cx as int, cy as int, size as int, rot, i, j) && x0 <= i < x + 1 {
                color
            } else {
                c0.pix(i, j)
            }) by {
                if in_disk(cx as int, cy as int, size as int, i, j) {
                    lemma_disk_box(cx as int, cy as int, size as int, i, j);
                }
            }
        }
        x = x + 1;
    }
    proof {
        assert forall|i: int, j: int| c0.in_bounds(i, j) implies canvas.pix(i, j) == (
        if in_half_disk(cx as int, cy as int, size as int, rot, i, j) {
            color
        } else {
            c0.pix(i, j)
        }) by {
            if in_disk(cx as int, cy as int, size as int, i, j) {
                lemma_disk_box(cx as int, cy as int, size as int, i, j);
            }
        }
    }
}

/// Fills the isoceles triangle with its apex at the anchor; pixels
/// outside the canvas are skipped.
pub fn fill_triangle(canvas: &mut Canvas, cx: u32, cy: u32, size: u32, color: Rgb)
    requires
        old(canvas).wf(),
        cx <= MAX_DIM,
        cy <= MAX_DIM,
        size <= MAX_SHAPE,
    ensures
        final(canvas).wf(),
        final(canvas).same_dims(*old(canvas)),
        forall|i: int, j: int|
            old(canvas).in_bounds(i, j) ==> final(canvas).pix(i, j) == (if in_triangle(
                cx as int,
                cy as int,
                size as int,
                i,
                j,
            ) {
                color
            } else {
                old(canvas).pix(i, j)
            }),
{
    let ghost c0 = *canvas;
    let x0: u32 = if cx >= size {
        cx - size
    } else {
        0
    };
    let y0: u32 = if cy >= size {
        cy - size
    } else {
        0
    };
    let x1: u32 = cx + size;
    let mut x: u32 = x0;
    while x <= x1
        invariant
            canvas.wf(),
            canvas.same_dims(c0),
            c0.wf(),
            cx <= MAX_DIM,
            cy <= MAX_DIM,
            size <= MAX_SHAPE,
            x0 == (if cx >= size { cx - size } else { 0 }),
            y0 == (if cy >= size { cy - size } else { 0 }),
            x1 == cx + size,
            x0 <= x <= x1 + 1,
            forall|i: int, j: int|
                c0.in_bounds(i, j) ==> canvas.pix(i, j) == (if in_triangle(
                    cx as int,
                    cy as int,
                    size as int,
                    i,
                    j,
                ) && x0 <= i < x {
                    color
                } else {
                    c0.pix(i, j)
                }),
        decreases x1 + 1 - x,
    {
        let mut y: u32 = y0;
        while y <= cy
            invariant
                canvas.wf(),
                canvas.same_dims(c0),
                c0.wf(),
                cx <= MAX_DIM,
                cy <= MAX_DIM,
                size <= MAX_SHAPE,
                x0 == (if cx >= size { cx - size } else { 0 }),
                y0 == (if cy >= size { cy - size } else { 0 }),
                x1 == cx + size,
                x0 <= x <= x1,
                y0 <= y <= cy + 1,
                forall|i: int, j: int|
                    c0.in_bounds(i, j) ==> canvas.pix(i, j) == (if in_triangle(
                        cx as int,
                        cy as int,
                        size as int,
                        i,
                        j,
                    ) && ((x0 <= i < x) || (i == x && y0 <= j < y)) {
                        color
                    } else {
                        c0.pix(i, j)
                    }),
            decreases cy + 1 - y,
        {
            let dx: i64 = x as i64 - cx as i64;
            let dy: i64 = cy as i64 - y as i64;
            let adx: i64 = if dx >= 0 {
                dx
            } else {
                -dx
            };
            if adx <= dy {
                canvas.put_pixel(x as i64, y as i64, color);
            }
            y = y + 1;
        }
        x = x + 1;
    }
}

} // verus!
