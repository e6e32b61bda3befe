use random_icon::canvas::Canvas;
use random_icon::color::Rgb;
use random_icon::disk::{fill_disk, fill_half_disk, fill_triangle};
use random_icon::line::draw_line;
use random_icon::rotation::Rotation;
use random_icon::shape::{draw_shape, draw_shape_outline, ShapeKind, ShapeSpec};
use random_icon::vertices::{polygon_vertices, square_vertices};

const BG: Rgb = Rgb { r: 0, g: 0, b: 0 };
const RED: Rgb = Rgb { r: 255, g: 0, b: 0 };

fn painted(c: &Canvas, x: u32, y: u32) -> bool {
    c.get_pixel(x, y) != BG
}

#[test]
fn disk_scenario_10x10() {
    // Circle at (5, 5), radius 3, red on black: membership is exactly
    // the closed squared-distance test.
    let mut c = Canvas::new(10, 10, BG);
    fill_disk(&mut c, 5, 5, 3, RED);
    assert_eq!(c.get_pixel(5, 5), RED);
    assert_eq!(c.get_pixel(5, 2), RED); // distance^2 = 9 <= 9
    assert_eq!(c.get_pixel(5, 1), BG); // distance^2 = 16 > 9
    for y in 0..10i64 {
        for x in 0..10i64 {
            let d2 = (x - 5) * (x - 5) + (y - 5) * (y - 5);
            let expect = d2 <= 9;
            assert_eq!(painted(&c, x as u32, y as u32), expect, "at {} {}", x, y);
        }
    }
}

#[test]
fn disk_has_no_interior_holes() {
    let mut c = Canvas::new(32, 32, BG);
    fill_disk(&mut c, 16, 16, 7, RED);
    for y in 0..32i64 {
        for x in 0..32i64 {
            let d2 = (x - 16) * (x - 16) + (y - 16) * (y - 16);
            if d2 <= 36 {
                assert!(painted(&c, x as u32, y as u32));
            }
        }
    }
}

#[test]
fn square_scenario_20x20() {
    // Square at (10, 10), size 10, rotation zero: exactly the pixels
    // with x and y in the half-open range [5, 15) — an axis-aligned
    // square of side 10.
    let mut c = Canvas::new(20, 20, BG);
    let s = ShapeSpec {
        kind: ShapeKind::Square,
        cx: 10,
        cy: 10,
        size: 10,
        rot: Rotation::identity(),
        color: RED,
    };
    draw_shape(&mut c, s);
    for y in 0..20u32 {
        for x in 0..20u32 {
            let expect = (5..15).contains(&x) && (5..15).contains(&y);
            assert_eq!(painted(&c, x, y), expect, "at {} {}", x, y);
        }
    }
}

#[test]
fn half_disk_keeps_the_selected_half() {
    // With a quarter-turn rotation the kept half-plane is the rows at or
    // above the center.
    let mut c = Canvas::new(11, 11, BG);
    fill_half_disk(&mut c, 5, 5, 4, Rotation::quarter_turn(), RED);
    assert!(painted(&c, 5, 2));
    assert!(painted(&c, 5, 5));
    assert!(painted(&c, 2, 5));
    assert!(!painted(&c, 5, 6));
    assert!(!painted(&c, 5, 8));
    for y in 0..11i64 {
        for x in 0..11i64 {
            let d2 = (x - 5) * (x - 5) + (y - 5) * (y - 5);
            let expect = d2 <= 16 && y <= 5;
            assert_eq!(painted(&c, x as u32, y as u32), expect, "at {} {}", x, y);
        }
    }
}

#[test]
fn triangle_narrows_toward_the_apex_row() {
    let mut c = Canvas::new(10, 10, BG);
    fill_triangle(&mut c, 5, 5, 3, RED);
    for y in 0..10i64 {
        for x in 0..10i64 {
            let dy = 5 - y;
            let expect = (0..=3).contains(&dy) && (x - 5).abs() <= dy;
            assert_eq!(painted(&c, x as u32, y as u32), expect, "at {} {}", x, y);
        }
    }
}

fn line_pixels(x0: i64, y0: i64, x1: i64, y1: i64) -> Vec<(u32, u32)> {
    let mut c = Canvas::new(16, 16, BG);
    draw_line(&mut c, x0, y0, x1, y1, RED);
    let mut v = Vec::new();
    for y in 0..16u32 {
        for x in 0..16u32 {
            if painted(&c, x, y) {
                v.push((x, y));
            }
        }
    }
    v
}

#[test]
fn line_diagonal() {
    assert_eq!(line_pixels(0, 0, 3, 3), vec![(0, 0), (1, 1), (2, 2), (3, 3)]);
}

#[test]
fn line_horizontal_and_vertical() {
    assert_eq!(line_pixels(1, 2, 4, 2), vec![(1, 2), (2, 2), (3, 2), (4, 2)]);
    assert_eq!(line_pixels(2, 1, 2, 4), vec![(2, 1), (2, 2), (2, 3), (2, 4)]);
}

#[test]
fn line_single_point() {
    assert_eq!(line_pixels(7, 7, 7, 7), vec![(7, 7)]);
}

#[test]
fn line_steep() {
    assert_eq!(line_pixels(0, 0, 1, 4), vec![(0, 0), (0, 1), (0, 2), (1, 3), (1, 4)]);
}

#[test]
fn line_clamps_outside_endpoints() {
    // Both endpoints lie off-canvas; only the in-canvas stretch of the
    // diagonal is painted.
    let v = line_pixels(-3, -3, 15, 15);
    assert_eq!(v.len(), 16);
    for (x, y) in v {
        assert_eq!(x, y);
    }
}

#[test]
fn polygon_fill_boundary_matches_outline() {
    // The scan-line fill of a convex polygon and the Bresenham outline
    // agree on every row's extremes to within two pixels: the fill's
    // truncating edge division and the outline's rounding each move a
    // boundary by at most one.
    for (kind, size) in [(ShapeKind::Hexagon, 20u32), (ShapeKind::Pentagon, 17u32)] {
        let spec = ShapeSpec {
            kind,
            cx: 30,
            cy: 30,
            size,
            rot: Rotation::identity(),
            color: RED,
        };
        let mut filled = Canvas::new(64, 64, BG);
        draw_shape(&mut filled, spec);
        let mut outlined = Canvas::new(64, 64, BG);
        draw_shape_outline(&mut outlined, spec);
        for y in 0..64u32 {
            let row = |c: &Canvas| -> Option<(u32, u32)> {
                let mut lo = None;
                let mut hi = None;
                for x in 0..64u32 {
                    if painted(c, x, y) {
                        if lo.is_none() {
                            lo = Some(x);
                        }
                        hi = Some(x);
                    }
                }
                lo.zip(hi)
            };
            if let (Some((flo, fhi)), Some((olo, ohi))) = (row(&filled), row(&outlined)) {
                assert!(flo.abs_diff(olo) <= 2, "row {}: {} vs {}", y, flo, olo);
                assert!(fhi.abs_diff(ohi) <= 2, "row {}: {} vs {}", y, fhi, ohi);
            }
        }
    }
}

#[test]
fn square_corners_at_identity() {
    // Half the size on each axis, the positive-x corners pulled in by
    // one pixel, in increasing angular order.
    let v = square_vertices(10, 10, 10, Rotation::identity());
    assert_eq!(v, vec![(14, 15), (5, 15), (5, 5), (14, 5)]);
}

#[test]
fn rotated_square_still_fills() {
    // An eighth turn: the square becomes a diamond around the anchor.
    let mut c = Canvas::new(40, 40, BG);
    let s = ShapeSpec {
        kind: ShapeKind::Square,
        cx: 20,
        cy: 20,
        size: 12,
        rot: Rotation::new(46341, 46341),
        color: RED,
    };
    draw_shape(&mut c, s);
    assert!(painted(&c, 20, 20));
    assert!(!painted(&c, 20, 32));
}

#[test]
fn pentagon_vertex_zero_lies_on_the_axis() {
    let v = polygon_vertices(5, 100, 100, 100, Rotation::identity());
    assert_eq!(v[0], (200, 100));
    let h = polygon_vertices(6, 100, 100, 100, Rotation::identity());
    assert_eq!(h[0], (200, 100));
}

#[test]
fn polygon_vertices_are_equally_spaced_in_angle() {
    for n in [5usize, 6usize] {
        let v = polygon_vertices(n as u32, 20000, 20000, 10000, Rotation::identity());
        assert_eq!(v.len(), n);
        let angles: Vec<f64> = v
            .iter()
            .map(|&(x, y)| ((y - 20000) as f64).atan2((x - 20000) as f64))
            .collect();
        let step = 2.0 * std::f64::consts::PI / n as f64;
        for i in 0..n {
            let a = angles[i];
            let b = angles[(i + 1) % n];
            let mut d = b - a;
            while d < 0.0 {
                d += 2.0 * std::f64::consts::PI;
            }
            assert!((d - step).abs() < 1e-3, "n={} i={} d={}", n, i, d);
        }
    }
}
