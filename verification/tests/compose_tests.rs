use random_icon::canvas::Canvas;
use random_icon::color::{decode_hex, palette_hex, Rgb, PALETTE_LEN};
use random_icon::compose::{compose, IconConfig};
use random_icon::random::{generate_icon, sample_palette};
use random_icon::rotation::Rotation;
use random_icon::shape::{ShapeKind, ShapeSpec};

const BG: Rgb = Rgb { r: 9, g: 9, b: 9 };

fn circle(cx: u32, cy: u32, size: u32, color: Rgb) -> ShapeSpec {
    ShapeSpec { kind: ShapeKind::Circle, cx, cy, size, rot: Rotation::identity(), color }
}

#[test]
fn compose_of_no_shapes_is_the_background() {
    let cfg = IconConfig::new(12, 12, 1, 2);
    let c = compose(cfg, BG, &vec![]);
    for y in 0..12u32 {
        for x in 0..12u32 {
            assert_eq!(c.get_pixel(x, y), BG);
        }
    }
}

#[test]
fn five_shape_scenario_center_overwrites_corners() {
    // Four corner shapes then a center shape, in the fixed order: where
    // the center shape's footprint overlaps a corner shape's, the pixel
    // shows the center color.
    let cfg = IconConfig::new(40, 40, 1, 30);
    let corner_colors = [
        Rgb { r: 10, g: 0, b: 0 },
        Rgb { r: 0, g: 10, b: 0 },
        Rgb { r: 0, g: 0, b: 10 },
        Rgb { r: 10, g: 10, b: 0 },
    ];
    let center_color = Rgb { r: 200, g: 100, b: 50 };
    let shapes = vec![
        circle(0, 0, 15, corner_colors[0]),
        circle(39, 0, 15, corner_colors[1]),
        circle(0, 39, 15, corner_colors[2]),
        circle(39, 39, 15, corner_colors[3]),
        circle(20, 20, 20, center_color),
    ];
    let c = compose(cfg, BG, &shapes);
    let in_circle = |cx: i64, cy: i64, r: i64, x: i64, y: i64| {
        (x - cx) * (x - cx) + (y - cy) * (y - cy) <= r * r
    };
    let mut overlaps = 0;
    for y in 0..40i64 {
        for x in 0..40i64 {
            let center = in_circle(20, 20, 20, x, y);
            let corner = in_circle(0, 0, 15, x, y)
                || in_circle(39, 0, 15, x, y)
                || in_circle(0, 39, 15, x, y)
                || in_circle(39, 39, 15, x, y);
            if center {
                assert_eq!(c.get_pixel(x as u32, y as u32), center_color);
                if corner {
                    overlaps += 1;
                }
            } else if !corner {
                assert_eq!(c.get_pixel(x as u32, y as u32), BG);
            }
        }
    }
    assert!(overlaps > 0, "the scenario must actually overlap");
    // A corner-only pixel keeps its corner color.
    assert_eq!(c.get_pixel(0, 0), corner_colors[0]);
    assert_eq!(c.get_pixel(39, 0), corner_colors[1]);
}

#[test]
fn later_shapes_overwrite_earlier_ones_pairwise() {
    let cfg = IconConfig::new(16, 16, 1, 10);
    let first = circle(8, 8, 5, Rgb { r: 50, g: 0, b: 0 });
    let second = circle(8, 8, 3, Rgb { r: 0, g: 50, b: 0 });
    let c = compose(cfg, BG, &vec![first, second]);
    assert_eq!(c.get_pixel(8, 8), second.color);
    assert_eq!(c.get_pixel(8, 12), first.color);
    assert_eq!(c.get_pixel(0, 0), BG);
}

fn palette_colors() -> Vec<Rgb> {
    (0..PALETTE_LEN).map(|i| decode_hex(palette_hex(i)).unwrap()).collect()
}

#[test]
fn sample_palette_yields_a_built_in_color() {
    let colors = palette_colors();
    let mut rng = rand::thread_rng();
    for _ in 0..50 {
        let c = sample_palette(&mut rng);
        assert!(colors.contains(&c));
    }
}

#[test]
fn generated_icon_uses_only_palette_colors() {
    let cfg = IconConfig::new(50, 50, 5, 12);
    let rots = vec![Rotation::identity(); 5];
    let c = generate_icon(cfg, &rots);
    let colors = palette_colors();
    for y in 0..50u32 {
        for x in 0..50u32 {
            assert!(colors.contains(&c.get_pixel(x, y)));
        }
    }
}

#[test]
fn generated_icon_has_the_configured_dimensions_and_encodes() {
    let cfg = IconConfig::new(64, 64, 8, 20);
    let rots = vec![
        Rotation::identity(),
        Rotation::quarter_turn(),
        Rotation::new(-65536, 0),
        Rotation::new(0, -65536),
        Rotation::new(46341, 46341),
    ];
    let c = generate_icon(cfg, &rots);
    assert_eq!(c.width, 64);
    assert_eq!(c.height, 64);
    let bytes = c.encode_png().expect("encoding an in-memory raster succeeds");
    let img = image::load_from_memory(&bytes).expect("the stream decodes").to_rgb8();
    assert_eq!(img.width(), 64);
    assert_eq!(img.height(), 64);
}
