use random_icon::canvas::Canvas;
use random_icon::color::Rgb;

const BG: Rgb = Rgb { r: 1, g: 2, b: 3 };
const RED: Rgb = Rgb { r: 255, g: 0, b: 0 };

fn snapshot(c: &Canvas) -> Vec<Rgb> {
    let mut v = Vec::new();
    for y in 0..c.height {
        for x in 0..c.width {
            v.push(c.get_pixel(x, y));
        }
    }
    v
}

#[test]
fn new_initializes_every_pixel() {
    let c = Canvas::new(4, 3, BG);
    for y in 0..3 {
        for x in 0..4 {
            assert_eq!(c.get_pixel(x, y), BG);
        }
    }
}

#[test]
fn put_pixel_writes_in_bounds() {
    let mut c = Canvas::new(10, 10, BG);
    c.put_pixel(3, 7, RED);
    assert_eq!(c.get_pixel(3, 7), RED);
    assert_eq!(c.get_pixel(7, 3), BG);
}

#[test]
fn put_pixel_out_of_bounds_is_a_no_op() {
    let mut c = Canvas::new(10, 10, BG);
    let before = snapshot(&c);
    c.put_pixel(-1, 5, RED);
    c.put_pixel(5, -1, RED);
    c.put_pixel(10, 5, RED);
    c.put_pixel(5, 10, RED);
    c.put_pixel(i64::MIN + 1, i64::MAX, RED);
    assert_eq!(snapshot(&c), before);
}

#[test]
fn put_pixel_out_of_bounds_is_idempotent() {
    let mut c = Canvas::new(8, 8, BG);
    let before = snapshot(&c);
    for _ in 0..3 {
        c.put_pixel(100, 100, RED);
        assert_eq!(snapshot(&c), before);
    }
}

#[test]
fn encode_png_produces_a_png_stream() {
    let mut c = Canvas::new(6, 5, BG);
    c.put_pixel(2, 2, RED);
    let raw = c.to_raw_bytes();
    let bytes = c.encode_png().expect("encoding an in-memory raster succeeds");
    assert_ne!(bytes, raw);
    assert_eq!(&bytes[0..4], &[0x89, b'P', b'N', b'G']);
}

#[test]
fn encode_png_round_trips_through_a_decoder() {
    let mut c = Canvas::new(7, 4, BG);
    c.put_pixel(0, 0, RED);
    c.put_pixel(6, 3, Rgb { r: 9, g: 8, b: 7 });
    let bytes = c.encode_png().expect("encoding an in-memory raster succeeds");
    let img = image::load_from_memory(&bytes).expect("the stream decodes").to_rgb8();
    assert_eq!(img.width(), 7);
    assert_eq!(img.height(), 4);
    for y in 0..4u32 {
        for x in 0..7u32 {
            let p = c.get_pixel(x, y);
            assert_eq!(img.get_pixel(x, y).0, [p.r, p.g, p.b]);
        }
    }
}

#[test]
fn to_raw_bytes_is_three_bytes_per_pixel() {
    let c = Canvas::new(3, 2, BG);
    let raw = c.to_raw_bytes();
    assert_eq!(raw.len(), 18);
    assert_eq!(&raw[0..3], &[1, 2, 3]);
}
