//! The randomized layer: uniform draws from the thread-local generator
//! of the `rand` crate, threaded explicitly as a capability, and the
//! five-anchor icon generation built on them. Nothing is promised about
//! which values are drawn, only what holds of every outcome.

use vstd::prelude::*;
use crate::canvas::Canvas;
use crate::canvas::MAX_DIM;
use crate::color::decode_hex;
use crate::color::decoded_rgb;
use crate::color::in_palette;
use crate::color::lemma_palette_valid;
use crate::color::palette_hex;
use crate::color::palette_spec;
use crate::color::Rgb;
use crate::color::PALETTE_LEN;
use crate::compose::anchor_seq;
use crate::compose::icon_pixel;
use crate::compose::IconConfig;
use crate::rotation::Rotation;
use crate::shape::draw_shape;
use crate::shape::shape_covered;
use crate::shape::ShapeKind;
use crate::shape::ShapeSpec;

verus! {

#[verifier::external_type_specification]
#[verifier::external_body]
pub struct ExThreadRng(rand::rngs::ThreadRng);

/// Relies on `rand::thread_rng`: a handle to the thread-local generator.
/// Nothing can be promised about the values it will yield.
#[verifier::external_body]
fn thread_rng_handle() -> rand::rngs::ThreadRng {
    rand::thread_rng()
}

/// Relies on `rand::Rng::gen_range` over the half-open range `0..n`:
/// the draw is uniform and strictly below `n`. It panics on an empty
/// range, which `n >= 1` excludes.
#[verifier::external_body]
fn rng_below(rng: &mut rand::rngs::ThreadRng, n: u32) -> (r: u32)
    requires
        n >= 1,
    ensures
        r < n,
{
    rand::Rng::gen_range(rng, 0..n)
}

/// Picks one of the 31 built-in palette colors uniformly at random.
pub fn sample_palette(rng: &mut rand::rngs::ThreadRng) -> (c: Rgb)
    ensures
        in_palette(c),
{
    let i = rng_below(rng, PALETTE_LEN);
    let s = palette_hex(i);
    proof {
        lemma_palette_valid(i as int);
    }
    match decode_hex(s) {
        Ok(c) => {
            proof {
                assert(c == decoded_rgb(palette_spec(i as int)));
            }
            c
        },
        Err(_) => {
            proof {
                assert(false);
            }
            Rgb::new(0, 0, 0)
        },
    }
}

/// The shape kind the random draw `t` selects (the triangle is not in
/// the random set).
pub open spec fn kind_of_index(t: int) -> ShapeKind {
    if t == 0 {
        ShapeKind::Circle
    } else if t == 1 {
        ShapeKind::HalfDisk
    } else if t == 2 {
        ShapeKind::Square
    } else if t == 3 {
        ShapeKind::Pentagon
    } else {
        ShapeKind::Hexagon
    }
}

/// How many kinds the random draw ranges over.
pub const SHAPE_KINDS: u32 = 5;

/// Maps a random draw to its shape kind.
fn shape_kind_of(t: u32) -> (k: ShapeKind)
    requires
        t < SHAPE_KINDS,
    ensures
        k == kind_of_index(t as int),
{
    match t {
        0 => ShapeKind::Circle,
        1 => ShapeKind::HalfDisk,
        2 => ShapeKind::Square,
        3 => ShapeKind::Pentagon,
        _ => ShapeKind::Hexagon,
    }
}

/// What holds of every shape the random layer can produce at anchor
/// `(ax, ay)` with rotation `rot` under configuration `cfg`.
pub open spec fn shape_from(cfg: IconConfig, ax: int, ay: int, rot: Rotation, s: ShapeSpec) -> bool {
    &&& s.wf()
    &&& s.cx == ax
    &&& s.cy == ay
    &&& s.rot == rot
    &&& cfg.min_size <= s.size < cfg.max_size
    &&& in_palette(s.color)
    &&& exists|t: int| 0 <= t < SHAPE_KINDS && s.kind == kind_of_index(t)
}

/// Draws one independently randomized shape at the given anchor: random
/// kind, random size from the configured range, random palette color,
/// the supplied rotation.
pub fn draw_random_shape(
    canvas: &mut Canvas,
    rng: &mut rand::rngs::ThreadRng,
    cfg: IconConfig,
    ax: u32,
    ay: u32,
    rot: Rotation,
)
    requires
        old(canvas).wf(),
        cfg.wf(),
        ax <= MAX_DIM,
        ay <= MAX_DIM,
        rot.wf(),
    ensures
        final(canvas).wf(),
        final(canvas).same_dims(*old(canvas)),
        exists|s: ShapeSpec|
            #[trigger] shape_from(cfg, ax as int, ay as int, rot, s) && forall|i: int, j: int|
                old(canvas).in_bounds(i, j) ==> final(canvas).pix(i, j) == (if shape_covered(
                    s,
                    i,
                    j,
                ) {
                    s.color
                } else {
                    old(canvas).pix(i, j)
                }),
{
    let t = rng_below(rng, SHAPE_KINDS);
    let kind = shape_kind_of(t);
    let size = cfg.min_size + rng_below(rng, cfg.max_size - cfg.min_size);
    let color = sample_palette(rng);
    let s = ShapeSpec { kind, cx: ax, cy: ay, size, rot, color };
    draw_shape(canvas, s);
    proof {
        assert(s.kind == kind_of_index(t as int));
        assert(shape_from(cfg, ax as int, ay as int, rot, s));
    }
}

/// What holds of every shape sequence a generated icon is composed of:
/// five shapes, one per fixed anchor in order, each from the random
/// layer with the supplied rotations.
pub open spec fn icon_shapes_from(
    cfg: IconConfig,
    rots: Seq<Rotation>,
    shapes: Seq<ShapeSpec>,
) -> bool {
    &&& shapes.len() == 5
    &&& forall|k: int|
        0 <= k < 5 ==> shape_from(
            cfg,
            anchor_seq(cfg)[k].0,
            anchor_seq(cfg)[k].1,
            rots[k],
            #[trigger] shapes[k],
        )
}

/// What holds of every generated icon: a palette background and a shape
/// sequence from the random layer.
pub open spec fn icon_outcome(
    cfg: IconConfig,
    rots: Seq<Rotation>,
    shapes: Seq<ShapeSpec>,
    bg: Rgb,
) -> bool {
    icon_shapes_from(cfg, rots, shapes) && in_palette(bg)
}

/// Generates one icon from an explicitly supplied generator: a random
/// palette background, then one random shape at each of the four
/// corners and one at the center, drawn in that fixed order. The
/// rotations, one per anchor, are supplied by the caller (an angle of
/// zero gives the unrotated configuration).
pub fn generate_icon_with(
    rng: &mut rand::rngs::ThreadRng,
    cfg: IconConfig,
    rots: &Vec<Rotation>,
) -> (c: Canvas)
    requires
        cfg.wf(),
        rots@.len() == 5,
        forall|k: int| 0 <= k < 5 ==> (#[trigger] rots@[k]).wf(),
    ensures
        c.wf(),
        c.width == cfg.width,
        c.height == cfg.height,
        exists|shapes: Seq<ShapeSpec>, bg: Rgb|
            #[trigger] icon_outcome(cfg, rots@, shapes, bg) && forall|x: int, y: int|
                c.in_bounds(x, y) ==> c.pix(x, y) == icon_pixel(shapes, bg, x, y),
{
    let bg = sample_palette(rng);
    let mut canvas = Canvas::new(cfg.width, cfg.height, bg);
    let ghost mut shapes: Seq<ShapeSpec> = Seq::empty();
    let mut k: usize = 0;
    while k < 5
        invariant
            canvas.wf(),
            canvas.width == cfg.width,
            canvas.height == cfg.height,
            cfg.wf(),
            rots@.len() == 5,
            forall|t: int| 0 <= t < 5 ==> (#[trigger] rots@[t]).wf(),
            k <= 5,
            shapes.len() == k,
            forall|t: int|
                0 <= t < k ==> shape_from(
                    cfg,
                    anchor_seq(cfg)[t].0,
                    anchor_seq(cfg)[t].1,
                    rots@[t],
                    #[trigger] shapes[t],
                ),
            forall|x: int, y: int|
                canvas.in_bounds(x, y) ==> canvas.pix(x, y) == icon_pixel(shapes, bg, x, y),
        decreases 5 - k,
    {
        let ax: u32;
        let ay: u32;
        if k == 0 {
            ax = 0;
            ay = 0;
        } else if k == 1 {
            ax = cfg.width - 1;
            ay = 0;
        } else if k == 2 {
            ax = 0;
            ay = cfg.height - 1;
        } else if k == 3 {
            ax = cfg.width - 1;
            ay = cfg.height - 1;
        } else {
            ax = cfg.width / 2;
            ay = cfg.height / 2;
        }
        proof {
            assert(anchor_seq(cfg)[k as int] == (ax as int, ay as int));
        }
        let ghost before = shapes;
        let ghost cprev = canvas;
        draw_random_shape(&mut canvas, rng, cfg, ax, ay, rots[k]);
        proof {
            let s = choose|s: ShapeSpec|
                #[trigger] shape_from(cfg, ax as int, ay as int, rots@[k as int], s) && forall|
                    i: int,
                    j: int,
                |
                    cprev.in_bounds(i, j) ==> canvas.pix(i, j) == (if shape_covered(s, i, j) {
                        s.color
                    } else {
                        cprev.pix(i, j)
                    });
            shapes = before.push(s);
            assert(shapes.last() == s);
            assert(shapes.drop_last() =~= before);
            assert forall|x: int, y: int| canvas.in_bounds(x, y) implies canvas.pix(x, y)
                == icon_pixel(shapes, bg, x, y) by {
                assert(cprev.pix(x, y) == icon_pixel(before, bg, x, y));
            }
        }
        k = k + 1;
    }
    proof {
        assert(icon_shapes_from(cfg, rots@, shapes));
        assert(icon_outcome(cfg, rots@, shapes, bg));
    }
    canvas
}

/// Generates one icon with the thread-local generator.
pub fn generate_icon(cfg: IconConfig, rots: &Vec<Rotation>) -> (c: Canvas)
    requires
        cfg.wf(),
        rots@.len() == 5,
        forall|k: int| 0 <= k < 5 ==> (#[trigger] rots@[k]).wf(),
    ensures
        c.wf(),
        c.width == cfg.width,
        c.height == cfg.height,
        exists|shapes: Seq<ShapeSpec>, bg: Rgb|
            #[trigger] icon_outcome(cfg, rots@, shapes, bg) && forall|x: int, y: int|
                c.in_bounds(x, y) ==> c.pix(x, y) == icon_pixel(shapes, bg, x, y),
{
    let mut rng = thread_rng_handle();
    generate_icon_with(&mut rng, cfg, rots)
}

} // verus!
