//! The compositor: one background fill, then a fixed sequence of shape
//! draws onto a single exclusively-owned canvas. Later draws overwrite
//! earlier pixels; there is no blending and no rollback.

use vstd::prelude::*;
use crate::canvas::Canvas;
use crate::canvas::MAX_DIM;
use crate::color::Rgb;
use crate::shape::draw_shape;
use crate::shape::shape_covered;
use crate::shape::ShapeSpec;
use crate::vertices::MAX_SHAPE;

verus! {

/// The engine's configuration: canvas dimensions and the half-open
/// range of shape sizes. Injected rather than hard-coded, so the engine
/// stays testable at small sizes.
#[derive(Clone, Copy, PartialEq, Eq, Structural, Debug)]
pub struct IconConfig {
    pub width: u32,
    pub height: u32,
    pub min_size: u32,
    pub max_size: u32,
}

impl IconConfig {
    /// Dimensions within the engine's limits and a non-empty size range.
    pub open spec fn wf(self) -> bool {
        &&& 1 <= self.width <= MAX_DIM
        &&& 1 <= self.height <= MAX_DIM
        &&& self.min_size < self.max_size <= MAX_SHAPE
    }

    pub fn new(width: u32, height: u32, min_size: u32, max_size: u32) -> (cfg: IconConfig)
        requires
            1 <= width <= MAX_DIM,
            1 <= height <= MAX_DIM,
            min_size < max_size <= MAX_SHAPE,
        ensures
            cfg == (IconConfig { width, height, min_size, max_size }),
            cfg.wf(),
    {
        IconConfig { width, height, min_size, max_size }
    }
}

/// The five fixed anchors, in drawing order: the four canvas corners
/// (top-left, top-right, bottom-left, bottom-right), then the center.
pub open spec fn anchor_seq(cfg: IconConfig) -> Seq<(int, int)> {
    seq![
        (0int, 0int),
        (cfg.width - 1, 0int),
        (0int, cfg.height - 1),
        (cfg.width - 1, cfg.height - 1),
        (cfg.width as int / 2, cfg.height as int / 2),
    ]
}

/// The color the finished icon shows at `(x, y)`: the fill color of the
/// last shape covering the pixel, or the background if none does.
pub open spec fn icon_pixel(shapes: Seq<ShapeSpec>, bg: Rgb, x: int, y: int) -> Rgb
    decreases shapes.len(),
{
    if shapes.len() == 0 {
        bg
    } else if shape_covered(shapes.last(), x, y) {
        shapes.last().color
    } else {
        icon_pixel(shapes.drop_last(), bg, x, y)
    }
}

/// Law: last write wins — wherever the final shape of the sequence
/// covers a pixel, the composed icon shows that shape's color, whatever
/// was drawn before.
pub proof fn lemma_last_write_wins(shapes: Seq<ShapeSpec>, bg: Rgb, x: int, y: int)
    requires
        shapes.len() > 0,
        shape_covered(shapes.last(), x, y),
    ensures
        icon_pixel(shapes, bg, x, y) == shapes.last().color,
{
}

/// Law: a pixel no shape covers shows the background color.
pub proof fn lemma_background_shows(shapes: Seq<ShapeSpec>, bg: Rgb, x: int, y: int)
    requires
        forall|k: int| 0 <= k < shapes.len() ==> !shape_covered(#[trigger] shapes[k], x, y),
    ensures
        icon_pixel(shapes, bg, x, y) == bg,
    decreases shapes.len(),
{
    if shapes.len() > 0 {
        assert(!shape_covered(shapes[shapes.len() - 1], x, y));
        lemma_background_shows(shapes.drop_last(), bg, x, y);
    }
}

/// Composes an icon deterministically: a canvas initialized to the
/// background color, then every shape drawn in sequence.
pub fn compose(cfg: IconConfig, bg: Rgb, shapes: &Vec<ShapeSpec>) -> (c: Canvas)
    requires
        cfg.wf(),
        forall|k: int| 0 <= k < shapes@.len() ==> (#[trigger] shapes@[k]).wf(),
    ensures
        c.wf(),
        c.width == cfg.width,
        c.height == cfg.height,
        forall|x: int, y: int| c.in_bounds(x, y) ==> c.pix(x, y) == icon_pixel(shapes@, bg, x, y),
{
    let mut canvas = Canvas::new(cfg.width, cfg.height, bg);
    let n = shapes.len();
    let mut k: usize = 0;
    while k < n
        invariant
            canvas.wf(),
            canvas.width == cfg.width,
            canvas.height == cfg.height,
            n == shapes@.len(),
            k <= n,
            forall|t: int| 0 <= t < shapes@.len() ==> (#[trigger] shapes@[t]).wf(),
            forall|x: int, y: int|
                canvas.in_bounds(x, y) ==> canvas.pix(x, y) == icon_pixel(
                    shapes@.take(k as int),
                    bg,
                    x,
                    y,
                ),
        decreases n - k,
    {
        let ghost before = shapes@.take(k as int);
        draw_shape(&mut canvas, shapes[k]);
        proof {
            let after = shapes@.take(k as int + 1);
            assert(after.drop_last() =~= before);
            assert(after.last() == shapes@[k as int]);
        }
        k = k + 1;
    }
    proof {
        assert(shapes@.take(n as int) =~= shapes@);
    }
    canvas
}

} // verus!
