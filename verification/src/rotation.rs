//! Rotation angles, carried exactly as fixed-point cosine/sine pairs
//! scaled by 2^16. A caller that wants an arbitrary angle converts it to
//! this form; the angle zero and quarter turns are exact.

use vstd::prelude::*;

verus! {

/// The fixed-point scale: one unit is `1 / 65536`.
pub const SCALE: i64 = 65536;

/// The square of the scale, the divisor after multiplying two
/// fixed-point factors.
pub const SCALE_SQ: i64 = 65536 * 65536;

/// A rotation angle, represented by its cosine and sine scaled by
/// `SCALE`. The pair for an angle of zero is `(SCALE, 0)`.
#[derive(Clone, Copy, PartialEq, Eq, Structural, Debug)]
pub struct Rotation {
    pub cos_q: i64,
    pub sin_q: i64,
}

impl Rotation {
    /// Both components within the unit range, and the pair of unit
    /// length up to the rounding of each component: the scaled cosine
    /// and sine of a real angle always satisfy this, and it excludes
    /// degenerate pairs that select no direction at all.
    pub open spec fn wf(self) -> bool {
        &&& -SCALE <= self.cos_q <= SCALE
        &&& -SCALE <= self.sin_q <= SCALE
        &&& SCALE * SCALE - 2 * SCALE <= self.cos_q * self.cos_q + self.sin_q * self.sin_q
            <= SCALE * SCALE + 2 * SCALE
    }

    /// A rotation from scaled cosine and sine components.
    pub fn new(cos_q: i64, sin_q: i64) -> (r: Rotation)
        requires
            -SCALE <= cos_q <= SCALE,
            -SCALE <= sin_q <= SCALE,
            SCALE * SCALE - 2 * SCALE <= cos_q * cos_q + sin_q * sin_q <= SCALE * SCALE + 2
                * SCALE,
        ensures
            r == (Rotation { cos_q, sin_q }),
            r.wf(),
    {
        Rotation { cos_q, sin_q }
    }

    /// The rotation by angle zero.
    pub fn identity() -> (r: Rotation)
        ensures
            r == (Rotation { cos_q: SCALE, sin_q: 0 }),
            r.wf(),
    {
        Rotation { cos_q: SCALE, sin_q: 0 }
    }

    /// The rotation by a quarter turn; with the fixed half-disk policy it
    /// selects the upper half-plane of the image.
    pub fn quarter_turn() -> (r: Rotation)
        ensures
            r == (Rotation { cos_q: 0, sin_q: SCALE }),
            r.wf(),
    {
        Rotation { cos_q: 0, sin_q: SCALE }
    }
}

} // verus!
