//! Integer division helpers with exact specifications: the truncating
//! division Rust's `/` performs on machine integers, and rounding to the
//! nearest integer with halves away from zero.

use vstd::prelude::*;

verus! {

/// Absolute value.
pub open spec fn abs(a: int) -> int {
    if a >= 0 {
        a
    } else {
        -a
    }
}

/// Division truncating toward zero (meaningful when `b != 0`), as Rust's
/// `/` computes it on machine integers.
pub open spec fn tdiv(a: int, b: int) -> int {
    if (a >= 0) == (b >= 0) {
        abs(a) / abs(b)
    } else {
        -(abs(a) / abs(b))
    }
}

/// Division rounding to the nearest integer, halves away from zero
/// (meaningful when `b > 0`).
pub open spec fn round_div(a: int, b: int) -> int {
    if a >= 0 {
        (a + b / 2) / b
    } else {
        -((-a + b / 2) / b)
    }
}

/// `|a * b| <= m1 * m2` when the factors are bounded by `m1` and `m2`.
pub proof fn lemma_mul_bound(a: int, b: int, m1: int, m2: int)
    by (nonlinear_arith)
    requires
        -m1 <= a <= m1,
        -m2 <= b <= m2,
        0 <= m1,
        0 <= m2,
    ensures
        -(m1 * m2) <= a * b <= m1 * m2,
{
}

/// `a / b` truncating toward zero.
pub fn tdiv_i64(a: i64, b: i64) -> (q: i64)
    requires
        b != 0,
        a != i64::MIN,
        b != i64::MIN,
    ensures
        q == tdiv(a as int, b as int),
{
    let ua: u64 = if a >= 0 {
        a as u64
    } else {
        (-a) as u64
    };
    let ub: u64 = if b >= 0 {
        b as u64
    } else {
        (-b) as u64
    };
    let uq: u64 = ua / ub;
    assert(uq <= ua);
    if (a >= 0) == (b >= 0) {
        uq as i64
    } else {
        -(uq as i64)
    }
}

/// `a / b` rounded to the nearest integer, halves away from zero.
pub fn round_div_i64(a: i64, b: i64) -> (q: i64)
    requires
        0 < b <= 0x4000_0000_0000_0000,
        -0x4000_0000_0000_0000 <= a <= 0x4000_0000_0000_0000,
    ensures
        q == round_div(a as int, b as int),
{
    let half: u64 = (b as u64) / 2;
    if a >= 0 {
        let uq: u64 = (a as u64 + half) / (b as u64);
        assert(uq <= a as u64 + half);
        uq as i64
    } else {
        let uq: u64 = ((-a) as u64 + half) / (b as u64);
        assert(uq <= (-a) as u64 + half);
        -(uq as i64)
    }
}

} // verus!
