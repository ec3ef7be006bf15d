//! Fixed-point circular functions.
//!
//! Sine and cosine of angles given in micro-degrees, returned with 16
//! fractional bits. The first quadrant is evaluated by a truncated power
//! series, clamped into the unit range; the other quadrants fold onto it by
//! the usual symmetries. The series' exact integer value is its own
//! specification; the contracts every caller builds on are the unit-range
//! bounds and the quadrant symmetries.
use vstd::prelude::*;

use crate::num::{FP_ONE, lemma_mul_abs_bound};

verus! {

/// Micro-degrees in a full turn.
pub const FULL_TURN_UDEG: i64 = 360_000_000;

/// Micro-degrees in a quarter turn.
pub const QUARTER_TURN_UDEG: i64 = 90_000_000;

/// Half a turn in 16-bit fixed-point radians (pi scaled by 65536).
pub const HALF_TURN_FP_RAD: i64 = 205_887;

/// First-quadrant sine: the truncated power series on `[0, 90]` degrees,
/// clamped into `[0, 1]`.
pub open spec fn sin_quarter_spec(x: int) -> int {
    let r = (x * HALF_TURN_FP_RAD as int) / 180_000_000;
    let r2 = (r * r) / FP_ONE as int;
    let r3 = (r2 * r) / FP_ONE as int;
    let r5 = (r3 * r2) / FP_ONE as int;
    let r7 = (r5 * r2) / FP_ONE as int;
    let s = r - r3 / 6 + r5 / 120 - r7 / 5040;
    if s < 0 {
        0
    } else if s > FP_ONE as int {
        FP_ONE as int
    } else {
        s
    }
}

/// First-quadrant cosine: the truncated power series on `[0, 90]` degrees,
/// clamped into `[0, 1]`.
pub open spec fn cos_quarter_spec(x: int) -> int {
    let r = (x * HALF_TURN_FP_RAD as int) / 180_000_000;
    let r2 = (r * r) / FP_ONE as int;
    let c4 = (r2 * r2) / FP_ONE as int;
    let c6 = (c4 * r2) / FP_ONE as int;
    let c = FP_ONE as int - r2 / 2 + c4 / 24 - c6 / 720;
    if c < 0 {
        0
    } else if c > FP_ONE as int {
        FP_ONE as int
    } else {
        c
    }
}

/// The angle folded into `[0, 360)` degrees.
pub open spec fn norm_angle_spec(angle: int) -> int {
    angle % (FULL_TURN_UDEG as int)
}

/// Sine of any angle, by quadrant folding of the first-quadrant series.
pub open spec fn sin_udeg_spec(angle: int) -> int {
    let m = norm_angle_spec(angle);
    let q = m / (QUARTER_TURN_UDEG as int);
    let f = m % (QUARTER_TURN_UDEG as int);
    if q == 0 {
        sin_quarter_spec(f)
    } else if q == 1 {
        cos_quarter_spec(f)
    } else if q == 2 {
        -sin_quarter_spec(f)
    } else {
        -cos_quarter_spec(f)
    }
}

/// Cosine of any angle, by quadrant folding of the first-quadrant series.
pub open spec fn cos_udeg_spec(angle: int) -> int {
    let m = norm_angle_spec(angle);
    let q = m / (QUARTER_TURN_UDEG as int);
    let f = m % (QUARTER_TURN_UDEG as int);
    if q == 0 {
        cos_quarter_spec(f)
    } else if q == 1 {
        -sin_quarter_spec(f)
    } else if q == 2 {
        -cos_quarter_spec(f)
    } else {
        sin_quarter_spec(f)
    }
}

fn sin_quarter(x: i64) -> (s: i64)
    requires
        0 <= x <= QUARTER_TURN_UDEG,
    ensures
        s == sin_quarter_spec(x as int),
        0 <= s <= FP_ONE,
{
    proof {
        lemma_mul_abs_bound(x as int, HALF_TURN_FP_RAD as int, QUARTER_TURN_UDEG as int, HALF_TURN_FP_RAD as int);
    }
    let r: i64 = (x * HALF_TURN_FP_RAD) / 180_000_000;
    proof {
        lemma_mul_abs_bound(r as int, r as int, 0x2_0000, 0x2_0000);
    }
    let r2: i64 = (r * r) / FP_ONE;
    proof {
        lemma_mul_abs_bound(r2 as int, r as int, 0x4_0000, 0x2_0000);
    }
    let r3: i64 = (r2 * r) / FP_ONE;
    proof {
        lemma_mul_abs_bound(r3 as int, r2 as int, 0x8_0000, 0x4_0000);
    }
    let r5: i64 = (r3 * r2) / FP_ONE;
    proof {
        lemma_mul_abs_bound(r5 as int, r2 as int, 0x20_0000, 0x4_0000);
    }
    let r7: i64 = (r5 * r2) / FP_ONE;
    let s: i64 = r - r3 / 6 + r5 / 120 - r7 / 5040;
    if s < 0 {
        0
    } else if s > FP_ONE {
        FP_ONE
    } else {
        s
    }
}

fn cos_quarter(x: i64) -> (c: i64)
    requires
        0 <= x <= QUARTER_TURN_UDEG,
    ensures
        c == cos_quarter_spec(x as int),
        0 <= c <= FP_ONE,
{
    proof {
        lemma_mul_abs_bound(x as int, HALF_TURN_FP_RAD as int, QUARTER_TURN_UDEG as int, HALF_TURN_FP_RAD as int);
    }
    let r: i64 = (x * HALF_TURN_FP_RAD) / 180_000_000;
    proof {
        lemma_mul_abs_bound(r as int, r as int, 0x2_0000, 0x2_0000);
    }
    let r2: i64 = (r * r) / FP_ONE;
    proof {
        lemma_mul_abs_bound(r2 as int, r2 as int, 0x4_0000, 0x4_0000);
    }
    let c4: i64 = (r2 * r2) / FP_ONE;
    proof {
        lemma_mul_abs_bound(c4 as int, r2 as int, 0x10_0000, 0x4_0000);
    }
    let c6: i64 = (c4 * r2) / FP_ONE;
    let c: i64 = FP_ONE - r2 / 2 + c4 / 24 - c6 / 720;
    if c < 0 {
        0
    } else if c > FP_ONE {
        FP_ONE
    } else {
        c
    }
}

/// The exponential on `[0, 2]`: a truncated power series, at least one and
/// below eight.
pub open spec fn exp_q16_spec(x: int) -> int {
    let x2 = (x * x) / FP_ONE as int;
    let x3 = (x2 * x) / FP_ONE as int;
    let x4 = (x3 * x) / FP_ONE as int;
    let x5 = (x4 * x) / FP_ONE as int;
    let x6 = (x5 * x) / FP_ONE as int;
    FP_ONE as int + x + x2 / 2 + x3 / 6 + x4 / 24 + x5 / 120 + x6 / 720
}

/// Fixed-point exponential of a damping factor in `[0, 2]`.
pub fn exp_q16(x: i64) -> (r: i64)
    requires
        0 <= x <= 2 * FP_ONE,
    ensures
        r == exp_q16_spec(x as int),
        FP_ONE <= r < 8 * FP_ONE,
{
    proof {
        lemma_mul_abs_bound(x as int, x as int, 0x2_0000, 0x2_0000);
    }
    let x2: i64 = (x * x) / FP_ONE;
    proof {
        lemma_mul_abs_bound(x2 as int, x as int, 0x4_0000, 0x2_0000);
    }
    let x3: i64 = (x2 * x) / FP_ONE;
    proof {
        lemma_mul_abs_bound(x3 as int, x as int, 0x8_0000, 0x2_0000);
    }
    let x4: i64 = (x3 * x) / FP_ONE;
    proof {
        lemma_mul_abs_bound(x4 as int, x as int, 0x10_0000, 0x2_0000);
    }
    let x5: i64 = (x4 * x) / FP_ONE;
    proof {
        lemma_mul_abs_bound(x5 as int, x as int, 0x20_0000, 0x2_0000);
    }
    let x6: i64 = (x5 * x) / FP_ONE;
    FP_ONE + x + x2 / 2 + x3 / 6 + x4 / 24 + x5 / 120 + x6 / 720
}

/// The natural logarithm of one plus a value in `[0, 2]`: the hyperbolic
/// series on `x/(2+x)`, nonnegative and at most two.
pub open spec fn ln1p_q16_spec(x: int) -> int {
    let y = (x * FP_ONE as int) / (2 * FP_ONE as int + x);
    let y2 = (y * y) / FP_ONE as int;
    let y3 = (y2 * y) / FP_ONE as int;
    let y5 = (y3 * y2) / FP_ONE as int;
    2 * (y + y3 / 3 + y5 / 5)
}

/// Fixed-point natural logarithm of one plus a damping factor in `[0, 2]`.
pub fn ln1p_q16(x: i64) -> (r: i64)
    requires
        0 <= x <= 2 * FP_ONE,
    ensures
        r == ln1p_q16_spec(x as int),
        0 <= r <= 2 * FP_ONE,
{
    proof {
        lemma_mul_abs_bound(x as int, FP_ONE as int, 0x2_0000, 0x1_0000);
        assert(x as int * FP_ONE as int <= (2 * FP_ONE as int + x as int) * 0x8000)
            by (nonlinear_arith)
            requires
                0 <= x as int <= 2 * FP_ONE as int,
        ;
        vstd::arithmetic::div_mod::lemma_div_is_ordered(
            x as int * FP_ONE as int,
            (2 * FP_ONE as int + x as int) * 0x8000,
            2 * FP_ONE as int + x as int,
        );
        vstd::arithmetic::div_mod::lemma_div_multiples_vanish(
            0x8000,
            2 * FP_ONE as int + x as int,
        );
        assert((2 * FP_ONE as int + x as int) * 0x8000 == 0x8000 * (2 * FP_ONE as int + x as int))
            by (nonlinear_arith);
        vstd::arithmetic::div_mod::lemma_div_pos_is_pos(
            x as int * FP_ONE as int,
            2 * FP_ONE as int + x as int,
        );
    }
    let y: i64 = (x * FP_ONE) / (2 * FP_ONE + x);
    proof {
        lemma_mul_abs_bound(y as int, y as int, 0x8000, 0x8000);
    }
    let y2: i64 = (y * y) / FP_ONE;
    proof {
        lemma_mul_abs_bound(y2 as int, y as int, 0x4000, 0x8000);
    }
    let y3: i64 = (y2 * y) / FP_ONE;
    proof {
        lemma_mul_abs_bound(y3 as int, y2 as int, 0x2000, 0x4000);
    }
    let y5: i64 = (y3 * y2) / FP_ONE;
    2 * (y + y3 / 3 + y5 / 5)
}

/// Sine and cosine of an angle in micro-degrees, each within `[-1, 1]` in
/// 16-bit fixed point.
pub fn sin_cos_udeg(angle: i64) -> (r: (i64, i64))
    ensures
        r.0 == sin_udeg_spec(angle as int),
        r.1 == cos_udeg_spec(angle as int),
        -FP_ONE <= r.0 <= FP_ONE,
        -FP_ONE <= r.1 <= FP_ONE,
{
    let rem: i64 = angle % FULL_TURN_UDEG;
    let m: i64 = if rem < 0 {
        rem + FULL_TURN_UDEG
    } else {
        rem
    };
    proof {
        assert(m as int == norm_angle_spec(angle as int));
    }
    let q: i64 = m / QUARTER_TURN_UDEG;
    let f: i64 = m % QUARTER_TURN_UDEG;
    if q == 0 {
        let s = sin_quarter(f);
        let c = cos_quarter(f);
        (s, c)
    } else if q == 1 {
        let s = sin_quarter(f);
        let c = cos_quarter(f);
        (c, -s)
    } else if q == 2 {
        let s = sin_quarter(f);
        let c = cos_quarter(f);
        (-s, -c)
    } else {
        let s = sin_quarter(f);
        let c = cos_quarter(f);
        (-c, s)
    }
}

} // verus!
