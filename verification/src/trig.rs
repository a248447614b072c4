//! Fixed-point sine and cosine on integer turn angles.
//!
//! Angles are measured in 1/65536 of a turn, results are scaled by 32768
//! (so 32768 stands for 1.0). The curve is a rational approximation of the
//! sine on a half turn, mirrored with odd symmetry onto the second half; its
//! worst error is well under one percent of full scale, plenty for window
//! coefficients, transform twiddles and the synthetic signal.

use vstd::prelude::*;

verus! {

/// Angle units in one full turn.
pub const FULL_TURN: i64 = 65536;

/// Angle units in half a turn.
pub const HALF_TURN: i64 = 32768;

/// Angle units in a quarter turn.
pub const QUARTER_TURN: i64 = 16384;

/// Fixed-point scale of the results: `TRIG_SCALE` stands for 1.0.
pub const TRIG_SCALE: i64 = 32768;

/// Rational sine approximation on the first half turn, `t` in `[0, HALF_TURN]`:
/// `16 t (H - t) S / (5 H^2 - 4 t (H - t))` with `H = HALF_TURN`,
/// `S = TRIG_SCALE`.
pub open spec fn sin_half_spec(t: int) -> int {
    (16 * t * (HALF_TURN - t) * TRIG_SCALE) / (5 * (HALF_TURN as int) * (HALF_TURN as int) - 4 * t
        * (HALF_TURN - t))
}

/// Sine of an angle in `[0, FULL_TURN)`, odd-symmetric around the half turn.
pub open spec fn sin_turn_spec(u: int) -> int {
    if u <= HALF_TURN {
        sin_half_spec(u)
    } else {
        -sin_half_spec(u - HALF_TURN)
    }
}

/// Cosine of an angle in `[0, FULL_TURN)`: the sine a quarter turn ahead.
pub open spec fn cos_turn_spec(u: int) -> int {
    if u + QUARTER_TURN < FULL_TURN {
        sin_turn_spec(u + QUARTER_TURN)
    } else {
        sin_turn_spec(u + QUARTER_TURN - FULL_TURN)
    }
}

/// The half-turn approximation stays within `[0, TRIG_SCALE]`.
pub proof fn lemma_sin_half_bounds(t: int)
    requires
        0 <= t <= HALF_TURN,
    ensures
        0 <= sin_half_spec(t) <= TRIG_SCALE,
{
    let h = HALF_TURN as int;
    let s = TRIG_SCALE as int;
    let p = t * (h - t);
    let num = 16 * p * s;
    let den = 5 * h * h - 4 * p;
    assert(0 <= p && 4 * p <= h * h) by (nonlinear_arith)
        requires
            0 <= t <= h,
            p == t * (h - t),
    ;
    assert(16 * t * (h - t) * s == num) by (nonlinear_arith)
        requires
            p == t * (h - t),
            num == 16 * p * s,
    ;
    assert(4 * t * (h - t) == 4 * p) by (nonlinear_arith)
        requires
            p == t * (h - t),
    ;
    assert(num <= 4 * (h * h) * s) by (nonlinear_arith)
        requires
            0 <= p,
            4 * p <= h * h,
            num == 16 * p * s,
            s > 0,
    ;
    assert(0 <= num / den <= s) by (nonlinear_arith)
        requires
            0 <= num,
            num <= 4 * (h * h) * s,
            den >= 4 * h * h,
            h == 32768,
            s == 32768,
    ;
    assert(sin_half_spec(t) == num / den);
}

/// The sine of any angle stays within `[-TRIG_SCALE, TRIG_SCALE]`.
pub proof fn lemma_sin_turn_bounds(u: int)
    requires
        0 <= u < FULL_TURN,
    ensures
        -TRIG_SCALE <= sin_turn_spec(u) <= TRIG_SCALE,
{
    if u <= HALF_TURN {
        lemma_sin_half_bounds(u);
    } else {
        lemma_sin_half_bounds(u - HALF_TURN);
    }
}

/// The cosine of any angle stays within `[-TRIG_SCALE, TRIG_SCALE]`.
pub proof fn lemma_cos_turn_bounds(u: int)
    requires
        0 <= u < FULL_TURN,
    ensures
        -TRIG_SCALE <= cos_turn_spec(u) <= TRIG_SCALE,
{
    if u + QUARTER_TURN < FULL_TURN {
        lemma_sin_turn_bounds(u + QUARTER_TURN);
    } else {
        lemma_sin_turn_bounds(u + QUARTER_TURN - FULL_TURN);
    }
}

/// Sine on the first half turn, computed in unsigned arithmetic.
fn sin_half(t: i64) -> (r: i64)
    requires
        0 <= t <= HALF_TURN,
    ensures
        r == sin_half_spec(t as int),
        0 <= r <= TRIG_SCALE,
{
    proof {
        lemma_sin_half_bounds(t as int);
    }
    let tu: u64 = t as u64;
    let h: u64 = HALF_TURN as u64;
    let s: u64 = TRIG_SCALE as u64;
    proof {
        assert(tu * (h - tu) <= 0x4000_0000) by (nonlinear_arith)
            requires
                tu <= 32768,
                h == 32768,
        ;
    }
    let p: u64 = tu * (h - tu);
    let num: u64 = 16 * p * s;
    let den: u64 = 5 * h * h - 4 * p;
    proof {
        let hi = HALF_TURN as int;
        let si = TRIG_SCALE as int;
        let ti = t as int;
        assert(p == ti * (hi - ti) && 4 * ti * (hi - ti) == 4 * (p as int) && 16 * ti * (hi - ti)
            * si == 16 * (p as int) * si) by (nonlinear_arith)
            requires
                0 <= ti <= hi,
                hi == 32768,
                p == ti * (hi - ti),
        ;
        assert(num == 16 * (p as int) * si && den == 5 * hi * hi - 4 * (p as int));
        assert(num / den == sin_half_spec(ti));
    }
    (num / den) as i64
}

/// Sine of an angle in `[0, FULL_TURN)` angle units, scaled by `TRIG_SCALE`.
pub fn sin_turn(u: i64) -> (r: i64)
    requires
        0 <= u < FULL_TURN,
    ensures
        r == sin_turn_spec(u as int),
        -TRIG_SCALE <= r <= TRIG_SCALE,
{
    if u <= HALF_TURN {
        sin_half(u)
    } else {
        -sin_half(u - HALF_TURN)
    }
}

/// Cosine of an angle in `[0, FULL_TURN)` angle units, scaled by `TRIG_SCALE`.
pub fn cos_turn(u: i64) -> (r: i64)
    requires
        0 <= u < FULL_TURN,
    ensures
        r == cos_turn_spec(u as int),
        -TRIG_SCALE <= r <= TRIG_SCALE,
{
    if u + QUARTER_TURN < FULL_TURN {
        sin_turn(u + QUARTER_TURN)
    } else {
        sin_turn(u + QUARTER_TURN - FULL_TURN)
    }
}

} // verus!
