//! Fixed-point arithmetic.
//!
//! A quantity in `[0, 1]` is held as an integer number of millionths
//! (`SCALE` stands for one). The logistic curve `1 / (1 + e^-x)` is
//! evaluated in the same format: `e^-x` comes from a table of `e^-k` for
//! the whole part of `x` and a truncated power series for its fractional
//! part, both in thousand-millionths, every division rounded down. The
//! curve is held one millionth away from zero and from one, so that its
//! value is always strictly between them.

use vstd::prelude::*;

verus! {

/// The integer that stands for one.
pub const SCALE: u64 = 1_000_000;

/// The finer unit that the exponential is computed in.
pub const FINE: u64 = 1_000_000_000;

/// The number of terms of the power series of `e^-f`.
pub const SERIES_TERMS: u64 = 12;

/// From this argument on (in millionths) the logistic curve is held at its
/// largest value, `SCALE - 1`.
pub const SATURATION: u64 = 14_000_000;

/// `e^-k` in units of `1 / FINE`, rounded to the nearest unit, for a whole
/// `k` in `0..14`; zero outside that range.
pub open spec fn exp_neg_whole(k: int) -> int {
    if k == 0 {
        1_000_000_000
    } else if k == 1 {
        367_879_441
    } else if k == 2 {
        135_335_283
    } else if k == 3 {
        49_787_068
    } else if k == 4 {
        18_315_639
    } else if k == 5 {
        6_737_947
    } else if k == 6 {
        2_478_752
    } else if k == 7 {
        911_882
    } else if k == 8 {
        335_463
    } else if k == 9 {
        123_410
    } else if k == 10 {
        45_400
    } else if k == 11 {
        16_702
    } else if k == 12 {
        6_144
    } else if k == 13 {
        2_260
    } else {
        0
    }
}

/// The tail of the nested form of the power series of `e^-f`,
/// `1 - f/i * (1 - f/(i+1) * (... (1 - f/SERIES_TERMS)))`, in units of
/// `1 / FINE`, each division rounded down. `f` is in the same units.
pub open spec fn exp_neg_series(f: int, i: int) -> int
    decreases SERIES_TERMS + 1 - i,
{
    if i < 1 || i > SERIES_TERMS {
        FINE as int
    } else {
        FINE - (f * exp_neg_series(f, i + 1) / (FINE as int)) / i
    }
}

/// `e^-t` in units of `1 / FINE`, for `t` in millionths.
pub open spec fn exp_neg(t: int) -> int {
    exp_neg_whole(t / (SCALE as int)) * exp_neg_series((t % (SCALE as int)) * 1000, 1) / (
    FINE as int)
}

/// The logistic curve `1 / (1 + e^-t)` on the non-negative half line, in
/// millionths, held below one.
pub open spec fn logistic_upper(t: int) -> int {
    if t >= SATURATION {
        SCALE - 1
    } else {
        let v = SCALE * FINE / (FINE + exp_neg(t));
        if v >= SCALE {
            SCALE - 1
        } else {
            v
        }
    }
}

/// The logistic curve `1 / (1 + e^-x)` in millionths, for `x` in
/// millionths. The negative half line mirrors the positive one.
pub open spec fn logistic(x: int) -> int {
    if x >= 0 {
        logistic_upper(x)
    } else {
        SCALE - logistic_upper(-x)
    }
}

/// Every tail of the series lies between zero and one.
pub proof fn lemma_exp_neg_series_bounds(f: int, i: int)
    requires
        0 <= f <= FINE,
    ensures
        0 <= exp_neg_series(f, i) <= FINE,
    decreases SERIES_TERMS + 1 - i,
{
    if 1 <= i <= SERIES_TERMS {
        lemma_exp_neg_series_bounds(f, i + 1);
        let h = exp_neg_series(f, i + 1);
        let q = FINE as int;
        assert(0 <= f * h <= q * q) by (nonlinear_arith)
            requires
                0 <= f <= q,
                0 <= h <= q,
        ;
        assert(0 <= f * h / q <= q) by (nonlinear_arith)
            requires
                0 <= f * h <= q * q,
                q > 0,
        ;
        assert(0 <= (f * h / q) / i <= q) by (nonlinear_arith)
            requires
                0 <= f * h / q <= q,
                i >= 1,
        ;
    }
}

/// `e^-t` lies between zero and one.
pub proof fn lemma_exp_neg_bounds(t: int)
    requires
        0 <= t,
    ensures
        0 <= exp_neg(t) <= FINE,
{
    let k = t / (SCALE as int);
    let f = (t % (SCALE as int)) * 1000;
    lemma_exp_neg_series_bounds(f, 1);
    let w = exp_neg_whole(k);
    let h = exp_neg_series(f, 1);
    let q = FINE as int;
    assert(0 <= w <= q);
    assert(0 <= w * h <= q * q) by (nonlinear_arith)
        requires
            0 <= w <= q,
            0 <= h <= q,
    ;
    assert(0 <= w * h / q <= q) by (nonlinear_arith)
        requires
            0 <= w * h <= q * q,
            q > 0,
    ;
}

/// On the non-negative half line the curve lies in `[SCALE / 2, SCALE)`.
pub proof fn lemma_logistic_upper_bounds(t: int)
    requires
        0 <= t,
    ensures
        SCALE / 2 <= logistic_upper(t) < SCALE,
{
    if t < SATURATION {
        lemma_exp_neg_bounds(t);
        let e = exp_neg(t);
        let q = FINE as int;
        let s = SCALE as int;
        assert(s * q / (q + e) >= s / 2) by (nonlinear_arith)
            requires
                0 <= e <= q,
                q == 1_000_000_000,
                s == 1_000_000,
        ;
    }
}

/// The curve lies strictly between zero and one, whatever the argument.
pub proof fn lemma_logistic_bounds(x: int)
    ensures
        0 < logistic(x) < SCALE,
{
    if x >= 0 {
        lemma_logistic_upper_bounds(x);
    } else {
        lemma_logistic_upper_bounds(-x);
    }
}

/// The curve is point-symmetric about its centre: the values at `x` and
/// `-x` add up to one.
pub proof fn law_logistic_is_symmetric(x: int)
    requires
        x != 0,
    ensures
        logistic(x) + logistic(-x) == SCALE,
{
}

/// Beyond the saturation point on either side the curve is flat.
pub proof fn lemma_logistic_saturates(x: int)
    ensures
        x >= SATURATION ==> logistic(x) == SCALE - 1,
        x <= -SATURATION ==> logistic(x) == 1,
{
}

/// At its centre the curve is one half.
pub proof fn law_logistic_centre()
    ensures
        logistic(0) == SCALE / 2,
{
    reveal_with_fuel(exp_neg_series, 14);
    assert(exp_neg_series(0, 1) == FINE);
    assert(exp_neg(0) == FINE);
}

/// Looks `e^-k` up in the table.
fn exp_neg_whole_at(k: u64) -> (r: u64)
    ensures
        r == exp_neg_whole(k as int),
        r <= FINE,
{
    if k == 0 {
        1_000_000_000
    } else if k == 1 {
        367_879_441
    } else if k == 2 {
        135_335_283
    } else if k == 3 {
        49_787_068
    } else if k == 4 {
        18_315_639
    } else if k == 5 {
        6_737_947
    } else if k == 6 {
        2_478_752
    } else if k == 7 {
        911_882
    } else if k == 8 {
        335_463
    } else if k == 9 {
        123_410
    } else if k == 10 {
        45_400
    } else if k == 11 {
        16_702
    } else if k == 12 {
        6_144
    } else if k == 13 {
        2_260
    } else {
        0
    }
}

/// Sums the series of `e^-f` from its innermost term outwards.
fn exp_neg_series_at(f: u64) -> (r: u64)
    requires
        f <= FINE,
    ensures
        r == exp_neg_series(f as int, 1),
        r <= FINE,
{
    let mut h: u64 = FINE;
    let mut i: u64 = SERIES_TERMS;
    while i >= 1
        invariant
            0 <= i <= SERIES_TERMS,
            f <= FINE,
            h == exp_neg_series(f as int, i + 1),
            h <= FINE,
        decreases i,
    {
        proof {
            lemma_exp_neg_series_bounds(f as int, i as int);
            assert(0 <= f * h <= FINE * FINE) by (nonlinear_arith)
                requires
                    0 <= f <= FINE,
                    0 <= h <= FINE,
            ;
        }
        h = FINE - (f * h / FINE) / i;
        i = i - 1;
    }
    h
}

/// Evaluates `e^-t` for `t` below the saturation point.
fn exp_neg_at(t: u64) -> (r: u64)
    requires
        t < SATURATION,
    ensures
        r == exp_neg(t as int),
        r <= FINE,
{
    let w = exp_neg_whole_at(t / SCALE);
    let h = exp_neg_series_at((t % SCALE) * 1000);
    proof {
        lemma_exp_neg_bounds(t as int);
        assert(0 <= w * h <= FINE * FINE) by (nonlinear_arith)
            requires
                0 <= w <= FINE,
                0 <= h <= FINE,
        ;
    }
    w * h / FINE
}

/// Evaluates the logistic curve on the non-negative half line.
fn logistic_upper_at(t: u64) -> (r: u64)
    ensures
        r == logistic_upper(t as int),
        SCALE / 2 <= r < SCALE,
{
    proof {
        lemma_logistic_upper_bounds(t as int);
    }
    if t >= SATURATION {
        SCALE - 1
    } else {
        let e = exp_neg_at(t);
        let v = SCALE * FINE / (FINE + e);
        if v >= SCALE {
            SCALE - 1
        } else {
            v
        }
    }
}

/// Evaluates the logistic curve `1 / (1 + e^-x)`, argument and result in
/// millionths. The result is never zero and never one.
pub fn logistic_at(x: i64) -> (r: u64)
    ensures
        r == logistic(x as int),
        0 < r < SCALE,
{
    if x >= 0 {
        logistic_upper_at(x as u64)
    } else if x <= -14_000_000 {
        1
    } else {
        SCALE - logistic_upper_at((-x) as u64)
    }
}

} // verus!
