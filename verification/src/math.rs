use vstd::arithmetic::div_mod::{
    lemma_div_is_ordered, lemma_div_multiples_vanish, lemma_div_pos_is_pos,
    lemma_fundamental_div_mod, lemma_mod_bound,
};
use vstd::prelude::*;

use crate::errors::AmmError;

verus! {

/// Numerator of the constant-product output formula: the input amount kept
/// after the 0.3% fee (997 per 1000), multiplied by the output-side reserve.
pub open spec fn swap_numerator(amount_in: int, reserve_out: int) -> int {
    amount_in * 997 * reserve_out
}

/// Denominator of the constant-product output formula.
pub open spec fn swap_denominator(amount_in: int, reserve_in: int) -> int {
    reserve_in * 1000 + amount_in * 997
}

/// Output of a fee-charging constant-product swap:
/// `floor(amount_in * 997 * reserve_out / (reserve_in * 1000 + amount_in * 997))`.
pub open spec fn swap_output(amount_in: int, reserve_in: int, reserve_out: int) -> int {
    swap_numerator(amount_in, reserve_out) / swap_denominator(amount_in, reserve_in)
}

/// `r` is the floor of the square root of `x`.
pub open spec fn is_sqrt_floor(x: int, r: int) -> bool {
    0 <= r && r * r <= x && x < (r + 1) * (r + 1)
}

/// The floor of the square root of `x`, as a recursive definition.
pub open spec fn spec_sqrt_floor(x: int) -> int
    decreases x,
{
    if x <= 0 {
        0
    } else {
        let r = spec_sqrt_floor(x - 1);
        if (r + 1) * (r + 1) <= x {
            r + 1
        } else {
            r
        }
    }
}

pub proof fn lemma_sqrt_floor_correct(x: int)
    requires
        0 <= x,
    ensures
        is_sqrt_floor(x, spec_sqrt_floor(x)),
    decreases x,
{
    if x > 0 {
        lemma_sqrt_floor_correct(x - 1);
        let r = spec_sqrt_floor(x - 1);
        if (r + 1) * (r + 1) <= x {
            assert(x - 1 < (r + 1) * (r + 1));
            assert(x < (r + 2) * (r + 2)) by (nonlinear_arith)
                requires
                    0 <= r,
                    x <= (r + 1) * (r + 1),
            ;
        }
    }
}

pub proof fn lemma_sqrt_floor_unique(x: int, r: int)
    requires
        0 <= x,
        is_sqrt_floor(x, r),
    ensures
        r == spec_sqrt_floor(x),
{
    lemma_sqrt_floor_correct(x);
    let s = spec_sqrt_floor(x);
    assert(r == s) by (nonlinear_arith)
        requires
            0 <= r,
            0 <= s,
            r * r <= x,
            x < (r + 1) * (r + 1),
            s * s <= x,
            x < (s + 1) * (s + 1),
    ;
}

/// Floor of the square root, executable. The root of a 128-bit value always
/// fits in 64 bits.
pub fn integer_sqrt(x: u128) -> (r: u64)
    ensures
        is_sqrt_floor(x as int, r as int),
{
    let mut lo: u128 = 0;
    let mut hi: u128 = 0x1_0000_0000_0000_0000;
    assert((hi as int) * (hi as int) > x as int);
    while lo + 1 < hi
        invariant
            lo < hi,
            hi <= 0x1_0000_0000_0000_0000,
            (lo as int) * (lo as int) <= x as int,
            (x as int) < (hi as int) * (hi as int),
        decreases hi - lo,
    {
        let mid: u128 = lo + (hi - lo) / 2;
        assert((mid as int) * (mid as int) <= u128::MAX as int) by (nonlinear_arith)
            requires
                mid < 0x1_0000_0000_0000_0000u128,
        ;
        if mid * mid <= x {
            lo = mid;
        } else {
            hi = mid;
        }
    }
    lo as u64
}

/// A value strictly above `m / d` multiplies past `m`.
pub proof fn lemma_quotient_exceeded(f: int, d: int, m: int)
    requires
        1 <= d,
        0 <= m,
        f > m / d,
    ensures
        f * d > m,
{
    lemma_fundamental_div_mod(m, d);
    lemma_mod_bound(m, d);
    assert(f * d > m) by (nonlinear_arith)
        requires
            m == d * (m / d) + m % d,
            0 <= m % d < d,
            f > m / d,
            1 <= d,
    ;
}

/// A value at most `m / d` multiplies to at most `m`.
pub proof fn lemma_quotient_respected(f: int, d: int, m: int)
    requires
        1 <= d,
        0 <= m,
        0 <= f <= m / d,
    ensures
        f * d <= m,
{
    lemma_fundamental_div_mod(m, d);
    lemma_mod_bound(m, d);
    assert(f * d <= m) by (nonlinear_arith)
        requires
            m == d * (m / d) + m % d,
            0 <= m % d,
            f <= m / d,
            1 <= d,
            0 <= f,
    ;
}

/// A product of two 64-bit values always fits in 128 bits.
pub proof fn lemma_u64_mul_fits(x: int, y: int)
    requires
        0 <= x <= u64::MAX,
        0 <= y <= u64::MAX,
    ensures
        0 <= x * y <= u128::MAX,
{
    assert(0 <= x * y <= u128::MAX) by (nonlinear_arith)
        requires
            0 <= x <= u64::MAX,
            0 <= y <= u64::MAX,
    ;
}

/// The output of the fee formula, or the error naming why it cannot be
/// computed: `DivisionByZero` when the denominator is zero (no input-side
/// reserve and no input), `ArithmeticOverflow` when the numerator exceeds
/// 128 bits.
pub open spec fn spec_calculate_output(
    amount_in: u64,
    input_reserve: u64,
    output_reserve: u64,
) -> Result<u64, AmmError> {
    let a = amount_in as int;
    let rin = input_reserve as int;
    let rout = output_reserve as int;
    if swap_denominator(a, rin) == 0 {
        Err(AmmError::DivisionByZero)
    } else if swap_numerator(a, rout) > u128::MAX as int {
        Err(AmmError::ArithmeticOverflow)
    } else {
        Ok(swap_output(a, rin, rout) as u64)
    }
}

/// The output never exceeds the output-side reserve, and stays strictly
/// below it whenever the input-side reserve is funded.
pub proof fn lemma_swap_output_bounds(amount_in: int, reserve_in: int, reserve_out: int)
    requires
        0 <= amount_in,
        0 <= reserve_in,
        0 <= reserve_out,
        swap_denominator(amount_in, reserve_in) > 0,
    ensures
        0 <= swap_output(amount_in, reserve_in, reserve_out) <= reserve_out,
        (reserve_in >= 1 && reserve_out >= 1) ==> swap_output(amount_in, reserve_in, reserve_out)
            < reserve_out,
{
    let n = swap_numerator(amount_in, reserve_out);
    let d = swap_denominator(amount_in, reserve_in);
    let q = n / d;
    assert(0 <= n && n <= d * reserve_out) by (nonlinear_arith)
        requires
            0 <= amount_in,
            0 <= reserve_out,
            0 <= reserve_in,
            n == amount_in * 997 * reserve_out,
            d == reserve_in * 1000 + amount_in * 997,
    ;
    lemma_div_pos_is_pos(n, d);
    lemma_div_is_ordered(n, d * reserve_out, d);
    lemma_div_multiples_vanish(reserve_out, d);
    if reserve_in >= 1 && reserve_out >= 1 {
        lemma_fundamental_div_mod(n, d);
        lemma_mod_bound(n, d);
        assert(d * reserve_out - n >= 1000) by (nonlinear_arith)
            requires
                reserve_in >= 1,
                reserve_out >= 1,
                0 <= amount_in,
                n == amount_in * 997 * reserve_out,
                d == reserve_in * 1000 + amount_in * 997,
        ;
        assert(q < reserve_out) by (nonlinear_arith)
            requires
                d * q <= n,
                n < d * reserve_out,
                d > 0,
        ;
    }
}

/// Invariant monotonicity: moving `amount_in` into the input-side reserve
/// and the formula's output out of the output-side reserve never shrinks
/// the product of the two reserves, because the fee keeps a little of the
/// input out of the price.
pub proof fn lemma_swap_preserves_product(amount_in: int, reserve_in: int, reserve_out: int)
    requires
        1 <= reserve_in,
        0 <= reserve_out,
        0 <= amount_in,
    ensures
        (reserve_in + amount_in) * (reserve_out - swap_output(amount_in, reserve_in, reserve_out))
            >= reserve_in * reserve_out,
{
    let n = swap_numerator(amount_in, reserve_out);
    let d = swap_denominator(amount_in, reserve_in);
    let q = n / d;
    lemma_fundamental_div_mod(n, d);
    lemma_mod_bound(n, d);
    assert(n >= 0) by (nonlinear_arith)
        requires
            0 <= amount_in,
            0 <= reserve_out,
            n == amount_in * 997 * reserve_out,
    ;
    lemma_div_pos_is_pos(n, d);
    assert((reserve_in + amount_in) * q <= amount_in * reserve_out) by (nonlinear_arith)
        requires
            d * q <= n,
            n == amount_in * 997 * reserve_out,
            d == reserve_in * 1000 + amount_in * 997,
            0 <= reserve_in,
            0 <= amount_in,
            0 <= q,
    ;
    assert((reserve_in + amount_in) * (reserve_out - q) >= reserve_in * reserve_out)
        by (nonlinear_arith)
        requires
            (reserve_in + amount_in) * q <= amount_in * reserve_out,
    ;
}

/// The fee strictly reduces the output: against the exact no-fee
/// proportional amount `amount_in * reserve_out / (reserve_in + amount_in)`
/// the comparison is stated multiplied out, so that it speaks of the exact
/// ratio and not of its floor.
pub proof fn lemma_fee_reduces_output(amount_in: int, reserve_in: int, reserve_out: int)
    requires
        1 <= reserve_in,
        1 <= reserve_out,
        1 <= amount_in,
    ensures
        swap_output(amount_in, reserve_in, reserve_out) * (reserve_in + amount_in) < amount_in
            * reserve_out,
        swap_output(amount_in, reserve_in, reserve_out) <= amount_in * reserve_out / (reserve_in
            + amount_in),
{
    let n = swap_numerator(amount_in, reserve_out);
    let d = swap_denominator(amount_in, reserve_in);
    let q = n / d;
    lemma_fundamental_div_mod(n, d);
    lemma_mod_bound(n, d);
    assert(n >= 0) by (nonlinear_arith)
        requires
            0 <= amount_in,
            0 <= reserve_out,
            n == amount_in * 997 * reserve_out,
    ;
    lemma_div_pos_is_pos(n, d);
    assert(q * (reserve_in + amount_in) < amount_in * reserve_out) by (nonlinear_arith)
        requires
            d * q <= n,
            n == amount_in * 997 * reserve_out,
            d == reserve_in * 1000 + amount_in * 997,
            1 <= reserve_in,
            1 <= amount_in,
            1 <= reserve_out,
            0 <= q,
    ;
    lemma_fundamental_div_mod(q * (reserve_in + amount_in), reserve_in + amount_in);
    assert(q == q * (reserve_in + amount_in) / (reserve_in + amount_in)) by {
        lemma_div_multiples_vanish(q, reserve_in + amount_in);
        assert((reserve_in + amount_in) * q == q * (reserve_in + amount_in));
    }
    lemma_div_is_ordered(q * (reserve_in + amount_in), amount_in * reserve_out, reserve_in
        + amount_in);
}

/// A proportional share never exceeds the whole: `x * t / s <= x` when
/// `t <= s`, with equality at `t == s` and a strict loss of at least the
/// rounding whenever `t < s` and `x >= 1`.
pub proof fn lemma_proportional_share(x: int, t: int, s: int)
    requires
        0 <= x,
        0 <= t <= s,
        1 <= s,
    ensures
        0 <= x * t / s <= x,
        t == s ==> x * t / s == x,
        (t < s && 1 <= x) ==> x * t / s < x,
{
    let w = x * t / s;
    assert(0 <= x * t && x * t <= x * s && x * s == s * x) by (nonlinear_arith)
        requires
            0 <= x,
            0 <= t <= s,
    ;
    lemma_div_pos_is_pos(x * t, s);
    lemma_div_is_ordered(x * t, s * x, s);
    lemma_div_multiples_vanish(x, s);
    if t == s {
    }
    if t < s && 1 <= x {
        lemma_fundamental_div_mod(x * t, s);
        lemma_mod_bound(x * t, s);
        assert(w < x) by (nonlinear_arith)
            requires
                s * w <= x * t,
                t < s,
                1 <= x,
                1 <= s,
                w <= x,
        ;
    }
}

/// Withdrawing with the shares minted for a deposit returns at most the
/// deposit: if `m` shares were granted against `s` existing ones with
/// `m * r <= a * s` (the deposit `a` covered the share of the reserve `r`),
/// then the proportional withdrawal of `m` out of `s + m` shares from the
/// grown reserve `r + a` stays within `a`.
pub proof fn lemma_deposit_withdraw_le(r: int, a: int, s: int, m: int)
    requires
        0 <= r,
        0 <= a,
        0 <= s,
        0 <= m,
        1 <= s + m,
        m * r <= a * s,
    ensures
        (r + a) * m / (s + m) <= a,
{
    assert((r + a) * m <= a * (s + m) && a * (s + m) == (s + m) * a) by (nonlinear_arith)
        requires
            0 <= r,
            0 <= a,
            0 <= s,
            0 <= m,
            m * r <= a * s,
    ;
    lemma_div_is_ordered((r + a) * m, (s + m) * a, s + m);
    lemma_div_multiples_vanish(a, s + m);
}

/// Output of the constant-product fee formula, as `swap_output` states it.
/// `DivisionByZero` comes exactly when input reserve and input amount are
/// both zero; `ArithmeticOverflow` exactly when the 128-bit numerator
/// `amount_in * 997 * output_reserve` cannot be formed.
pub fn calculate_output_amount(amount_in: u64, input_reserve: u64, output_reserve: u64) -> (result:
    Result<u64, AmmError>)
    ensures
        result == spec_calculate_output(amount_in, input_reserve, output_reserve),
{
    let fee_adjusted: u128 = (amount_in as u128) * 997;
    let denominator: u128 = (input_reserve as u128) * 1000 + fee_adjusted;
    if denominator == 0 {
        return Err(AmmError::DivisionByZero);
    }
    if output_reserve > 0 && fee_adjusted > u128::MAX / (output_reserve as u128) {
        proof {
            let f = fee_adjusted as int;
            let d = output_reserve as int;
            let m = u128::MAX as int;
            lemma_fundamental_div_mod(m, d);
            lemma_mod_bound(m, d);
            assert(f * d > m) by (nonlinear_arith)
                requires
                    m == d * (m / d) + m % d,
                    0 <= m % d < d,
                    f > m / d,
                    1 <= d,
            ;
        }
        return Err(AmmError::ArithmeticOverflow);
    }
    proof {
        let f = fee_adjusted as int;
        let d = output_reserve as int;
        let m = u128::MAX as int;
        if output_reserve > 0 {
            lemma_fundamental_div_mod(m, d);
            lemma_mod_bound(m, d);
            assert(f * d <= m) by (nonlinear_arith)
                requires
                    m == d * (m / d) + m % d,
                    0 <= m % d,
                    f <= m / d,
                    1 <= d,
                    0 <= f,
            ;
        } else {
            assert(f * d == 0) by (nonlinear_arith)
                requires
                    d == 0,
            ;
        }
        assert(f * d <= m);
    }
    let numerator: u128 = fee_adjusted * (output_reserve as u128);
    let output: u128 = numerator / denominator;
    proof {
        let n = numerator as int;
        let d = denominator as int;
        let rout = output_reserve as int;
        assert(n <= d * rout) by (nonlinear_arith)
            requires
                n == fee_adjusted as int * rout,
                fee_adjusted <= d,
                0 <= rout,
                0 <= fee_adjusted,
        ;
        lemma_div_is_ordered(n, d * rout, d);
        lemma_div_multiples_vanish(rout, d);
    }
    Ok(output as u64)
}

} // verus!
