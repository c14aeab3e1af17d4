//! Fixed-point ratios with eighteen decimals, and the exact floor of
//! `amount / total` in that form.
use vstd::arithmetic::div_mod::{lemma_fundamental_div_mod, lemma_fundamental_div_mod_converse};
use vstd::prelude::*;

verus! {

/// One, as a fixed-point ratio.
pub const RATIO_ACCURACY: u128 = 1_000_000_000_000_000_000;

/// A non-negative ratio: `inner / RATIO_ACCURACY`.
#[derive(Clone, Copy, Debug, PartialEq, Eq, Structural)]
pub struct Ratio {
    pub inner: u128,
}

/// `amount / total` with eighteen decimals, rounded down; zero where
/// `total` is zero or the ratio does not fit.
pub open spec fn proportion(amount: int, total: int) -> int {
    if total == 0 {
        0
    } else if amount * RATIO_ACCURACY / total > u128::MAX {
        0
    } else {
        amount * RATIO_ACCURACY / total
    }
}

pub open spec fn pow10(n: nat) -> nat
    decreases n,
{
    if n == 0 { 1 } else { 10 * pow10((n - 1) as nat) }
}

proof fn lemma_pow10_positive(n: nat)
    ensures
        pow10(n) >= 1,
    decreases n,
{
    if n > 0 {
        lemma_pow10_positive((n - 1) as nat);
    }
}

/// Twice `q * d + rem`, as a multiple of `d` and a remainder.
fn double_mod(q: u128, rem: u128, d: u128) -> (res: (u128, u128))
    requires
        rem < d,
        q < RATIO_ACCURACY,
    ensures
        res.1 < d,
        res.0 * d + res.1 == 2 * (q * d + rem),
        res.0 <= 2 * q + 1,
{
    if rem >= d - rem {
        proof {
            assert((2 * q + 1) * d == 2 * (q * d) + d) by (nonlinear_arith);
        }
        (2 * q + 1, rem - (d - rem))
    } else {
        proof {
            assert((2 * q) * d == 2 * (q * d)) by (nonlinear_arith);
        }
        (2 * q, rem + rem)
    }
}

/// The sum of two multiples of `d` with remainders.
fn add_mod(q1: u128, r1: u128, q2: u128, r2: u128, d: u128) -> (res: (u128, u128))
    requires
        r1 < d,
        r2 < d,
        q1 < 10 * RATIO_ACCURACY,
        q2 < 10 * RATIO_ACCURACY,
    ensures
        res.1 < d,
        res.0 * d + res.1 == (q1 * d + r1) + (q2 * d + r2),
        res.0 <= q1 + q2 + 1,
{
    if r1 >= d - r2 {
        proof {
            assert((q1 + q2 + 1) * d == q1 * d + q2 * d + d) by (nonlinear_arith);
        }
        (q1 + q2 + 1, r1 - (d - r2))
    } else {
        proof {
            assert((q1 + q2) * d == q1 * d + q2 * d) by (nonlinear_arith);
        }
        (q1 + q2, r1 + r2)
    }
}

/// `r * RATIO_ACCURACY / d`, rounded down, for `r < d`.
fn scaled_fraction(r: u128, d: u128) -> (q: u128)
    requires
        r < d,
    ensures
        q as int == (r as int * RATIO_ACCURACY) / (d as int),
{
    let mut q: u128 = 0;
    let mut rem: u128 = r;
    let mut scale: u128 = 1;
    let mut digits: u32 = 0;
    proof {
        reveal_with_fuel(pow10, 19);
        assert(pow10(18) == RATIO_ACCURACY);
    }
    while digits < 18
        invariant
            r < d,
            digits <= 18,
            1 <= scale,
            scale * pow10((18 - digits) as nat) == RATIO_ACCURACY,
            rem < d,
            q < scale,
            q * d + rem == r * scale,
        decreases 18 - digits,
    {
        proof {
            let n = (17 - digits) as nat;
            lemma_pow10_positive(n);
            assert(pow10((18 - digits) as nat) == 10 * pow10(n));
            assert(scale * 10 <= RATIO_ACCURACY) by (nonlinear_arith)
                requires scale * (10 * pow10(n)) == RATIO_ACCURACY, pow10(n) >= 1, scale >= 1;
            assert((scale * 10) * pow10(n) == RATIO_ACCURACY) by (nonlinear_arith)
                requires scale * (10 * pow10(n)) == RATIO_ACCURACY;
        }
        let (q2, r2) = double_mod(q, rem, d);
        let (q4, r4) = double_mod(q2, r2, d);
        let (q8, r8) = double_mod(q4, r4, d);
        let (q10, r10) = add_mod(q8, r8, q2, r2, d);
        q = q10;
        rem = r10;
        scale = scale * 10;
        digits = digits + 1;
        proof {
            assert(q * d + rem == 10 * (r * (scale / 10)));
            assert(r * scale == 10 * (r * (scale / 10))) by (nonlinear_arith)
                requires scale % 10 == 0;
            assert(q < scale) by (nonlinear_arith)
                requires q * d + rem == r * scale, r < d, 0 <= rem, d > 0, scale > 0;
        }
    }
    proof {
        assert(digits == 18);
        assert(pow10(0) == 1);
        assert((18 - digits) as nat == 0);
        assert(scale * pow10((18 - digits) as nat) == scale * 1);
        assert(scale == RATIO_ACCURACY);
        lemma_fundamental_div_mod_converse(r as int * RATIO_ACCURACY, d as int, q as int, rem as int);
    }
    q
}

/// `amount / total` as a ratio, rounded down; zero where `total` is zero or
/// the ratio does not fit.
pub fn proportion_of(amount: u128, total: u128) -> (r: Ratio)
    ensures
        r.inner == proportion(amount as int, total as int),
{
    if total == 0 {
        return Ratio { inner: 0 };
    }
    let whole = amount / total;
    let part = amount % total;
    let ghost frac_spec = (part as int * RATIO_ACCURACY) / (total as int);
    let ghost exact = amount as int * RATIO_ACCURACY / total as int;
    proof {
        lemma_fundamental_div_mod(amount as int, total as int);
        lemma_fundamental_div_mod(part as int * RATIO_ACCURACY, total as int);
        let m = (part as int * RATIO_ACCURACY) % (total as int);
        assert(amount as int * RATIO_ACCURACY == (whole as int * RATIO_ACCURACY + frac_spec) * total + m) by (nonlinear_arith)
            requires
                amount as int == total * (amount as int / total as int) + amount as int % total as int,
                whole as int == amount as int / total as int,
                part as int == amount as int % total as int,
                part as int * RATIO_ACCURACY == total * frac_spec + m;
        lemma_fundamental_div_mod_converse(
            amount as int * RATIO_ACCURACY,
            total as int,
            whole as int * RATIO_ACCURACY + frac_spec,
            m,
        );
        assert(frac_spec >= 0) by (nonlinear_arith)
            requires part as int * RATIO_ACCURACY == total * frac_spec + m, 0 <= m < total, part >= 0, total > 0;
    }
    if whole > u128::MAX / RATIO_ACCURACY {
        proof {
            assert(whole as int * RATIO_ACCURACY > u128::MAX) by (nonlinear_arith)
                requires whole as int > u128::MAX as int / RATIO_ACCURACY as int;
        }
        return Ratio { inner: 0 };
    }
    proof {
        assert(whole as int * RATIO_ACCURACY <= u128::MAX) by (nonlinear_arith)
            requires whole as int <= u128::MAX as int / RATIO_ACCURACY as int;
    }
    let base = whole * RATIO_ACCURACY;
    let frac = scaled_fraction(part, total);
    if base > u128::MAX - frac {
        return Ratio { inner: 0 };
    }
    Ratio { inner: base + frac }
}

} // verus!
