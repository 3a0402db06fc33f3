//! Rounded integer division: the fixed-point stand-in for exact averages.
//!
//! `round_div(s, n)` is the integer nearest to `s / n`, with ties rounded
//! toward positive infinity. Centers computed this way stay on the
//! fixed-point grid and are the grid points that minimize the
//! intra-cluster squared distance, which the update-rule proofs rely on.

use vstd::prelude::*;
use vstd::arithmetic::div_mod::{
    lemma_fundamental_div_mod, lemma_fundamental_div_mod_converse, lemma_div_is_ordered,
};

verus! {

/// The integer nearest to `s / n`, ties toward positive infinity.
/// In specifications `/` is Euclidean division, so this is a floor.
pub open spec fn round_div(s: int, n: int) -> int
    recommends
        n >= 1,
{
    (2 * s + n) / (2 * n)
}

/// The rounded quotient is within half a divisor of the exact quotient:
/// `|n * round_div(s, n) - s|` is at most `n / 2`, stated multiplied out.
pub proof fn lemma_round_div_near(s: int, n: int)
    requires
        n >= 1,
    ensures
        -n < 2 * (n * round_div(s, n) - s) <= n,
{
    let q = round_div(s, n);
    lemma_fundamental_div_mod(2 * s + n, 2 * n);
    let r = (2 * s + n) % (2 * n);
    assert(2 * s + n == 2 * n * q + r);
    assert(0 <= r < 2 * n);
    assert(2 * (n * q - s) == n - r) by (nonlinear_arith)
        requires
            2 * s + n == 2 * n * q + r,
    ;
}

/// If `s` lies between `lo * n` and `hi * n`, the rounded quotient lies
/// between `lo` and `hi`.
pub proof fn lemma_round_div_bounds(s: int, n: int, lo: int, hi: int)
    requires
        n >= 1,
        lo * n <= s <= hi * n,
    ensures
        lo <= round_div(s, n) <= hi,
{
    let num = 2 * s + n;
    let den = 2 * n;
    let bot = lo * den;
    let top = hi * den + (den - 1);
    assert(bot <= num && num <= top) by (nonlinear_arith)
        requires
            n >= 1 && lo * n <= s <= hi * n && num == 2 * s + n && den == 2 * n && bot == lo
                * den && top == hi * den + (den - 1),
    ;
    lemma_fundamental_div_mod_converse(bot, den, lo, 0);
    lemma_fundamental_div_mod_converse(top, den, hi, den - 1);
    lemma_div_is_ordered(bot, num, den);
    lemma_div_is_ordered(num, top, den);
}

/// Rounded division on machine integers.
pub fn round_div_i128(s: i128, n: i128) -> (r: i128)
    requires
        1 <= n <= 0x1_0000_0000_0000_0000,
        -0x1000_0000_0000_0000_0000_0000 <= s <= 0x1000_0000_0000_0000_0000_0000,
    ensures
        r == round_div(s as int, n as int),
{
    let den: u128 = (2 * n) as u128;
    if 2 * s + n >= 0 {
        let num: u128 = (2 * s + n) as u128;
        let q: u128 = num / den;
        proof {
            lemma_fundamental_div_mod(num as int, den as int);
            assert(q <= num) by (nonlinear_arith)
                requires
                    (num as int) == (den as int) * (q as int) + (num as int) % (den as int)
                        && (num as int) % (den as int) >= 0 && den >= 1,
            ;
        }
        q as i128
    } else {
        let mag: u128 = (-(2 * s + n)) as u128;
        let q0: u128 = (mag + den - 1) / den;
        proof {
            let num = 2 * (s as int) + n;
            let q = num / (den as int);
            lemma_fundamental_div_mod(num, den as int);
            let rr = num % (den as int);
            assert(num == (den as int) * q + rr);
            assert(0 <= rr < den);
            assert(mag + den - 1 == (-q) * (den as int) + (den - 1 - rr)) by (nonlinear_arith)
                requires
                    num == (den as int) * q + rr && mag == -num,
            ;
            lemma_fundamental_div_mod_converse(
                mag as int + den - 1,
                den as int,
                -q,
                den as int - 1 - rr,
            );
            assert(q0 == -q);
            assert(-q <= mag) by (nonlinear_arith)
                requires
                    (-q) * (den as int) == (mag as int) + rr && 0 <= rr < den && den >= 2
                        && mag >= 1,
            ;
        }
        -(q0 as i128)
    }
}

/// The integer part of `total * r / 2^64`: scales a weight total by the
/// uniform fraction `r / 2^64`. The result is strictly below a positive
/// total, so a cumulative-weight selection always lands on some weight.
pub fn mul_frac(total: u128, r: u64) -> (t: u128)
    requires
        total <= 0x400_0000_0000_0000_0000_0000_0000_0000,
    ensures
        t == (total * r) / 0x1_0000_0000_0000_0000,
        total >= 1 ==> t < total,
{
    let den: u128 = 0x1_0000_0000_0000_0000;
    let th: u128 = total / den;
    let tl: u128 = total % den;
    proof {
        assert((th as int) * (r as int) < 0x4000_0000_0000_0000 * 0x1_0000_0000_0000_0000)
            by (nonlinear_arith)
            requires
                th < 0x4000_0000_0000_0000 && r < 0x1_0000_0000_0000_0000,
        ;
        assert((tl as int) * (r as int) < 0x1_0000_0000_0000_0000 * 0x1_0000_0000_0000_0000)
            by (nonlinear_arith)
            requires
                tl < 0x1_0000_0000_0000_0000 && r < 0x1_0000_0000_0000_0000,
        ;
    }
    let hi: u128 = th * (r as u128);
    let lo: u128 = (tl * (r as u128)) / den;
    proof {
        let t = total as int;
        let d = den as int;
        let ri = r as int;
        lemma_fundamental_div_mod(t, d);
        lemma_fundamental_div_mod(tl as int * ri, d);
        assert(t * ri == (hi as int + lo as int) * d + (tl as int * ri) % d) by (nonlinear_arith)
            requires
                t == d * (th as int) + (tl as int),
                tl as int * ri == d * (lo as int) + (tl as int * ri) % d,
                hi as int == (th as int) * ri,
        ;
        lemma_fundamental_div_mod_converse(
            t * ri,
            d,
            hi as int + lo as int,
            (tl as int * ri) % d,
        );
        if total >= 1 {
            assert(t * ri <= t * d - 1) by (nonlinear_arith)
                requires
                    1 <= t && ri < d,
            ;
            lemma_fundamental_div_mod_converse(t * d - 1, d, t - 1, d - 1);
            lemma_div_is_ordered(t * ri, t * d - 1, d);
        }
    }
    hi + lo
}

} // verus!
