//! Derivation of the series-coefficient tables: the alternating-sign
//! reciprocal-factorial coefficients of the sine approximation and the
//! odd-reciprocal coefficients of the natural-logarithm approximation.

use vstd::prelude::*;
use vstd::arithmetic::power2::pow2;
use crate::fixed::{Fixed, FixConfig, neg_val};

verus! {

/// Number of retained sine-series terms.
pub const TRIG_PRECISION: usize = 6;

/// Number of retained logarithm-series terms.
pub const LOG_PRECISION: usize = 6;

/// The exact factorial over unbounded integers.
pub open spec fn fact(n: nat) -> nat
    decreases n,
{
    if n == 0 {
        1
    } else {
        n * fact((n - 1) as nat)
    }
}

/// A factorial is at least one.
pub proof fn lemma_fact_pos(n: nat)
    ensures
        fact(n) >= 1,
    decreases n,
{
    if n > 0 {
        lemma_fact_pos((n - 1) as nat);
        assert(n * fact((n - 1) as nat) >= 1) by (nonlinear_arith)
            requires
                n >= 1,
                fact((n - 1) as nat) >= 1,
        ;
    }
}

/// The factorial does not decrease with its argument.
pub proof fn lemma_fact_monotone(m: nat, n: nat)
    requires
        m <= n,
    ensures
        fact(m) <= fact(n),
    decreases n,
{
    if m < n {
        lemma_fact_monotone(m, (n - 1) as nat);
        lemma_fact_pos((n - 1) as nat);
        assert(fact((n - 1) as nat) <= n * fact((n - 1) as nat)) by (nonlinear_arith)
            requires
                n >= 1,
                fact((n - 1) as nat) >= 0,
        ;
    }
}

/// The factorials up to `12!`, the largest one the sine table divides by.
proof fn lemma_fact_to_12()
    ensures
        fact(12) == 479001600,
{
    assert(fact(0) == 1);
    assert(fact(1) == 1);
    assert(fact(2) == 2);
    assert(fact(3) == 6);
    assert(fact(4) == 24);
    assert(fact(5) == 120);
    assert(fact(6) == 720);
    assert(fact(7) == 5040);
    assert(fact(8) == 40320);
    assert(fact(9) == 362880);
    assert(fact(10) == 3628800);
    assert(fact(11) == 39916800);
    assert(fact(12) == 479001600);
}

/// The exact factorial of `num`, the product of `1..=num`.
pub fn factorial(num: u128) -> (r: u128)
    requires
        fact(num as nat) <= u128::MAX,
    ensures
        r == fact(num as nat),
{
    let mut r: u128 = 1;
    let mut i: u128 = 0;
    while i < num
        invariant
            i <= num,
            r == fact(i as nat),
            fact(num as nat) <= u128::MAX,
        decreases num - i,
    {
        proof {
            lemma_fact_monotone((i + 1) as nat, num as nat);
            assert(fact((i + 1) as nat) == ((i + 1) as nat) * fact(i as nat));
            assert(((i + 1) as nat) * fact(i as nat) == fact(i as nat) * ((i + 1) as nat))
                by (nonlinear_arith);
        }
        r = r * (i + 1);
        i += 1;
    }
    r
}

/// The mantissa of the sine coefficient at table index `i`: with
/// `adj = TRIG_PRECISION - i`, the magnitude is the truncated fixed-point
/// representation of `1 / (2 * adj)!`, and the sign alternates with the
/// parity of `adj` (positive for even `adj`).
pub open spec fn sin_coeff_val(cfg: FixConfig, i: int) -> nat {
    let adj = (TRIG_PRECISION - i) as nat;
    let mag = pow2(cfg.scaling_factor as nat) / fact(2 * adj);
    if adj % 2 == 0 {
        mag
    } else {
        neg_val(mag, cfg.bits())
    }
}

/// The mantissa of the logarithm coefficient at table index `i`: with
/// `adj = LOG_PRECISION - i - 1`, the truncated fixed-point representation
/// of `2 / (2 * adj + 1)`.
pub open spec fn log_coeff_val(cfg: FixConfig, i: int) -> nat {
    let adj = (LOG_PRECISION - i - 1) as nat;
    (2 * pow2(cfg.scaling_factor as nat)) / (2 * adj + 1)
}

/// The sine-series table, highest-order term first: index `i` carries the
/// coefficient `sign(adj) / (2 * adj)!` for `adj = TRIG_PRECISION - i`,
/// where the sign alternates strictly with the parity of `adj`.
pub fn sin_table(cfg: &FixConfig) -> (r: Vec<Fixed>)
    requires
        cfg.wf(),
    ensures
        r@.len() == TRIG_PRECISION,
        forall|i: int|
            0 <= i < TRIG_PRECISION ==> (#[trigger] r@[i]).wf(*cfg) && r@[i].uint_val() == sin_coeff_val(
                *cfg,
                i,
            ),
{
    let mut out: Vec<Fixed> = Vec::new();
    let mut i: usize = 0;
    while i < TRIG_PRECISION
        invariant
            0 <= i <= TRIG_PRECISION,
            cfg.wf(),
            out@.len() == i,
            forall|j: int|
                0 <= j < i ==> (#[trigger] out@[j]).wf(*cfg) && out@[j].uint_val() == sin_coeff_val(*cfg, j),
        decreases TRIG_PRECISION - i,
    {
        let adj = TRIG_PRECISION - i;
        proof {
            lemma_fact_to_12();
            lemma_fact_monotone(2 * adj as nat, 12);
            lemma_fact_pos(2 * adj as nat);
        }
        let f = factorial((2 * adj) as u128);
        let mag = Fixed::ratio(cfg, 1, f as u32);
        let c = if adj % 2 == 1 {
            mag.neg(cfg)
        } else {
            mag
        };
        out.push(c);
        i += 1;
    }
    out
}

/// The logarithm-series table: index `i` carries the coefficient
/// `2 / (2 * adj + 1)` for `adj = LOG_PRECISION - i - 1`, descending from
/// `LOG_PRECISION - 1` to `0`, so the last entry is exactly two.
pub fn log_table(cfg: &FixConfig) -> (r: Vec<Fixed>)
    requires
        cfg.wf(),
    ensures
        r@.len() == LOG_PRECISION,
        forall|i: int|
            0 <= i < LOG_PRECISION ==> (#[trigger] r@[i]).wf(*cfg) && r@[i].uint_val() == log_coeff_val(
                *cfg,
                i,
            ),
{
    let mut out: Vec<Fixed> = Vec::new();
    let mut i: usize = 0;
    while i < LOG_PRECISION
        invariant
            0 <= i <= LOG_PRECISION,
            cfg.wf(),
            out@.len() == i,
            forall|j: int|
                0 <= j < i ==> (#[trigger] out@[j]).wf(*cfg) && out@[j].uint_val() == log_coeff_val(*cfg, j),
        decreases LOG_PRECISION - i,
    {
        let adj = LOG_PRECISION - i - 1;
        let c = Fixed::ratio(cfg, 2, (2 * adj + 1) as u32);
        out.push(c);
        i += 1;
    }
    out
}

} // verus!
