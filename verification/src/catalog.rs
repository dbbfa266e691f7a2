//! The catalog of named scalar constants: the three pi-derived constants,
//! ln 2, the small integers, and the two rational seed constants used by
//! the downstream reciprocal refinement.

use vstd::prelude::*;
use vstd::arithmetic::power2::pow2;
use crate::fixed::{Fixed, FixConfig, shl1_val, asr1_val, neg_val};
use crate::limbs::{limbs_uint, lemma_limbs_uint_injective};

verus! {

/// The ten catalog constants, in their fixed emission order.
pub struct Catalog {
    pub two_pi: Fixed,
    pub pi: Fixed,
    pub pi_2: Fixed,
    pub ln_2: Fixed,
    pub zero: Fixed,
    pub one: Fixed,
    pub neg_one: Fixed,
    pub two: Fixed,
    pub frac_48_17: Fixed,
    pub neg_frac_32_17: Fixed,
}

/// What each catalog entry's mantissa is, given the configuration and the
/// limb arrays of the externally generated pi and ln 2 values.
pub open spec fn catalog_wf(cat: Catalog, cfg: FixConfig, pi: Seq<u32>, ln_2: Seq<u32>) -> bool {
    let f = pow2(cfg.scaling_factor as nat);
    &&& cat.two_pi.wf(cfg)
    &&& cat.pi.wf(cfg)
    &&& cat.pi_2.wf(cfg)
    &&& cat.ln_2.wf(cfg)
    &&& cat.zero.wf(cfg)
    &&& cat.one.wf(cfg)
    &&& cat.neg_one.wf(cfg)
    &&& cat.two.wf(cfg)
    &&& cat.frac_48_17.wf(cfg)
    &&& cat.neg_frac_32_17.wf(cfg)
    &&& cat.two_pi.uint_val() == shl1_val(limbs_uint(pi), cfg.bits())
    &&& cat.pi.limbs@ == pi
    &&& cat.pi_2.uint_val() == asr1_val(limbs_uint(pi), cfg.bits())
    &&& cat.ln_2.limbs@ == ln_2
    &&& cat.zero.uint_val() == 0
    &&& cat.one.uint_val() == f
    &&& cat.neg_one.uint_val() == neg_val(f, cfg.bits())
    &&& cat.two.uint_val() == 2 * f
    &&& cat.frac_48_17.uint_val() == (48 * f) / 17
    &&& cat.neg_frac_32_17.uint_val() == neg_val((32 * f) / 17, cfg.bits())
}

impl Catalog {
    /// Derives the catalog from the two externally generated seeds: 2 pi by
    /// a doubling shift of pi, pi/2 by a halving shift, the integers by
    /// scaled construction, minus one by negation of one, and the rational
    /// seeds 48/17 and -32/17 by fixed-point division.
    pub fn build(cfg: &FixConfig, pi: Fixed, ln_2: Fixed) -> (cat: Catalog)
        requires
            cfg.wf(),
            pi.wf(*cfg),
            ln_2.wf(*cfg),
        ensures
            catalog_wf(cat, *cfg, pi.limbs@, ln_2.limbs@),
    {
        let two_pi = pi.lshift1(cfg);
        let pi_2 = pi.rshift1(cfg);
        let zero = Fixed::from_uint(cfg, 0);
        let one = Fixed::from_uint(cfg, 1);
        let neg_one = one.neg(cfg);
        let two = Fixed::from_uint(cfg, 2);
        let frac_48_17 = Fixed::ratio(cfg, 48, 17);
        let neg_frac_32_17 = Fixed::ratio(cfg, 32, 17).neg(cfg);
        proof {
            assert(0 * pow2(cfg.scaling_factor as nat) == 0) by (nonlinear_arith);
            assert(1 * pow2(cfg.scaling_factor as nat) == pow2(cfg.scaling_factor as nat))
                by (nonlinear_arith);
        }
        Catalog { two_pi, pi, pi_2, ln_2, zero, one, neg_one, two, frac_48_17, neg_frac_32_17 }
    }
}

/// Shift round-trip law: the catalog's 2 pi constant is, limb for limb, the
/// doubling shift of its pi constant, and its pi/2 constant is the halving
/// shift of its pi constant — any value the shift operations could return
/// for pi has exactly those limbs.
pub proof fn lemma_pi_shift_consistency(cat: Catalog, cfg: FixConfig, pi: Seq<u32>, ln_2: Seq<u32>)
    requires
        catalog_wf(cat, cfg, pi, ln_2),
    ensures
        cat.two_pi.uint_val() == shl1_val(cat.pi.uint_val(), cfg.bits()),
        cat.pi_2.uint_val() == asr1_val(cat.pi.uint_val(), cfg.bits()),
        forall|d: Fixed|
            d.wf(cfg) && d.uint_val() == shl1_val(cat.pi.uint_val(), cfg.bits()) ==> d.limbs@
                =~= cat.two_pi.limbs@,
        forall|h: Fixed|
            h.wf(cfg) && h.uint_val() == asr1_val(cat.pi.uint_val(), cfg.bits()) ==> h.limbs@
                =~= cat.pi_2.limbs@,
{
    assert forall|d: Fixed|
        d.wf(cfg) && d.uint_val() == shl1_val(cat.pi.uint_val(), cfg.bits()) implies d.limbs@
        =~= cat.two_pi.limbs@ by {
        lemma_limbs_uint_injective(d.limbs@, cat.two_pi.limbs@);
    }
    assert forall|h: Fixed|
        h.wf(cfg) && h.uint_val() == asr1_val(cat.pi.uint_val(), cfg.bits()) implies h.limbs@
        =~= cat.pi_2.limbs@ by {
        lemma_limbs_uint_injective(h.limbs@, cat.pi_2.limbs@);
    }
}

/// Negation law: the catalog's minus-one constant is exactly the negation
/// of its one constant, and zero is its own negation.
pub proof fn lemma_negation_consistency(cat: Catalog, cfg: FixConfig, pi: Seq<u32>, ln_2: Seq<u32>)
    requires
        catalog_wf(cat, cfg, pi, ln_2),
    ensures
        cat.neg_one.uint_val() == neg_val(cat.one.uint_val(), cfg.bits()),
        neg_val(cat.zero.uint_val(), cfg.bits()) == cat.zero.uint_val(),
        forall|m: Fixed|
            m.wf(cfg) && m.uint_val() == neg_val(cat.one.uint_val(), cfg.bits()) ==> m.limbs@
                =~= cat.neg_one.limbs@,
        forall|z: Fixed|
            z.wf(cfg) && z.uint_val() == neg_val(cat.zero.uint_val(), cfg.bits()) ==> z.limbs@
                =~= cat.zero.limbs@,
{
    assert forall|m: Fixed|
        m.wf(cfg) && m.uint_val() == neg_val(cat.one.uint_val(), cfg.bits()) implies m.limbs@
        =~= cat.neg_one.limbs@ by {
        lemma_limbs_uint_injective(m.limbs@, cat.neg_one.limbs@);
    }
    assert forall|z: Fixed|
        z.wf(cfg) && z.uint_val() == neg_val(cat.zero.uint_val(), cfg.bits()) implies z.limbs@
        =~= cat.zero.limbs@ by {
        lemma_limbs_uint_injective(z.limbs@, cat.zero.limbs@);
    }
}

} // verus!
