//! The fixed-point value type: a fixed-length limb array with an implicit
//! binary scaling factor, and the arithmetic the generator needs on it
//! (construction from an integer, negation, shift by one bit, division by
//! a machine-word divisor).

use vstd::prelude::*;
use vstd::arithmetic::power2::{pow2, lemma_pow2_adds, lemma2_to64};
use vstd::arithmetic::div_mod::{
    lemma_fundamental_div_mod,
    lemma_fundamental_div_mod_converse,
    lemma_small_mod,
};
use crate::limbs::{
    limbs_uint,
    lemma_limbs_uint_bound,
    lemma_limbs_prefix,
    lemma_limbs_first,
    lemma_limbs_split,
};

verus! {

/// Build-time configuration shared by every fixed-point value of one build:
/// the limb count of a value and the number of fractional bits.
pub struct FixConfig {
    pub size: usize,
    pub scaling_factor: usize,
}

impl FixConfig {
    /// Total bit width of a value.
    pub open spec fn bits(self) -> nat {
        (32 * self.size) as nat
    }

    /// At least one limb, and at least one whole non-fractional word, so
    /// that the small integer constants of the catalog are representable.
    pub open spec fn wf(self) -> bool {
        1 <= self.size && self.scaling_factor + 32 <= 32 * self.size
    }
}

/// One fixed-point value: its mantissa limbs, most-significant word first.
/// The denoted rational is the two's-complement reading of the mantissa,
/// divided by `pow2(scaling_factor)`.
#[derive(Clone)]
pub struct Fixed {
    pub limbs: Vec<u32>,
}

/// The mantissa of a left shift by one bit: doubling modulo the bit width.
pub open spec fn shl1_val(v: nat, bits: nat) -> nat {
    (2 * v) % pow2(bits)
}

/// The mantissa of an arithmetic right shift by one bit: halving, with the
/// sign bit repeated into the top position.
pub open spec fn asr1_val(v: nat, bits: nat) -> nat {
    if v >= pow2((bits - 1) as nat) {
        (v / 2 + pow2((bits - 1) as nat)) as nat
    } else {
        v / 2
    }
}

/// The mantissa of a two's-complement negation.
pub open spec fn neg_val(v: nat, bits: nat) -> nat {
    if v == 0 {
        0
    } else {
        (pow2(bits) - v) as nat
    }
}

impl Fixed {
    /// A value belongs to a configuration when it has exactly its limb count.
    pub open spec fn wf(self, cfg: FixConfig) -> bool {
        self.limbs@.len() == cfg.size
    }

    /// The unsigned reading of the mantissa.
    pub open spec fn uint_val(self) -> nat {
        limbs_uint(self.limbs@)
    }

    /// Wraps a limb array produced elsewhere, most-significant word first.
    pub fn from_limbs(limbs: Vec<u32>) -> (r: Fixed)
        ensures
            r.limbs@ == limbs@,
    {
        Fixed { limbs }
    }

    /// The fixed-point value of the small unsigned integer `n`: the mantissa
    /// `n * pow2(scaling_factor)`, which the well-formed configuration always
    /// has room for.
    pub fn from_uint(cfg: &FixConfig, n: u32) -> (r: Fixed)
        requires
            cfg.wf(),
        ensures
            r.wf(*cfg),
            r.uint_val() == n * pow2(cfg.scaling_factor as nat),
    {
        let mut limbs: Vec<u32> = Vec::new();
        let mut j: usize = 1;
        while j < cfg.size
            invariant
                1 <= j <= cfg.size,
                limbs@.len() == j - 1,
                limbs_uint(limbs@) == 0,
            decreases cfg.size - j,
        {
            let ghost prev = limbs@;
            limbs.push(0);
            proof {
                assert(limbs@.drop_last() =~= prev);
            }
            j += 1;
        }
        let ghost prev = limbs@;
        limbs.push(n);
        proof {
            assert(limbs@.drop_last() =~= prev);
        }
        let mut r = Fixed { limbs };
        let mut k: usize = 0;
        proof {
            lemma2_to64();
            assert(r.uint_val() == n * pow2(0));
        }
        while k < cfg.scaling_factor
            invariant
                0 <= k <= cfg.scaling_factor,
                cfg.wf(),
                r.wf(*cfg),
                r.uint_val() == n * pow2(k as nat),
            decreases cfg.scaling_factor - k,
        {
            let ghost v = r.uint_val();
            proof {
                let kk = k as nat;
                let sf = cfg.scaling_factor as nat;
                lemma_pow2_adds(kk, 1);
                lemma_pow2_adds(sf, 32);
                lemma2_to64();
                if kk + 1 < sf {
                    vstd::arithmetic::power2::lemma_pow2_strictly_increases(kk + 1, sf);
                }
                vstd::arithmetic::power2::lemma_pow2_pos(sf);
                assert(2 * v == n * pow2(kk + 1)) by (nonlinear_arith)
                    requires
                        v == n * pow2(kk),
                        pow2(kk + 1) == pow2(kk) * 2,
                ;
                assert(n * pow2(kk + 1) < pow2(32) * pow2(sf)) by (nonlinear_arith)
                    requires
                        n < 0x100000000,
                        pow2(kk + 1) <= pow2(sf),
                        pow2(32) == 0x100000000,
                        pow2(sf) >= 1,
                ;
                if sf + 32 < cfg.bits() {
                    vstd::arithmetic::power2::lemma_pow2_strictly_increases(sf + 32, cfg.bits());
                }
                assert(2 * v < pow2(cfg.bits()));
                lemma_small_mod(2 * v, pow2(cfg.bits()));
            }
            r = r.lshift1(cfg);
            k += 1;
        }
        r
    }

    /// Left shift by one bit: the mantissa doubles, modulo the bit width.
    pub fn lshift1(&self, cfg: &FixConfig) -> (r: Fixed)
        requires
            cfg.wf(),
            self.wf(*cfg),
        ensures
            r.wf(*cfg),
            r.uint_val() == shl1_val(self.uint_val(), cfg.bits()),
    {
        let n = self.limbs.len();
        let mut out: Vec<u32> = self.limbs.clone();
        let mut carry: u32 = 0;
        let mut i = n;
        while i > 0
            invariant
                0 <= i <= n,
                n == self.limbs@.len(),
                out@.len() == n,
                carry <= 1,
                out@.subrange(0, i as int) == self.limbs@.subrange(0, i as int),
                2 * limbs_uint(self.limbs@.subrange(i as int, n as int)) == carry * pow2(
                    32 * (n - i) as nat,
                ) + limbs_uint(out@.subrange(i as int, n as int)),
            decreases i,
        {
            i -= 1;
            let ghost old_out = out@;
            let ghost old_carry = carry as nat;
            let x = self.limbs[i];
            let t: u64 = (x as u64) * 2 + (carry as u64);
            out.set(i, (t % 0x100000000) as u32);
            carry = (t / 0x100000000) as u32;
            proof {
                lemma2_to64();
                let ii = i as int;
                let nn = n as int;
                let k = 32 * (n - i - 1) as nat;
                let osuf = out@.subrange(ii, nn);
                let ssuf = self.limbs@.subrange(ii, nn);
                assert(out@.subrange(0, ii) =~= self.limbs@.subrange(0, ii));
                assert(osuf.subrange(1, osuf.len() as int) =~= old_out.subrange(ii + 1, nn));
                assert(ssuf.subrange(1, ssuf.len() as int) =~= self.limbs@.subrange(ii + 1, nn));
                lemma_limbs_first(osuf);
                lemma_limbs_first(ssuf);
                lemma_fundamental_div_mod(t as int, 0x100000000);
                assert((t as nat) == (carry as nat) * 0x100000000 + (t as nat) % 0x100000000);
                lemma_pow2_adds(32, k);
                assert(pow2(32 * (n - i) as nat) == 0x100000000 * pow2(k));
                let co = carry as nat;
                let lo = (t as nat) % 0x100000000;
                assert(osuf[0] == lo);
                assert(2 * limbs_uint(ssuf) == co * (0x100000000 * pow2(k)) + limbs_uint(osuf))
                    by (nonlinear_arith)
                    requires
                        limbs_uint(ssuf) == (x as nat) * pow2(k) + limbs_uint(
                            self.limbs@.subrange(ii + 1, nn),
                        ),
                        limbs_uint(osuf) == lo * pow2(k) + limbs_uint(old_out.subrange(ii + 1, nn)),
                        2 * limbs_uint(self.limbs@.subrange(ii + 1, nn)) == old_carry * pow2(k)
                            + limbs_uint(old_out.subrange(ii + 1, nn)),
                        2 * (x as nat) + old_carry == co * 0x100000000 + lo,
                ;
            }
        }
        proof {
            let nn = n as int;
            assert(self.limbs@.subrange(0, nn) =~= self.limbs@);
            assert(out@.subrange(0, nn) =~= out@);
            lemma_limbs_uint_bound(out@);
            lemma_fundamental_div_mod_converse(
                2 * limbs_uint(self.limbs@) as int,
                pow2(cfg.bits()) as int,
                carry as int,
                limbs_uint(out@) as int,
            );
        }
        Fixed { limbs: out }
    }

    /// Arithmetic right shift by one bit: the mantissa halves, and the sign
    /// bit is repeated into the vacated top position.
    pub fn rshift1(&self, cfg: &FixConfig) -> (r: Fixed)
        requires
            cfg.wf(),
            self.wf(*cfg),
        ensures
            r.wf(*cfg),
            r.uint_val() == asr1_val(self.uint_val(), cfg.bits()),
    {
        let n = self.limbs.len();
        let top = self.limbs[0];
        let t_bit: u32 = top / 0x80000000;
        let ghost tb = t_bit as nat;
        let mut out: Vec<u32> = self.limbs.clone();
        let mut carry: u32 = t_bit;
        let mut i: usize = 0;
        proof {
            lemma2_to64();
            assert(self.limbs@.subrange(0, 0) =~= Seq::<u32>::empty());
            assert(out@.subrange(0, 0) =~= Seq::<u32>::empty());
            assert(limbs_uint(Seq::<u32>::empty()) == 0);
            assert(tb * pow2(0) == tb) by (nonlinear_arith)
                requires
                    pow2(0) == 1,
            ;
        }
        while i < n
            invariant
                0 <= i <= n,
                n == self.limbs@.len(),
                out@.len() == n,
                carry <= 1,
                tb <= 1,
                forall|j: int| i <= j < n ==> out@[j] == self.limbs@[j],
                2 * limbs_uint(out@.subrange(0, i as int)) + carry == limbs_uint(
                    self.limbs@.subrange(0, i as int),
                ) + tb * pow2(32 * i as nat),
            decreases n - i,
        {
            let ghost old_out = out@;
            let ghost old_carry = carry as nat;
            let x = self.limbs[i];
            let t: u64 = (carry as u64) * 0x100000000 + (x as u64);
            out.set(i, (t / 2) as u32);
            carry = (t % 2) as u32;
            proof {
                lemma2_to64();
                let ii = i as int;
                assert(out@.subrange(0, ii) =~= old_out.subrange(0, ii));
                lemma_limbs_prefix(out@, ii);
                lemma_limbs_prefix(self.limbs@, ii);
                lemma_fundamental_div_mod(t as int, 2);
                lemma_pow2_adds(32 * i as nat, 32);
                let hi = (t / 2) as nat;
                let lo = (t % 2) as nat;
                assert(2 * limbs_uint(out@.subrange(0, ii + 1)) + lo == limbs_uint(
                    self.limbs@.subrange(0, ii + 1),
                ) + tb * pow2(32 * (i + 1) as nat)) by (nonlinear_arith)
                    requires
                        limbs_uint(out@.subrange(0, ii + 1)) == limbs_uint(
                            old_out.subrange(0, ii),
                        ) * 0x100000000 + hi,
                        limbs_uint(self.limbs@.subrange(0, ii + 1)) == limbs_uint(
                            self.limbs@.subrange(0, ii),
                        ) * 0x100000000 + (x as nat),
                        2 * limbs_uint(old_out.subrange(0, ii)) + old_carry == limbs_uint(
                            self.limbs@.subrange(0, ii),
                        ) + tb * pow2(32 * i as nat),
                        (t as nat) == 2 * hi + lo,
                        (t as nat) == old_carry * 0x100000000 + (x as nat),
                        pow2(32 * (i + 1) as nat) == pow2(32 * i as nat) * 0x100000000,
                ;
            }
            i += 1;
        }
        proof {
            let nn = n as int;
            let v = limbs_uint(self.limbs@);
            let w = limbs_uint(out@);
            assert(self.limbs@.subrange(0, nn) =~= self.limbs@);
            assert(out@.subrange(0, nn) =~= out@);
            lemma_limbs_uint_bound(out@);
            lemma_limbs_uint_bound(self.limbs@);
            // The top bit of the leading limb is the top bit of the value.
            lemma_limbs_split(self.limbs@, 1);
            assert(self.limbs@.subrange(0, 1).drop_last() =~= Seq::<u32>::empty());
            assert(limbs_uint(Seq::<u32>::empty()) == 0);
            assert(self.limbs@.subrange(0, 1).last() == top);
            assert(limbs_uint(self.limbs@.subrange(0, 1)) == 0 * 0x100000000 + top);
            let klo = 32 * (n - 1) as nat;
            lemma_limbs_uint_bound(self.limbs@.subrange(1, nn));
            lemma_pow2_adds(klo, 31);
            lemma_pow2_adds(klo, 32);
            lemma2_to64();
            assert(cfg.bits() == klo + 32);
            assert(v == (top as nat) * pow2(klo) + limbs_uint(self.limbs@.subrange(1, nn)));
            lemma_fundamental_div_mod(top as int, 0x80000000);
            // tb == 1 exactly when the value reaches pow2(bits - 1).
            if tb == 1 {
                assert((top as nat) >= 0x80000000);
                assert(v >= 0x80000000 * pow2(klo)) by (nonlinear_arith)
                    requires
                        v >= (top as nat) * pow2(klo),
                        (top as nat) >= 0x80000000,
                        pow2(klo) >= 1,
                ;
                assert(pow2((cfg.bits() - 1) as nat) == pow2(klo) * 0x80000000);
                assert(v >= pow2((cfg.bits() - 1) as nat));
            } else {
                assert((top as nat) < 0x80000000);
                assert(v < 0x80000000 * pow2(klo)) by (nonlinear_arith)
                    requires
                        v == (top as nat) * pow2(klo) + limbs_uint(self.limbs@.subrange(1, nn)),
                        (top as nat) + 1 <= 0x80000000,
                        limbs_uint(self.limbs@.subrange(1, nn)) < pow2(klo),
                        pow2(klo) >= 1,
                ;
                assert(pow2((cfg.bits() - 1) as nat) == pow2(klo) * 0x80000000);
                assert(v < pow2((cfg.bits() - 1) as nat));
            }
            // Parity: the final borrow is the low bit of the value.
            lemma_pow2_adds((cfg.bits() - 1) as nat, 1);
            assert(pow2(cfg.bits()) == pow2((cfg.bits() - 1) as nat) * 2);
            lemma_fundamental_div_mod(v as int, 2);
            vstd::arithmetic::div_mod::lemma_mod_pos_bound(v as int, 2);
            assert(2 * w + carry == v + tb * pow2(cfg.bits()));
            assert(tb * pow2(cfg.bits()) == tb * (pow2((cfg.bits() - 1) as nat) * 2))
                by (nonlinear_arith)
                requires
                    pow2(cfg.bits()) == pow2((cfg.bits() - 1) as nat) * 2,
            ;
            assert(w == v / 2 + tb * pow2((cfg.bits() - 1) as nat)) by (nonlinear_arith)
                requires
                    2 * w + (carry as nat) == v + tb * (pow2((cfg.bits() - 1) as nat) * 2),
                    carry <= 1,
                    v == v / 2 * 2 + v % 2,
                    v % 2 < 2,
            ;
            if tb == 0 {
                assert(w == v / 2 + 0 * pow2((cfg.bits() - 1) as nat));
                assert(0 * pow2((cfg.bits() - 1) as nat) == 0) by (nonlinear_arith);
            }
        }
        Fixed { limbs: out }
    }

    /// Two's-complement negation of the mantissa.
    pub fn neg(&self, cfg: &FixConfig) -> (r: Fixed)
        requires
            cfg.wf(),
            self.wf(*cfg),
        ensures
            r.wf(*cfg),
            r.uint_val() == neg_val(self.uint_val(), cfg.bits()),
    {
        let n = self.limbs.len();
        let mut out: Vec<u32> = self.limbs.clone();
        let mut carry: u32 = 1;
        let mut i = n;
        proof {
            lemma2_to64();
            assert(self.limbs@.subrange(n as int, n as int) =~= Seq::<u32>::empty());
            assert(out@.subrange(n as int, n as int) =~= Seq::<u32>::empty());
            assert(limbs_uint(Seq::<u32>::empty()) == 0);
        }
        while i > 0
            invariant
                0 <= i <= n,
                n == self.limbs@.len(),
                out@.len() == n,
                carry <= 1,
                forall|j: int| 0 <= j < i ==> out@[j] == self.limbs@[j],
                limbs_uint(out@.subrange(i as int, n as int)) + carry * pow2(32 * (n - i) as nat)
                    == pow2(32 * (n - i) as nat) - limbs_uint(
                    self.limbs@.subrange(i as int, n as int),
                ),
            decreases i,
        {
            i -= 1;
            let ghost old_out = out@;
            let ghost old_carry = carry as nat;
            let x = self.limbs[i];
            let t: u64 = (0xffffffffu64 - (x as u64)) + (carry as u64);
            out.set(i, (t % 0x100000000) as u32);
            carry = (t / 0x100000000) as u32;
            proof {
                lemma2_to64();
                let ii = i as int;
                let nn = n as int;
                let k = 32 * (n - i - 1) as nat;
                let osuf = out@.subrange(ii, nn);
                let ssuf = self.limbs@.subrange(ii, nn);
                assert(osuf.subrange(1, osuf.len() as int) =~= old_out.subrange(ii + 1, nn));
                assert(ssuf.subrange(1, ssuf.len() as int) =~= self.limbs@.subrange(ii + 1, nn));
                lemma_limbs_first(osuf);
                lemma_limbs_first(ssuf);
                lemma_fundamental_div_mod(t as int, 0x100000000);
                lemma_pow2_adds(32, k);
                let co = carry as nat;
                let lo = (t as nat) % 0x100000000;
                assert(osuf[0] == lo);
                assert(limbs_uint(osuf) + co * (0x100000000 * pow2(k)) == (0x100000000 * pow2(k))
                    - limbs_uint(ssuf)) by (nonlinear_arith)
                    requires
                        limbs_uint(osuf) == lo * pow2(k) + limbs_uint(old_out.subrange(ii + 1, nn)),
                        limbs_uint(ssuf) == (x as nat) * pow2(k) + limbs_uint(
                            self.limbs@.subrange(ii + 1, nn),
                        ),
                        limbs_uint(old_out.subrange(ii + 1, nn)) + old_carry * pow2(k) == pow2(k)
                            - limbs_uint(self.limbs@.subrange(ii + 1, nn)),
                        (0xffffffff - (x as nat)) + old_carry == co * 0x100000000 + lo,
                ;
                assert(0x100000000 * pow2(k) == pow2(32 * (n - ii) as nat));
            }
        }
        proof {
            let nn = n as int;
            let v = limbs_uint(self.limbs@);
            let w = limbs_uint(out@);
            assert(self.limbs@.subrange(0, nn) =~= self.limbs@);
            assert(out@.subrange(0, nn) =~= out@);
            lemma_limbs_uint_bound(out@);
            lemma_limbs_uint_bound(self.limbs@);
            assert(w + carry * pow2(cfg.bits()) == pow2(cfg.bits()) - v);
        }
        Fixed { limbs: out }
    }

    /// Quotient of the mantissa by a positive machine-word divisor,
    /// truncated toward zero.
    pub fn div_u32(&self, cfg: &FixConfig, q: u32) -> (r: Fixed)
        requires
            cfg.wf(),
            self.wf(*cfg),
            q >= 1,
        ensures
            r.wf(*cfg),
            r.uint_val() == self.uint_val() / q as nat,
    {
        let n = self.limbs.len();
        let mut out: Vec<u32> = self.limbs.clone();
        let mut rem: u32 = 0;
        let mut i: usize = 0;
        proof {
            assert(self.limbs@.subrange(0, 0) =~= Seq::<u32>::empty());
            assert(out@.subrange(0, 0) =~= Seq::<u32>::empty());
            assert(limbs_uint(Seq::<u32>::empty()) == 0);
        }
        while i < n
            invariant
                0 <= i <= n,
                n == self.limbs@.len(),
                out@.len() == n,
                rem < q,
                q >= 1,
                forall|j: int| i <= j < n ==> out@[j] == self.limbs@[j],
                limbs_uint(self.limbs@.subrange(0, i as int)) == (q as nat) * limbs_uint(
                    out@.subrange(0, i as int),
                ) + rem,
            decreases n - i,
        {
            let ghost old_out = out@;
            let ghost old_rem = rem as nat;
            let x = self.limbs[i];
            let t: u64 = (rem as u64) * 0x100000000 + (x as u64);
            proof {
                assert((t as nat) < (q as nat) * 0x100000000) by (nonlinear_arith)
                    requires
                        (t as nat) == (rem as nat) * 0x100000000 + (x as nat),
                        (rem as nat) + 1 <= (q as nat),
                        (x as nat) < 0x100000000,
                ;
                lemma_fundamental_div_mod(t as int, q as int);
                assert((t as nat) / (q as nat) < 0x100000000) by (nonlinear_arith)
                    requires
                        (t as nat) < (q as nat) * 0x100000000,
                        (t as nat) == (q as nat) * ((t as nat) / (q as nat)) + (t as nat) % (
                        q as nat),
                        (q as nat) >= 1,
                        (t as nat) % (q as nat) >= 0,
                ;
            }
            out.set(i, (t / (q as u64)) as u32);
            rem = (t % (q as u64)) as u32;
            proof {
                let ii = i as int;
                let hi = (t / (q as u64)) as nat;
                assert(out@.subrange(0, ii) =~= old_out.subrange(0, ii));
                lemma_limbs_prefix(out@, ii);
                lemma_limbs_prefix(self.limbs@, ii);
                assert(limbs_uint(self.limbs@.subrange(0, ii + 1)) == (q as nat) * limbs_uint(
                    out@.subrange(0, ii + 1),
                ) + (rem as nat)) by (nonlinear_arith)
                    requires
                        limbs_uint(self.limbs@.subrange(0, ii + 1)) == limbs_uint(
                            self.limbs@.subrange(0, ii),
                        ) * 0x100000000 + (x as nat),
                        limbs_uint(out@.subrange(0, ii + 1)) == limbs_uint(old_out.subrange(0, ii))
                            * 0x100000000 + hi,
                        limbs_uint(self.limbs@.subrange(0, ii)) == (q as nat) * limbs_uint(
                            old_out.subrange(0, ii),
                        ) + old_rem,
                        (t as nat) == old_rem * 0x100000000 + (x as nat),
                        (t as nat) == (q as nat) * hi + (rem as nat),
                ;
            }
            i += 1;
        }
        proof {
            let nn = n as int;
            assert(self.limbs@.subrange(0, nn) =~= self.limbs@);
            assert(out@.subrange(0, nn) =~= out@);
            assert((q as int) * (limbs_uint(out@) as int) == (limbs_uint(out@) as int) * (
            q as int)) by (nonlinear_arith);
            lemma_fundamental_div_mod_converse(
                limbs_uint(self.limbs@) as int,
                q as int,
                limbs_uint(out@) as int,
                rem as int,
            );
        }
        Fixed { limbs: out }
    }

    /// The fixed-point value of the ratio `p / q`: the mantissa
    /// `(p * pow2(scaling_factor)) / q`, truncated toward zero.
    pub fn ratio(cfg: &FixConfig, p: u32, q: u32) -> (r: Fixed)
        requires
            cfg.wf(),
            q >= 1,
        ensures
            r.wf(*cfg),
            r.uint_val() == (p * pow2(cfg.scaling_factor as nat)) as nat / q as nat,
    {
        let num = Fixed::from_uint(cfg, p);
        num.div_u32(cfg, q)
    }
}

} // verus!
