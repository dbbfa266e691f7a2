//! The mathematical model of a limb array: the unsigned integer a
//! most-significant-first sequence of 32-bit words denotes, and the
//! lemmas that relate that value to prefixes, suffixes and updates.

use vstd::prelude::*;
use vstd::arithmetic::power2::{pow2, lemma_pow2_adds, lemma_pow2_pos, lemma2_to64};

verus! {

/// The unsigned integer denoted by a most-significant-first limb sequence.
pub open spec fn limbs_uint(s: Seq<u32>) -> nat
    decreases s.len(),
{
    if s.len() == 0 {
        0
    } else {
        (limbs_uint(s.drop_last()) * 0x100000000 + s.last()) as nat
    }
}

/// The canonical limb sequence of length `len` denoting `v % pow2(32 * len)`.
pub open spec fn val_limbs(v: nat, len: nat) -> Seq<u32>
    decreases len,
{
    if len == 0 {
        Seq::empty()
    } else {
        val_limbs(v / 0x100000000, (len - 1) as nat).push((v % 0x100000000) as u32)
    }
}

/// A limb sequence denotes a value below `pow2(32 * len)`.
pub proof fn lemma_limbs_uint_bound(s: Seq<u32>)
    ensures
        limbs_uint(s) < pow2(32 * s.len()),
    decreases s.len(),
{
    if s.len() == 0 {
        lemma_pow2_pos(0);
    } else {
        let p = s.drop_last();
        lemma_limbs_uint_bound(p);
        lemma_pow2_adds(32 * p.len(), 32);
        lemma2_to64();
        assert(limbs_uint(p) * 0x100000000 + s.last() < pow2(32 * p.len()) * 0x100000000)
            by (nonlinear_arith)
            requires
                limbs_uint(p) < pow2(32 * p.len()),
                s.last() < 0x100000000,
        ;
    }
}

/// Extending a prefix by one limb multiplies its value by the limb base.
pub proof fn lemma_limbs_prefix(s: Seq<u32>, i: int)
    requires
        0 <= i < s.len(),
    ensures
        limbs_uint(s.subrange(0, i + 1)) == limbs_uint(s.subrange(0, i)) * 0x100000000 + s[i],
{
    assert(s.subrange(0, i + 1).drop_last() =~= s.subrange(0, i));
    assert(s.subrange(0, i + 1).last() == s[i]);
}

/// A nonempty sequence splits into its first limb and the remaining suffix.
pub proof fn lemma_limbs_first(s: Seq<u32>)
    requires
        s.len() > 0,
    ensures
        limbs_uint(s) == s[0] * pow2(32 * (s.len() - 1) as nat) + limbs_uint(
            s.subrange(1, s.len() as int),
        ),
    decreases s.len(),
{
    lemma2_to64();
    if s.len() == 1 {
        assert(s.drop_last() =~= Seq::<u32>::empty());
        assert(s.subrange(1, 1) =~= Seq::<u32>::empty());
        assert(limbs_uint(Seq::<u32>::empty()) == 0);
        assert(limbs_uint(s) == 0 * 0x100000000 + s.last());
        assert(s.last() == s[0]);
        assert(s[0] * pow2(0) == s[0] * 1) by (nonlinear_arith)
            requires
                pow2(0) == 1,
        ;
    } else {
        let p = s.drop_last();
        let t = s.subrange(1, s.len() as int);
        lemma_limbs_first(p);
        assert(p.subrange(1, p.len() as int) =~= t.drop_last());
        assert(t.last() == s.last());
        let ea = 32 * (p.len() - 1) as nat;
        let eb = 32 * (s.len() - 1) as nat;
        lemma_pow2_adds(ea, 32);
        assert(ea + 32 == eb);
        assert(pow2(ea) * 0x100000000 == pow2(eb));
        assert(limbs_uint(p) == s[0] * pow2(ea) + limbs_uint(t.drop_last()));
        assert(limbs_uint(s) == (s[0] * pow2(ea) + limbs_uint(t.drop_last())) * 0x100000000
            + s.last());
        assert((s[0] * pow2(ea) + limbs_uint(t.drop_last())) * 0x100000000 == s[0] * (pow2(ea)
            * 0x100000000) + limbs_uint(t.drop_last()) * 0x100000000) by (nonlinear_arith);
        assert(s[0] * (pow2(ea) * 0x100000000) == s[0] * pow2(eb));
        assert(limbs_uint(t) == limbs_uint(t.drop_last()) * 0x100000000 + t.last());
    }
}

/// The value of a sequence is the value of a prefix, shifted past the
/// suffix, plus the value of that suffix.
pub proof fn lemma_limbs_split(s: Seq<u32>, i: int)
    requires
        0 <= i <= s.len(),
    ensures
        limbs_uint(s) == limbs_uint(s.subrange(0, i)) * pow2(32 * (s.len() - i) as nat)
            + limbs_uint(s.subrange(i, s.len() as int)),
    decreases s.len() - i,
{
    let l = s.len() as int;
    lemma2_to64();
    if i == l {
        assert(s.subrange(0, l) =~= s);
        assert(s.subrange(l, l) =~= Seq::<u32>::empty());
        assert(limbs_uint(s) * pow2(0) == limbs_uint(s) * 1);
    } else {
        lemma_limbs_split(s, i + 1);
        lemma_limbs_prefix(s, i);
        let suf = s.subrange(i, l);
        lemma_limbs_first(suf);
        assert(suf.subrange(1, suf.len() as int) =~= s.subrange(i + 1, l));
        assert(suf[0] == s[i]);
        let pi = limbs_uint(s.subrange(0, i));
        let pj = limbs_uint(s.subrange(0, i + 1));
        let rest = limbs_uint(s.subrange(i + 1, l));
        let k = (l - i - 1) as nat;
        lemma_pow2_adds(32, 32 * k);
        assert(0x100000000 * pow2(32 * k) == pow2(32 * (l - i) as nat));
        assert(limbs_uint(s) == pj * pow2(32 * k) + rest);
        assert(pj == pi * 0x100000000 + s[i]);
        assert((pi * 0x100000000 + s[i]) * pow2(32 * k) == pi * (0x100000000 * pow2(32 * k))
            + s[i] * pow2(32 * k)) by (nonlinear_arith);
        assert(limbs_uint(suf) == s[i] * pow2(32 * k) + rest);
    }
}

/// A limb sequence is the canonical sequence of its value: value and
/// length determine the representation.
pub proof fn lemma_limbs_canonical(s: Seq<u32>)
    ensures
        s =~= val_limbs(limbs_uint(s), s.len()),
    decreases s.len(),
{
    if s.len() > 0 {
        let p = s.drop_last();
        let v = limbs_uint(s);
        lemma_limbs_canonical(p);
        vstd::arithmetic::div_mod::lemma_fundamental_div_mod_converse(
            v as int,
            0x100000000,
            limbs_uint(p) as int,
            s.last() as int,
        );
        assert(v % 0x100000000 == s.last());
        assert(v / 0x100000000 == limbs_uint(p));
    }
}

/// Two limb sequences of equal length denoting equal values are equal.
pub proof fn lemma_limbs_uint_injective(s: Seq<u32>, t: Seq<u32>)
    requires
        s.len() == t.len(),
        limbs_uint(s) == limbs_uint(t),
    ensures
        s =~= t,
{
    lemma_limbs_canonical(s);
    lemma_limbs_canonical(t);
}

} // verus!
