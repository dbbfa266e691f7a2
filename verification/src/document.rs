//! Assembly of the emitted constants file: representation metadata, the two
//! coefficient tables and the ten catalog constants, in their fixed order.
//! The text is a pure function of the configuration and of the two
//! externally generated seed values, which is the determinism guarantee of
//! the generator.

use vstd::prelude::*;
use vstd::string::StringExecFns;
use vstd::arithmetic::power2::pow2;
use crate::fixed::{Fixed, FixConfig, shl1_val, asr1_val, neg_val};
use crate::limbs::{limbs_uint, val_limbs, lemma_limbs_canonical};
use crate::render::{
    const_decl,
    table_decl,
    dec_digits,
    rows_limbs,
    push_dec_digits,
    write_const,
    write_table,
};
use crate::series::{
    sin_table,
    log_table,
    sin_coeff_val,
    log_coeff_val,
    TRIG_PRECISION,
    LOG_PRECISION,
};
use crate::catalog::Catalog;

verus! {

/// The limb rows of the sine-series table.
pub open spec fn sin_rows(cfg: FixConfig) -> Seq<Seq<u32>> {
    Seq::new(TRIG_PRECISION as nat, |i: int| val_limbs(sin_coeff_val(cfg, i), cfg.size as nat))
}

/// The limb rows of the logarithm-series table.
pub open spec fn log_rows(cfg: FixConfig) -> Seq<Seq<u32>> {
    Seq::new(LOG_PRECISION as nat, |i: int| val_limbs(log_coeff_val(cfg, i), cfg.size as nat))
}

/// The complete text of the constants file for one configuration and one
/// pair of seed limb arrays: metadata, the two tables, then the ten scalar
/// constants, in this exact order.
pub open spec fn document_spec(cfg: FixConfig, pi: Seq<u32>, ln_2: Seq<u32>) -> Seq<char> {
    let f = pow2(cfg.scaling_factor as nat);
    let sz = cfg.size as nat;
    "const uint SIZE = "@ + dec_digits(cfg.size as nat) + ";\n"@ + "const uint SCALING_FACTOR = "@
        + dec_digits(cfg.scaling_factor as nat) + ";\n\n"@ + "const uint TRIG_PRECISION = "@
        + dec_digits(TRIG_PRECISION as nat) + ";\n"@ + "const uint LOG_PRECISION = "@ + dec_digits(
        LOG_PRECISION as nat,
    ) + ";\n"@ + table_decl("sin_table"@, sin_rows(cfg)) + table_decl("log_table"@, log_rows(cfg))
        + const_decl("FIX_2_PI"@, val_limbs(shl1_val(limbs_uint(pi), cfg.bits()), sz)) + const_decl(
        "FIX_PI"@,
        pi,
    ) + const_decl("FIX_PI_2"@, val_limbs(asr1_val(limbs_uint(pi), cfg.bits()), sz)) + const_decl(
        "FIX_LN_2"@,
        ln_2,
    ) + const_decl("FIX_ZERO"@, val_limbs(0, sz)) + const_decl("FIX_ONE"@, val_limbs(f, sz))
        + const_decl("FIX_NEG_ONE"@, val_limbs(neg_val(f, cfg.bits()), sz)) + const_decl(
        "FIX_TWO"@,
        val_limbs(2 * f, sz),
    ) + const_decl("FIX_48_DIV_17"@, val_limbs((48 * f) / 17, sz)) + const_decl(
        "FIX_NEG_32_DIV_17"@,
        val_limbs(neg_val((32 * f) / 17, cfg.bits()), sz),
    )
}

/// Builds the complete constants file from the configuration and the two
/// seed values that only the external fixed-point engine can produce.
pub fn constants_document(cfg: &FixConfig, pi: Fixed, ln_2: Fixed) -> (r: String)
    requires
        cfg.wf(),
        pi.wf(*cfg),
        ln_2.wf(*cfg),
    ensures
        r@ == document_spec(*cfg, pi.limbs@, ln_2.limbs@),
{
    let ghost pi0 = pi.limbs@;
    let ghost ln0 = ln_2.limbs@;
    let mut out = String::new();
    out.append("const uint SIZE = ");
    push_dec_digits(&mut out, cfg.size as u64);
    out.append(";\n");
    out.append("const uint SCALING_FACTOR = ");
    push_dec_digits(&mut out, cfg.scaling_factor as u64);
    out.append(";\n\n");
    out.append("const uint TRIG_PRECISION = ");
    push_dec_digits(&mut out, TRIG_PRECISION as u64);
    out.append(";\n");
    out.append("const uint LOG_PRECISION = ");
    push_dec_digits(&mut out, LOG_PRECISION as u64);
    out.append(";\n");
    let ghost head = out@;

    let sin = sin_table(cfg);
    write_table(&mut out, "sin_table", &sin);
    proof {
        assert forall|i: int| 0 <= i < TRIG_PRECISION implies rows_limbs(sin@)[i] == sin_rows(
            *cfg,
        )[i] by {
            lemma_limbs_canonical(sin@[i].limbs@);
        }
        assert(rows_limbs(sin@) =~= sin_rows(*cfg));
    }
    let log = log_table(cfg);
    write_table(&mut out, "log_table", &log);
    proof {
        assert forall|i: int| 0 <= i < LOG_PRECISION implies rows_limbs(log@)[i] == log_rows(
            *cfg,
        )[i] by {
            lemma_limbs_canonical(log@[i].limbs@);
        }
        assert(rows_limbs(log@) =~= log_rows(*cfg));
    }
    let ghost with_tables = out@;

    let cat = Catalog::build(cfg, pi, ln_2);
    proof {
        lemma_limbs_canonical(cat.two_pi.limbs@);
        lemma_limbs_canonical(cat.pi_2.limbs@);
        lemma_limbs_canonical(cat.zero.limbs@);
        lemma_limbs_canonical(cat.one.limbs@);
        lemma_limbs_canonical(cat.neg_one.limbs@);
        lemma_limbs_canonical(cat.two.limbs@);
        lemma_limbs_canonical(cat.frac_48_17.limbs@);
        lemma_limbs_canonical(cat.neg_frac_32_17.limbs@);
    }
    write_const(&mut out, "FIX_2_PI", &cat.two_pi);
    write_const(&mut out, "FIX_PI", &cat.pi);
    write_const(&mut out, "FIX_PI_2", &cat.pi_2);
    write_const(&mut out, "FIX_LN_2", &cat.ln_2);
    write_const(&mut out, "FIX_ZERO", &cat.zero);
    write_const(&mut out, "FIX_ONE", &cat.one);
    write_const(&mut out, "FIX_NEG_ONE", &cat.neg_one);
    write_const(&mut out, "FIX_TWO", &cat.two);
    write_const(&mut out, "FIX_48_DIV_17", &cat.frac_48_17);
    write_const(&mut out, "FIX_NEG_32_DIV_17", &cat.neg_frac_32_17);
    proof {
        assert(out@ =~= document_spec(*cfg, pi0, ln0));
    }
    out
}

/// Determinism of the generator: for one configuration and one pair of seed
/// values there is exactly one output text, so any two runs coincide byte
/// for byte.
pub proof fn lemma_generation_deterministic(
    cfg: FixConfig,
    pi: Seq<u32>,
    ln_2: Seq<u32>,
    a: Seq<char>,
    b: Seq<char>,
)
    requires
        a == document_spec(cfg, pi, ln_2),
        b == document_spec(cfg, pi, ln_2),
    ensures
        a == b,
{
}

} // verus!
