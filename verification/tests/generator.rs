use fixed_const_gen::catalog::Catalog;
use fixed_const_gen::document::constants_document;
use fixed_const_gen::fixed::{FixConfig, Fixed};
use fixed_const_gen::include_dir;
use fixed_const_gen::render::{arb_to_array, push_dec_digits, write_const, write_table};
use fixed_const_gen::series::{factorial, log_table, sin_table};

fn cfg2() -> FixConfig {
    FixConfig { size: 2, scaling_factor: 32 }
}

fn cfg1() -> FixConfig {
    FixConfig { size: 1, scaling_factor: 0 }
}

#[test]
fn factorial_exact_values() {
    assert_eq!(factorial(0), 1);
    assert_eq!(factorial(1), 1);
    assert_eq!(factorial(2), 2);
    assert_eq!(factorial(12), 479001600);
}

#[test]
fn from_uint_places_scaled_integer() {
    let c = cfg2();
    assert_eq!(Fixed::from_uint(&c, 0).limbs, vec![0, 0]);
    assert_eq!(Fixed::from_uint(&c, 1).limbs, vec![1, 0]);
    assert_eq!(Fixed::from_uint(&c, 2).limbs, vec![2, 0]);
}

#[test]
fn lshift1_doubles_and_wraps() {
    let c = cfg2();
    let a = Fixed::from_limbs(vec![0x80000000, 1]);
    assert_eq!(a.lshift1(&c).limbs, vec![0, 2]);
}

#[test]
fn rshift1_halves_and_keeps_sign() {
    let c = cfg2();
    let pos = Fixed::from_limbs(vec![0x00000001, 0x00000000]);
    assert_eq!(pos.rshift1(&c).limbs, vec![0, 0x80000000]);
    let neg = Fixed::from_limbs(vec![0x80000000, 0]);
    assert_eq!(neg.rshift1(&c).limbs, vec![0xC0000000, 0]);
}

#[test]
fn neg_is_twos_complement() {
    let c = cfg2();
    let one = Fixed::from_uint(&c, 1);
    assert_eq!(one.neg(&c).limbs, vec![0xFFFFFFFF, 0]);
    let zero = Fixed::from_uint(&c, 0);
    assert_eq!(zero.neg(&c).limbs, vec![0, 0]);
}

#[test]
fn div_u32_truncates() {
    let c = cfg2();
    let a = Fixed::from_limbs(vec![1, 0]);
    assert_eq!(a.div_u32(&c, 3).limbs, vec![0, 0x55555555]);
}

#[test]
fn ratio_48_over_17() {
    let c = cfg2();
    let r = Fixed::ratio(&c, 48, 17);
    assert_eq!(r.limbs, vec![2, 0xD2D2D2D2]);
}

#[test]
fn sin_table_first_and_last_entries() {
    // With six retained terms, index 0 has adj = 6 (even): +1/12!, and
    // index 5 has adj = 1 (odd): -1/2!.
    let c = cfg2();
    let t = sin_table(&c);
    assert_eq!(t.len(), 6);
    // 2^32 / 479001600 = 8, positive.
    assert_eq!(t[0].limbs, vec![0, 8]);
    // 2^32 / 2 = 2^31, negated: 2^64 - 2^31.
    assert_eq!(t[5].limbs, vec![0xFFFFFFFF, 0x80000000]);
}

#[test]
fn sin_table_sign_alternates_with_adj_parity() {
    let c = cfg2();
    let t = sin_table(&c);
    for i in 0..6usize {
        let adj = 6 - i;
        let top = t[i].limbs[0];
        if adj % 2 == 0 {
            assert!(top < 0x80000000, "entry {} should be non-negative", i);
        } else {
            assert!(top >= 0x80000000, "entry {} should be negative", i);
        }
    }
}

#[test]
fn log_table_first_and_last_entries() {
    // Index 5 has adj = 0: exactly 2/1 = 2; index 0 has adj = 5: 2/11.
    let c = cfg2();
    let t = log_table(&c);
    assert_eq!(t.len(), 6);
    assert_eq!(t[5].limbs, vec![2, 0]);
    // floor(2 * 2^32 / 11) = 780903144
    assert_eq!(t[0].limbs, vec![0, 780903144]);
}

#[test]
fn zero_serializes_to_four_zero_lines() {
    let c = FixConfig { size: 4, scaling_factor: 32 };
    let zero = Fixed::from_uint(&c, 0);
    let body = arb_to_array(&zero);
    assert_eq!(
        body,
        "    0x00000000,\n    0x00000000,\n    0x00000000,\n    0x00000000"
    );
    assert_eq!(body.lines().count(), 4);
}

#[test]
fn limb_renders_as_padded_uppercase_hex() {
    let a = Fixed::from_limbs(vec![0xDEADBEEF]);
    assert_eq!(arb_to_array(&a), "    0xDEADBEEF");
    let b = Fixed::from_limbs(vec![0x000000AB]);
    assert_eq!(arb_to_array(&b), "    0x000000AB");
}

#[test]
fn decimal_rendering_is_exact() {
    let mut s = String::new();
    push_dec_digits(&mut s, 1234567890);
    assert_eq!(s, "1234567890");
    let mut z = String::new();
    push_dec_digits(&mut z, 0);
    assert_eq!(z, "0");
}

#[test]
fn write_const_emits_full_declaration() {
    let c = cfg1();
    let v = Fixed::from_uint(&c, 42);
    let mut out = String::new();
    write_const(&mut out, "ANSWER", &v);
    assert_eq!(out, "const uint[SIZE] ANSWER = {\n    0x0000002A\n};\n");
}

#[test]
fn write_table_emits_rows_in_order() {
    let rows = vec![Fixed::from_limbs(vec![1]), Fixed::from_limbs(vec![2])];
    let mut out = String::new();
    write_table(&mut out, "t", &rows);
    assert_eq!(
        out,
        "const uint[][SIZE] t = {\n  {\n    0x00000001\n  },\n  {\n    0x00000002\n  }\n};\n"
    );
}

#[test]
fn catalog_shift_round_trip() {
    // The 2 pi entry is the doubling shift of pi, and pi/2 the halving
    // shift, limb for limb.
    let c = cfg2();
    let pi = Fixed::from_limbs(vec![0x3243F6A8, 0x885A308D]);
    let ln2 = Fixed::from_limbs(vec![0xB17217F7, 0xD1CF79AB]);
    let cat = Catalog::build(&c, pi.clone(), ln2);
    assert_eq!(cat.two_pi.limbs, pi.lshift1(&c).limbs);
    assert_eq!(cat.pi.limbs, pi.limbs);
    assert_eq!(cat.pi_2.limbs, pi.rshift1(&c).limbs);
}

#[test]
fn catalog_negation_consistency() {
    let c = cfg2();
    let pi = Fixed::from_limbs(vec![3, 0]);
    let ln2 = Fixed::from_limbs(vec![1, 0]);
    let cat = Catalog::build(&c, pi, ln2);
    assert_eq!(cat.neg_one.limbs, cat.one.neg(&c).limbs);
    assert_eq!(cat.zero.neg(&c).limbs, cat.zero.limbs);
    assert_eq!(cat.two.limbs, vec![2, 0]);
    assert_eq!(cat.frac_48_17.limbs, vec![2, 0xD2D2D2D2]);
    assert_eq!(cat.neg_frac_32_17.limbs, vec![0xFFFFFFFE, 0x1E1E1E1F]);
}

#[test]
fn document_is_deterministic() {
    let c = cfg2();
    let a = constants_document(
        &c,
        Fixed::from_limbs(vec![0x3243F6A8, 0x885A308D]),
        Fixed::from_limbs(vec![0xB17217F7, 0xD1CF79AB]),
    );
    let b = constants_document(
        &c,
        Fixed::from_limbs(vec![0x3243F6A8, 0x885A308D]),
        Fixed::from_limbs(vec![0xB17217F7, 0xD1CF79AB]),
    );
    assert_eq!(a, b);
    assert!(!a.is_empty());
}

#[test]
fn document_full_text_single_limb() {
    // One limb, scaling factor zero: every value is a bare integer word,
    // so the whole emitted file is predictable by hand.
    let c = cfg1();
    let pi = Fixed::from_limbs(vec![3]);
    let ln2 = Fixed::from_limbs(vec![1]);
    let doc = constants_document(&c, pi, ln2);
    let mut expected = String::new();
    expected.push_str("const uint SIZE = 1;\n");
    expected.push_str("const uint SCALING_FACTOR = 0;\n\n");
    expected.push_str("const uint TRIG_PRECISION = 6;\n");
    expected.push_str("const uint LOG_PRECISION = 6;\n");
    expected.push_str("const uint[][SIZE] sin_table = {\n");
    for _ in 0..5 {
        expected.push_str("  {\n    0x00000000\n  },\n");
    }
    expected.push_str("  {\n    0x00000000\n  }\n};\n");
    expected.push_str("const uint[][SIZE] log_table = {\n");
    for _ in 0..5 {
        expected.push_str("  {\n    0x00000000\n  },\n");
    }
    expected.push_str("  {\n    0x00000002\n  }\n};\n");
    expected.push_str("const uint[SIZE] FIX_2_PI = {\n    0x00000006\n};\n");
    expected.push_str("const uint[SIZE] FIX_PI = {\n    0x00000003\n};\n");
    expected.push_str("const uint[SIZE] FIX_PI_2 = {\n    0x00000001\n};\n");
    expected.push_str("const uint[SIZE] FIX_LN_2 = {\n    0x00000001\n};\n");
    expected.push_str("const uint[SIZE] FIX_ZERO = {\n    0x00000000\n};\n");
    expected.push_str("const uint[SIZE] FIX_ONE = {\n    0x00000001\n};\n");
    expected.push_str("const uint[SIZE] FIX_NEG_ONE = {\n    0xFFFFFFFF\n};\n");
    expected.push_str("const uint[SIZE] FIX_TWO = {\n    0x00000002\n};\n");
    expected.push_str("const uint[SIZE] FIX_48_DIV_17 = {\n    0x00000002\n};\n");
    expected.push_str("const uint[SIZE] FIX_NEG_32_DIV_17 = {\n    0xFFFFFFFF\n};\n");

    assert_eq!(doc, expected);
}

#[test]
fn include_dir_is_stable() {
    assert_eq!(include_dir(), "glsl_out");
}
