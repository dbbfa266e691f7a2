//! Rendering of fixed-point values as shading-language array literals:
//! zero-padded hexadecimal limb lines, scalar constant declarations and
//! table declarations, exactly as the emitted constants file carries them.

use vstd::prelude::*;
use vstd::string::StringExecFns;
use crate::fixed::Fixed;

verus! {

/// The uppercase hexadecimal digit of a nibble value.
pub open spec fn hex_char_seq(d: nat) -> Seq<char> {
    if d == 0 {
        "0"@
    } else if d == 1 {
        "1"@
    } else if d == 2 {
        "2"@
    } else if d == 3 {
        "3"@
    } else if d == 4 {
        "4"@
    } else if d == 5 {
        "5"@
    } else if d == 6 {
        "6"@
    } else if d == 7 {
        "7"@
    } else if d == 8 {
        "8"@
    } else if d == 9 {
        "9"@
    } else if d == 10 {
        "A"@
    } else if d == 11 {
        "B"@
    } else if d == 12 {
        "C"@
    } else if d == 13 {
        "D"@
    } else if d == 14 {
        "E"@
    } else {
        "F"@
    }
}

/// The decimal digit character of a value below ten.
pub open spec fn dec_char_seq(d: nat) -> Seq<char> {
    if d == 0 {
        "0"@
    } else if d == 1 {
        "1"@
    } else if d == 2 {
        "2"@
    } else if d == 3 {
        "3"@
    } else if d == 4 {
        "4"@
    } else if d == 5 {
        "5"@
    } else if d == 6 {
        "6"@
    } else if d == 7 {
        "7"@
    } else if d == 8 {
        "8"@
    } else {
        "9"@
    }
}

/// The last `n` hexadecimal digits of `v`, most significant first.
pub open spec fn hex_digits(v: nat, n: nat) -> Seq<char>
    decreases n,
{
    if n == 0 {
        Seq::empty()
    } else {
        hex_digits(v / 16, (n - 1) as nat) + hex_char_seq(v % 16)
    }
}

/// The decimal digits of `v`, most significant first, no leading zeros.
pub open spec fn dec_digits(v: nat) -> Seq<char>
    decreases v,
{
    if v < 10 {
        dec_char_seq(v)
    } else {
        dec_digits(v / 10) + dec_char_seq(v % 10)
    }
}

/// One limb line of an array literal: indentation, the `0x` prefix, and
/// the limb as eight zero-padded uppercase hexadecimal digits.
pub open spec fn limb_line(k: u32) -> Seq<char> {
    "    0x"@ + hex_digits(k as nat, 8)
}

/// The body of an array literal: one line per limb, most-significant limb
/// first, lines joined by a comma and a newline.
pub open spec fn array_body(limbs: Seq<u32>) -> Seq<char>
    decreases limbs.len(),
{
    if limbs.len() == 0 {
        Seq::empty()
    } else if limbs.len() == 1 {
        limb_line(limbs[0])
    } else {
        array_body(limbs.drop_last()) + ",\n"@ + limb_line(limbs.last())
    }
}

/// One row of a table declaration: the array body wrapped in braces.
pub open spec fn row_block(limbs: Seq<u32>) -> Seq<char> {
    "  {\n"@ + array_body(limbs) + "\n  }"@
}

/// The body of a table declaration: one brace-wrapped row per table entry,
/// rows joined by a comma and a newline.
pub open spec fn table_body(rows: Seq<Seq<u32>>) -> Seq<char>
    decreases rows.len(),
{
    if rows.len() == 0 {
        Seq::empty()
    } else if rows.len() == 1 {
        row_block(rows[0])
    } else {
        table_body(rows.drop_last()) + ",\n"@ + row_block(rows.last())
    }
}

/// A scalar constant declaration.
pub open spec fn const_decl(name: Seq<char>, limbs: Seq<u32>) -> Seq<char> {
    "const uint[SIZE] "@ + name + " = {\n"@ + array_body(limbs) + "\n};\n"@
}

/// A table declaration.
pub open spec fn table_decl(name: Seq<char>, rows: Seq<Seq<u32>>) -> Seq<char> {
    "const uint[][SIZE] "@ + name + " = {\n"@ + table_body(rows) + "\n};\n"@
}

/// The limb arrays of a sequence of values, in order.
pub open spec fn rows_limbs(rows: Seq<Fixed>) -> Seq<Seq<u32>> {
    Seq::new(rows.len(), |i: int| rows[i].limbs@)
}

/// The uppercase hexadecimal digit of a nibble value.
fn hex_char_str(d: u32) -> (r: &'static str)
    requires
        d < 16,
    ensures
        r@ == hex_char_seq(d as nat),
{
    if d == 0 {
        "0"
    } else if d == 1 {
        "1"
    } else if d == 2 {
        "2"
    } else if d == 3 {
        "3"
    } else if d == 4 {
        "4"
    } else if d == 5 {
        "5"
    } else if d == 6 {
        "6"
    } else if d == 7 {
        "7"
    } else if d == 8 {
        "8"
    } else if d == 9 {
        "9"
    } else if d == 10 {
        "A"
    } else if d == 11 {
        "B"
    } else if d == 12 {
        "C"
    } else if d == 13 {
        "D"
    } else if d == 14 {
        "E"
    } else {
        "F"
    }
}

/// The decimal digit character of a value below ten.
fn dec_char_str(d: u64) -> (r: &'static str)
    requires
        d < 10,
    ensures
        r@ == dec_char_seq(d as nat),
{
    if d == 0 {
        "0"
    } else if d == 1 {
        "1"
    } else if d == 2 {
        "2"
    } else if d == 3 {
        "3"
    } else if d == 4 {
        "4"
    } else if d == 5 {
        "5"
    } else if d == 6 {
        "6"
    } else if d == 7 {
        "7"
    } else if d == 8 {
        "8"
    } else {
        "9"
    }
}

/// Appends the last `n` hexadecimal digits of `v`, most significant first.
fn push_hex_digits(s: &mut String, v: u32, n: usize)
    ensures
        final(s)@ == old(s)@ + hex_digits(v as nat, n as nat),
    decreases n,
{
    if n == 0 {
        proof {
            assert(final(s)@ =~= old(s)@ + Seq::<char>::empty());
        }
    } else {
        let ghost start = s@;
        push_hex_digits(s, v / 16, n - 1);
        s.append(hex_char_str(v % 16));
        proof {
            assert(final(s)@ =~= start + (hex_digits((v / 16) as nat, (n - 1) as nat)
                + hex_char_seq((v % 16) as nat)));
        }
    }
}

/// Appends the decimal digits of `v`, most significant first.
pub fn push_dec_digits(s: &mut String, v: u64)
    ensures
        final(s)@ == old(s)@ + dec_digits(v as nat),
    decreases v,
{
    if v < 10 {
        s.append(dec_char_str(v));
    } else {
        let ghost start = s@;
        push_dec_digits(s, v / 10);
        s.append(dec_char_str(v % 10));
        proof {
            assert(final(s)@ =~= start + (dec_digits((v / 10) as nat) + dec_char_seq(
                (v % 10) as nat,
            )));
        }
    }
}

/// Appends one limb line: indentation, `0x`, eight hexadecimal digits.
fn push_limb_line(s: &mut String, k: u32)
    ensures
        final(s)@ == old(s)@ + limb_line(k),
{
    let ghost start = s@;
    s.append("    0x");
    push_hex_digits(s, k, 8);
    proof {
        assert(final(s)@ =~= start + ("    0x"@ + hex_digits(k as nat, 8)));
    }
}

/// The array-literal body of one value: one line per limb, most-significant
/// limb first, lines joined by a comma and a newline.
pub fn arb_to_array(a: &Fixed) -> (r: String)
    ensures
        r@ == array_body(a.limbs@),
{
    let mut s = String::new();
    let n = a.limbs.len();
    let mut i: usize = 0;
    while i < n
        invariant
            0 <= i <= n,
            n == a.limbs@.len(),
            s@ == array_body(a.limbs@.subrange(0, i as int)),
        decreases n - i,
    {
        if i > 0 {
            s.append(",\n");
        }
        push_limb_line(&mut s, a.limbs[i]);
        proof {
            let ii = i as int;
            let pre = a.limbs@.subrange(0, ii);
            let cur = a.limbs@.subrange(0, ii + 1);
            assert(cur.drop_last() =~= pre);
            assert(cur.last() == a.limbs@[ii]);
            if ii == 0 {
                assert(cur.len() == 1);
                assert(cur[0] == a.limbs@[0]);
                assert(s@ =~= array_body(cur));
            } else {
                assert(s@ =~= (array_body(pre) + ",\n"@) + limb_line(a.limbs@[ii]));
                assert(array_body(cur) == array_body(pre) + ",\n"@ + limb_line(cur.last()));
                assert(s@ =~= array_body(cur));
            }
        }
        i += 1;
    }
    proof {
        assert(a.limbs@.subrange(0, n as int) =~= a.limbs@);
    }
    s
}

/// Appends the declaration of one named scalar constant.
pub fn write_const(f: &mut String, name: &str, a: &Fixed)
    ensures
        final(f)@ == old(f)@ + const_decl(name@, a.limbs@),
{
    let ghost start = f@;
    f.append("const uint[SIZE] ");
    f.append(name);
    f.append(" = {\n");
    let body = arb_to_array(a);
    f.append(body.as_str());
    f.append("\n};\n");
    proof {
        assert(final(f)@ =~= start + ("const uint[SIZE] "@ + name@ + " = {\n"@ + array_body(
            a.limbs@,
        ) + "\n};\n"@));
    }
}

/// Appends the declaration of one named coefficient table, one row per
/// entry in table order.
pub fn write_table(f: &mut String, name: &str, rows: &Vec<Fixed>)
    ensures
        final(f)@ == old(f)@ + table_decl(name@, rows_limbs(rows@)),
{
    let ghost start = f@;
    f.append("const uint[][SIZE] ");
    f.append(name);
    f.append(" = {\n");
    let n = rows.len();
    let mut i: usize = 0;
    while i < n
        invariant
            0 <= i <= n,
            n == rows@.len(),
            f@ == start + "const uint[][SIZE] "@ + name@ + " = {\n"@ + table_body(
                rows_limbs(rows@.subrange(0, i as int)),
            ),
        decreases n - i,
    {
        if i > 0 {
            f.append(",\n");
        }
        f.append("  {\n");
        let body = arb_to_array(&rows[i]);
        f.append(body.as_str());
        f.append("\n  }");
        proof {
            let ii = i as int;
            let pre = rows_limbs(rows@.subrange(0, ii));
            let cur = rows_limbs(rows@.subrange(0, ii + 1));
            assert(cur.drop_last() =~= pre);
            assert(cur.last() == rows@[ii].limbs@);
            assert(row_block(rows@[ii].limbs@) == "  {\n"@ + array_body(rows@[ii].limbs@)
                + "\n  }"@);
            if ii == 0 {
                assert(cur.len() == 1);
                assert(cur[0] == rows@[0].limbs@);
                assert(f@ =~= start + "const uint[][SIZE] "@ + name@ + " = {\n"@ + table_body(
                    cur,
                ));
            } else {
                assert(table_body(cur) == table_body(pre) + ",\n"@ + row_block(cur.last()));
                assert(f@ =~= start + "const uint[][SIZE] "@ + name@ + " = {\n"@ + table_body(
                    cur,
                ));
            }
        }
        i += 1;
    }
    f.append("\n};\n");
    proof {
        assert(rows@.subrange(0, n as int) =~= rows@);
        assert(final(f)@ =~= start + table_decl(name@, rows_limbs(rows@)));
    }
}

} // verus!
