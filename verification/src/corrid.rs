//! Correlation identifiers: 128-bit tokens rendered as the canonical
//! hyphenated lower-case hexadecimal text (8-4-4-4-12 digits), the form
//! used as the bus message key.

use vstd::prelude::*;
use vstd::string::StrSliceExecFns;
use vstd::arithmetic::power::{pow, lemma_pow_positive};
use vstd::arithmetic::div_mod::{lemma_div_denominator, lemma_div_pos_is_pos, lemma_mod_pos_bound};
use crate::digits::{
    to_digits_fixed, digits_value, lemma_to_digits_fixed_props, lemma_to_digits_index,
    lemma_to_digits_of_value,
};
use crate::text::{hex_char, hex_val, hex_char_of, hex_val_of, push_char, lemma_hex_val_none};

verus! {

/// Positions of the four hyphens in the rendered id.
pub open spec fn is_hyphen_pos(i: int) -> bool {
    i == 8 || i == 13 || i == 18 || i == 23
}

/// How many hyphens lie strictly before position `i`.
pub open spec fn hyphens_before(i: int) -> int {
    if i <= 8 { 0 } else if i <= 13 { 1 } else if i <= 18 { 2 } else if i <= 23 { 3 } else { 4 }
}

/// The index of the hex digit shown at (non-hyphen) position `i`.
pub open spec fn nibble_pos(i: int) -> int {
    i - hyphens_before(i)
}

/// The 32 hex digits of `v`, big-endian.
pub open spec fn id_hex(v: u128) -> Seq<u8> {
    to_digits_fixed(16, v as int, 32)
}

/// The canonical rendered text of a correlation id.
pub open spec fn id_chars(v: u128) -> Seq<char> {
    Seq::new(36, |i: int| if is_hyphen_pos(i) { '-' } else { hex_char(id_hex(v)[nibble_pos(i)]) })
}

proof fn lemma_pow16_32()
    ensures
        pow(16, 32) == 0x100000000000000000000000000000000,
{
    reveal_with_fuel(pow, 33);
}

fn hyphens_before_x(i: usize) -> (r: usize)
    requires
        i <= 36,
    ensures
        r == hyphens_before(i as int),
{
    if i <= 8 { 0 } else if i <= 13 { 1 } else if i <= 18 { 2 } else if i <= 23 { 3 } else { 4 }
}

/// Renders a correlation id as its canonical 36-character text.
pub fn format_correlation_id(v: u128) -> (r: String)
    ensures
        r@ == id_chars(v),
{
    proof {
        reveal(pow);
        lemma_to_digits_fixed_props(16, v as int, 32);
        assert(pow(16, 0) == 1);
        assert(v as int / 1 == v as int) by (nonlinear_arith);
    }
    // low-order first: digits[j] == (v / 16^j) % 16
    let mut digits: Vec<u8> = Vec::new();
    let mut rem: u128 = v;
    let mut k: usize = 0;
    while k < 32
        invariant
            0 <= k <= 32,
            digits.len() == k,
            rem as int == v as int / pow(16, k as nat),
            forall|j: int|
                0 <= j < k ==> #[trigger] digits@[j] == ((v as int / pow(16, j as nat))
                    % 16) as u8,
            forall|j: int| 0 <= j < k ==> #[trigger] digits@[j] < 16,
        decreases 32 - k,
    {
        proof {
            reveal(pow);
            lemma_pow_positive(16, k as nat);
            lemma_div_pos_is_pos(v as int, pow(16, k as nat));
            lemma_mod_pos_bound(rem as int, 16);
            lemma_div_denominator(v as int, pow(16, k as nat), 16);
            assert(pow(16, (k + 1) as nat) == 16 * pow(16, k as nat));
        }
        digits.push((rem % 16) as u8);
        rem = rem / 16;
        k += 1;
    }
    proof {
        assert forall|p: int| 0 <= p < 32 implies id_hex(v)[p] == digits@[31 - p] by {
            lemma_to_digits_index(16, v as int, 32, (31 - p) as nat);
        }
    }
    let mut out = String::new();
    let mut i: usize = 0;
    while i < 36
        invariant
            0 <= i <= 36,
            digits.len() == 32,
            forall|j: int| 0 <= j < 32 ==> #[trigger] digits@[j] < 16,
            forall|p: int| 0 <= p < 32 ==> #[trigger] id_hex(v)[p] == digits@[31 - p],
            out@ == id_chars(v).subrange(0, i as int),
        decreases 36 - i,
    {
        if i == 8 || i == 13 || i == 18 || i == 23 {
            push_char(&mut out, '-');
        } else {
            let h = hyphens_before_x(i);
            let p = i - h;
            proof {
                assert(p == nibble_pos(i as int));
                assert(0 <= nibble_pos(i as int) < 32);
                assert(digits@[31 - p] == id_hex(v)[p as int]);
            }
            let c = hex_char_of(digits[31 - p]);
            push_char(&mut out, c);
        }
        proof {
            assert(id_chars(v).subrange(0, i + 1) =~= id_chars(v).subrange(0, i as int).push(
                id_chars(v)[i as int],
            ));
        }
        i += 1;
    }
    proof {
        assert(out@ =~= id_chars(v));
    }
    out
}

/// Reads a correlation id back from text. Succeeds exactly on the
/// canonical rendering of some id, and then returns that id.
pub fn parse_correlation_id(s: &str) -> (r: Option<u128>)
    ensures
        match r {
            Some(v) => s@ == id_chars(v),
            None => forall|v: u128| s@ != id_chars(v),
        },
{
    let n = s.unicode_len();
    if n != 36 {
        proof {
            assert forall|v: u128| s@ != id_chars(v) by {}
        }
        return None;
    }
    let mut ds: Vec<u8> = Vec::new();
    let mut i: usize = 0;
    while i < 36
        invariant
            0 <= i <= 36,
            s@.len() == 36,
            ds.len() == i - hyphens_before(i as int),
            forall|j: int|
                0 <= j < i && is_hyphen_pos(j) ==> s@[j] == '-',
            forall|j: int|
                0 <= j < i && !is_hyphen_pos(j) ==> hex_val(s@[j]) == Some(
                    ds@[nibble_pos(j)],
                ),
        decreases 36 - i,
    {
        let c = s.get_char(i);
        if i == 8 || i == 13 || i == 18 || i == 23 {
            if c != '-' {
                proof {
                    assert forall|v: u128| s@ != id_chars(v) by {
                        if s@ == id_chars(v) {
                            assert(s@[i as int] == id_chars(v)[i as int]);
                        }
                    }
                }
                return None;
            }
        } else {
            match hex_val_of(c) {
                Some(d) => {
                    ds.push(d);
                },
                None => {
                    proof {
                        assert forall|v: u128| s@ != id_chars(v) by {
                            if s@ == id_chars(v) {
                                lemma_to_digits_fixed_props(16, v as int, 32);
                                assert(s@[i as int] == hex_char(
                                    id_hex(v)[nibble_pos(i as int)],
                                ));
                                lemma_hex_val_none(c);
                            }
                        }
                    }
                    return None;
                },
            }
        }
        i += 1;
    }
    proof {
        assert(ds.len() == 32);
        assert forall|j: int| 0 <= j < 32 implies ds@[j] < 16 by {
            let witness = if j < 8 { j } else if j < 12 { j + 1 } else if j < 16 { j + 2 }
                else if j < 20 { j + 3 } else { j + 4 };
            assert(!is_hyphen_pos(witness) && nibble_pos(witness) == j);
            assert(hex_val(s@[witness]) == Some(ds@[j]));
        }
        lemma_to_digits_of_value(16, ds@);
        lemma_pow16_32();
        assert(ds@.subrange(0, 0) =~= Seq::<u8>::empty());
        assert(digits_value(16, ds@.subrange(0, 0)) == 0);
        reveal(pow);
        assert(pow(16, 0) == 1);
    }
    let mut acc: u128 = 0;
    let mut p: usize = 0;
    while p < 32
        invariant
            0 <= p <= 32,
            ds.len() == 32,
            forall|j: int| 0 <= j < 32 ==> #[trigger] ds@[j] < 16,
            acc as int == digits_value(16, ds@.subrange(0, p as int)),
            0 <= digits_value(16, ds@.subrange(0, p as int)) < pow(16, p as nat),
            pow(16, 32) == 0x100000000000000000000000000000000,
        decreases 32 - p,
    {
        proof {
            lemma_to_digits_of_value(16, ds@.subrange(0, p + 1));
            assert(ds@.subrange(0, p + 1).drop_last() =~= ds@.subrange(0, p as int));
            assert(digits_value(16, ds@.subrange(0, p + 1)) == digits_value(
                16,
                ds@.subrange(0, p as int),
            ) * 16 + ds@[p as int]);
            reveal(pow);
            assert(pow(16, (p + 1) as nat) == 16 * pow(16, p as nat));
            vstd::arithmetic::power::lemma_pow_increases(16, (p + 1) as nat, 32);
        }
        acc = acc * 16 + (ds[p] as u128);
        p += 1;
    }
    proof {
        assert(ds@.subrange(0, 32) =~= ds@);
        lemma_to_digits_of_value(16, ds@);
        assert(id_hex(acc) =~= ds@);
        assert forall|i2: int| 0 <= i2 < 36 implies s@[i2] == id_chars(acc)[i2] by {
            if !is_hyphen_pos(i2) {
                assert(hex_val(s@[i2]) == Some(ds@[nibble_pos(i2)]));
                crate::text::lemma_hex_val_char(s@[i2]);
                assert(id_chars(acc)[i2] == hex_char(ds@[nibble_pos(i2)]));
            }
        }
        assert(s@ =~= id_chars(acc));
    }
    Some(acc)
}

} // verus!
