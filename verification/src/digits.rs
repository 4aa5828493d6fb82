//! Positional digit arithmetic: the mathematical link between an integer
//! and its big-endian digit sequence in a given base, with the round-trip
//! lemmas the text codecs rest on.

use vstd::prelude::*;
use vstd::arithmetic::power::{pow, lemma_pow_positive};
use vstd::arithmetic::div_mod::{
    lemma_fundamental_div_mod, lemma_fundamental_div_mod_converse, lemma_div_denominator,
    lemma_div_decreases, lemma_mod_pos_bound, lemma_div_pos_is_pos,
};
use vstd::arithmetic::mul::lemma_mul_inequality;

verus! {

/// The integer denoted by a big-endian digit sequence in the given base.
pub open spec fn digits_value(base: int, s: Seq<u8>) -> int
    decreases s.len(),
{
    if s.len() == 0 {
        0
    } else {
        digits_value(base, s.drop_last()) * base + s.last()
    }
}

/// The `width` low-order digits of `v` in the given base, big-endian.
pub open spec fn to_digits_fixed(base: int, v: int, width: nat) -> Seq<u8>
    decreases width,
{
    if width == 0 {
        Seq::empty()
    } else {
        to_digits_fixed(base, v / base, (width - 1) as nat).push((v % base) as u8)
    }
}

/// The decimal digits of a nonnegative integer, big-endian, without
/// leading zeros (`0` itself is the single digit `0`).
pub open spec fn dec_digits(v: int) -> Seq<u8>
    decreases v,
    when v >= 0 via dec_digits_decreases
{
    if v < 10 {
        seq![v as u8]
    } else {
        dec_digits(v / 10).push((v % 10) as u8)
    }
}

#[via_fn]
proof fn dec_digits_decreases(v: int) {
    if v >= 10 {
        lemma_div_decreases(v, 10);
        lemma_div_pos_is_pos(v, 10);
    }
}

pub proof fn lemma_to_digits_fixed_props(base: int, v: int, width: nat)
    requires
        2 <= base <= 256,
        0 <= v,
    ensures
        to_digits_fixed(base, v, width).len() == width,
        forall|i: int|
            0 <= i < width ==> 0 <= #[trigger] to_digits_fixed(base, v, width)[i] < base,
    decreases width,
{
    if width > 0 {
        lemma_mod_pos_bound(v, base);
        lemma_div_pos_is_pos(v, base);
        lemma_to_digits_fixed_props(base, v / base, (width - 1) as nat);
        assert forall|i: int| 0 <= i < width implies 0 <= #[trigger] to_digits_fixed(
            base,
            v,
            width,
        )[i] < base by {
            if i < width - 1 {
                assert(to_digits_fixed(base, v, width)[i] == to_digits_fixed(
                    base,
                    v / base,
                    (width - 1) as nat,
                )[i]);
            }
        }
    }
}

/// A digit sequence is recovered from its value: `to_digits_fixed` is a
/// left inverse of `digits_value` on in-range digits.
pub proof fn lemma_to_digits_of_value(base: int, s: Seq<u8>)
    requires
        2 <= base <= 256,
        forall|i: int| 0 <= i < s.len() ==> s[i] < base,
    ensures
        0 <= digits_value(base, s) < pow(base, s.len() as nat),
        to_digits_fixed(base, digits_value(base, s), s.len() as nat) =~= s,
    decreases s.len(),
{
    reveal(pow);
    if s.len() == 0 {
        assert(pow(base, 0) == 1);
    } else {
        let bl = s.drop_last();
        lemma_to_digits_of_value(base, bl);
        let n = s.len() as int;
        let p1 = pow(base, (n - 1) as nat);
        let dv = digits_value(base, s);
        assert(dv == digits_value(base, bl) * base + s.last());
        lemma_mul_inequality(digits_value(base, bl), p1 - 1, base);
        assert(pow(base, n as nat) == base * p1);
        assert((p1 - 1) * base == p1 * base - base) by (nonlinear_arith);
        assert(digits_value(base, bl) * base >= 0) by (nonlinear_arith)
            requires digits_value(base, bl) >= 0 && base >= 2;
        assert(0 <= dv < pow(base, s.len() as nat));
        lemma_fundamental_div_mod_converse(dv, base, digits_value(base, bl), s.last() as int);
        assert(to_digits_fixed(base, dv, s.len() as nat) == to_digits_fixed(
            base,
            digits_value(base, bl),
            (n - 1) as nat,
        ).push((dv % base) as u8));
    }
}

/// The digit `j` places above the units digit, read from a fixed-width
/// rendering, is `(v / base^j) % base`.
pub proof fn lemma_to_digits_index(base: int, v: int, width: nat, j: nat)
    requires
        2 <= base <= 256,
        0 <= v,
        j < width,
    ensures
        to_digits_fixed(base, v, width)[width - 1 - j] == ((v / pow(base, j)) % base) as u8,
    decreases width,
{
    reveal(pow);
    lemma_to_digits_fixed_props(base, v, width);
    if j == 0 {
        assert(pow(base, 0) == 1);
        assert(v / 1 == v) by (nonlinear_arith);
        assert(to_digits_fixed(base, v, width).last() == (v % base) as u8);
    } else {
        lemma_div_pos_is_pos(v, base);
        lemma_to_digits_index(base, v / base, (width - 1) as nat, (j - 1) as nat);
        lemma_pow_positive(base, (j - 1) as nat);
        lemma_div_denominator(v, base, pow(base, (j - 1) as nat));
        assert(pow(base, j) == base * pow(base, (j - 1) as nat));
        assert(to_digits_fixed(base, v, width)[width - 1 - j] == to_digits_fixed(
            base,
            v / base,
            (width - 1) as nat,
        )[width - 2 - (j - 1)]);
    }
}

pub proof fn lemma_dec_digits_props(v: int)
    requires
        0 <= v,
    ensures
        dec_digits(v).len() >= 1,
        forall|i: int| 0 <= i < dec_digits(v).len() ==> #[trigger] dec_digits(v)[i] < 10,
        dec_digits(v)[0] == 0 <==> v == 0,
        digits_value(10, dec_digits(v)) == v,
    decreases v,
{
    if v < 10 {
        assert(dec_digits(v) =~= seq![v as u8]);
        assert(dec_digits(v).drop_last() =~= Seq::<u8>::empty());
        assert(digits_value(10, dec_digits(v)) == digits_value(10, dec_digits(v).drop_last())
            * 10 + dec_digits(v).last());
        assert(digits_value(10, dec_digits(v).drop_last()) == 0);
    } else {
        lemma_div_decreases(v, 10);
        lemma_div_pos_is_pos(v, 10);
        lemma_mod_pos_bound(v, 10);
        lemma_dec_digits_props(v / 10);
        lemma_fundamental_div_mod(v, 10);
        let d = dec_digits(v / 10);
        assert(dec_digits(v) == d.push((v % 10) as u8));
        assert(d.push((v % 10) as u8).drop_last() =~= d);
        assert forall|i: int| 0 <= i < dec_digits(v).len() implies #[trigger] dec_digits(
            v,
        )[i] < 10 by {
            if i < d.len() {
                assert(dec_digits(v)[i] == d[i]);
            }
        }
        assert(dec_digits(v)[0] == d[0]);
        assert(digits_value(10, dec_digits(v)) == digits_value(10, dec_digits(v).drop_last())
            * 10 + dec_digits(v).last());
        assert(v / 10 >= 1) by {
            if v / 10 == 0 {
                assert(v == 10 * (v / 10) + v % 10);
                assert(false);
            }
        }
    }
}

/// A digit value is at least `base^(len-1)` when its leading digit is
/// nonzero.
pub proof fn lemma_digits_value_lower(base: int, s: Seq<u8>)
    requires
        2 <= base <= 256,
        s.len() >= 1,
        s[0] >= 1,
        forall|i: int| 0 <= i < s.len() ==> s[i] < base,
    ensures
        digits_value(base, s) >= pow(base, (s.len() - 1) as nat),
    decreases s.len(),
{
    reveal(pow);
    if s.len() == 1 {
        assert(digits_value(base, s) == digits_value(base, s.drop_last()) * base + s.last());
        assert(s.drop_last().len() == 0);
        assert(pow(base, 0) == 1);
    } else {
        let bl = s.drop_last();
        assert(bl[0] == s[0]);
        lemma_digits_value_lower(base, bl);
        let p = pow(base, (s.len() - 2) as nat);
        lemma_mul_inequality(p, digits_value(base, bl), base);
        assert(pow(base, (s.len() - 1) as nat) == base * p);
        assert(digits_value(base, s) == digits_value(base, bl) * base + s.last());
    }
}

} // verus!
