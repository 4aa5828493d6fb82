//! Character-level text helpers: digit character tables with their
//! inverses, appending characters and decimal renderings to a `String`,
//! and whole-string comparison.

use vstd::prelude::*;
use vstd::string::StrSliceExecFns;
use crate::digits::{dec_digits, digits_value, lemma_dec_digits_props, lemma_digits_value_lower, lemma_to_digits_of_value};
use vstd::arithmetic::power::{pow, lemma_pow_increases};

verus! {

/// The character for one decimal digit.
pub open spec fn dec_char(d: u8) -> char {
    if d == 0 { '0' } else if d == 1 { '1' } else if d == 2 { '2' } else if d == 3 { '3' }
    else if d == 4 { '4' } else if d == 5 { '5' } else if d == 6 { '6' } else if d == 7 { '7' }
    else if d == 8 { '8' } else { '9' }
}

/// The decimal digit denoted by a character, if any.
pub open spec fn dec_val(c: char) -> Option<u8> {
    if c == '0' { Some(0u8) } else if c == '1' { Some(1u8) } else if c == '2' { Some(2u8) }
    else if c == '3' { Some(3u8) } else if c == '4' { Some(4u8) } else if c == '5' { Some(5u8) }
    else if c == '6' { Some(6u8) } else if c == '7' { Some(7u8) } else if c == '8' { Some(8u8) }
    else if c == '9' { Some(9u8) } else { None }
}

/// The character for one hexadecimal digit, lower case.
pub open spec fn hex_char(d: u8) -> char {
    if d < 10 { dec_char(d) } else if d == 10 { 'a' } else if d == 11 { 'b' }
    else if d == 12 { 'c' } else if d == 13 { 'd' } else if d == 14 { 'e' } else { 'f' }
}

/// The hexadecimal digit denoted by a character, if any (lower case only).
pub open spec fn hex_val(c: char) -> Option<u8> {
    if c == 'a' { Some(10u8) } else if c == 'b' { Some(11u8) } else if c == 'c' { Some(12u8) }
    else if c == 'd' { Some(13u8) } else if c == 'e' { Some(14u8) } else if c == 'f' { Some(15u8) }
    else { dec_val(c) }
}

pub proof fn lemma_dec_char_val(d: u8)
    requires
        d < 10,
    ensures
        dec_val(dec_char(d)) == Some(d),
{
}

pub proof fn lemma_hex_char_val(d: u8)
    requires
        d < 16,
    ensures
        hex_val(hex_char(d)) == Some(d),
{
}

/// A digit-denoting character is its digit's rendering.
pub proof fn lemma_hex_val_char(c: char)
    requires
        hex_val(c) is Some,
    ensures
        hex_val(c).unwrap() < 16,
        hex_char(hex_val(c).unwrap()) == c,
{
}

/// A character that denotes no hexadecimal digit is no digit's rendering.
pub proof fn lemma_hex_val_none(c: char)
    requires
        hex_val(c) is None,
    ensures
        forall|d: u8| d < 16 ==> hex_char(d) != c,
{
    assert forall|d: u8| d < 16 implies hex_char(d) != c by {
        lemma_hex_char_val(d);
    }
}

pub fn dec_char_of(d: u8) -> (c: char)
    requires
        d < 10,
    ensures
        c == dec_char(d),
{
    if d == 0 { '0' } else if d == 1 { '1' } else if d == 2 { '2' } else if d == 3 { '3' }
    else if d == 4 { '4' } else if d == 5 { '5' } else if d == 6 { '6' } else if d == 7 { '7' }
    else if d == 8 { '8' } else { '9' }
}

pub fn dec_val_of(c: char) -> (r: Option<u8>)
    ensures
        r == dec_val(c),
{
    if c == '0' { Some(0u8) } else if c == '1' { Some(1u8) } else if c == '2' { Some(2u8) }
    else if c == '3' { Some(3u8) } else if c == '4' { Some(4u8) } else if c == '5' { Some(5u8) }
    else if c == '6' { Some(6u8) } else if c == '7' { Some(7u8) } else if c == '8' { Some(8u8) }
    else if c == '9' { Some(9u8) } else { None }
}

pub fn hex_char_of(d: u8) -> (c: char)
    requires
        d < 16,
    ensures
        c == hex_char(d),
{
    if d < 10 { dec_char_of(d) } else if d == 10 { 'a' } else if d == 11 { 'b' }
    else if d == 12 { 'c' } else if d == 13 { 'd' } else if d == 14 { 'e' } else { 'f' }
}

pub fn hex_val_of(c: char) -> (r: Option<u8>)
    ensures
        r == hex_val(c),
{
    if c == 'a' { Some(10u8) } else if c == 'b' { Some(11u8) } else if c == 'c' { Some(12u8) }
    else if c == 'd' { Some(13u8) } else if c == 'e' { Some(14u8) } else if c == 'f' { Some(15u8) }
    else { dec_val_of(c) }
}

/// Relies on `String::push`: appends exactly the one given character.
#[verifier::external_body]
pub fn push_char(s: &mut String, c: char)
    ensures
        final(s)@ == old(s)@.push(c),
{
    s.push(c);
}

/// Character-for-character string comparison.
pub fn str_eq(a: &str, b: &str) -> (r: bool)
    ensures
        r == (a@ == b@),
{
    let n = a.unicode_len();
    if n != b.unicode_len() {
        assert(a@.len() != b@.len());
        return false;
    }
    let mut i: usize = 0;
    while i < n
        invariant
            n == a@.len(),
            n == b@.len(),
            0 <= i <= n,
            forall|k: int| 0 <= k < i ==> a@[k] == b@[k],
        decreases n - i,
    {
        if a.get_char(i) != b.get_char(i) {
            return false;
        }
        i += 1;
    }
    proof {
        assert(a@ =~= b@);
    }
    true
}

/// The decimal rendering of a nonnegative integer, as characters.
pub open spec fn nat_chars(v: int) -> Seq<char> {
    dec_digits(v).map_values(|d: u8| dec_char(d))
}

/// The decimal rendering of a signed integer, as characters.
pub open spec fn int_chars(v: int) -> Seq<char> {
    if v < 0 {
        seq!['-'] + nat_chars(-v)
    } else {
        nat_chars(v)
    }
}

/// Appends the decimal rendering of `v` to `out`.
pub fn push_nat_chars(out: &mut String, v: u64)
    ensures
        final(out)@ == old(out)@ + nat_chars(v as int),
{
    proof {
        lemma_dec_digits_props(v as int);
    }
    let ghost gd = dec_digits(v as int);
    let mut digits: Vec<u8> = Vec::new();
    let mut rem: u64 = v;
    digits.push((rem % 10) as u8);
    rem = rem / 10;
    proof {
        if v >= 10 {
            assert(gd == dec_digits(rem as int).push((v % 10) as u8));
            assert(gd =~= dec_digits(rem as int) + digits@.reverse());
        } else {
            assert(gd =~= digits@.reverse());
        }
    }
    while rem > 0
        invariant
            digits.len() >= 1,
            rem > 0 ==> gd =~= dec_digits(rem as int) + digits@.reverse(),
            rem == 0 ==> gd =~= digits@.reverse(),
        decreases rem,
    {
        proof {
            lemma_dec_digits_props(rem as int);
        }
        let ghost olddigits = digits@;
        let ghost oldrem = rem;
        digits.push((rem % 10) as u8);
        rem = rem / 10;
        proof {
            assert(digits@.reverse() =~= seq![(oldrem % 10) as u8] + olddigits.reverse());
            if rem > 0 {
                assert(dec_digits(oldrem as int) == dec_digits(rem as int).push(
                    (oldrem % 10) as u8,
                ));
                assert(dec_digits(rem as int) + digits@.reverse() =~= dec_digits(oldrem as int)
                    + olddigits.reverse());
            } else {
                assert(oldrem < 10);
                assert(dec_digits(oldrem as int) =~= seq![(oldrem % 10) as u8]);
                assert(digits@.reverse() =~= dec_digits(oldrem as int) + olddigits.reverse());
            }
        }
    }
    let n = digits.len();
    let ghost mid = out@;
    let mut k: usize = 0;
    proof {
        assert(gd.len() == n);
        assert(forall|j: int| 0 <= j < n ==> gd[j] == digits@.reverse()[j]);
        assert(forall|j: int| 0 <= j < n ==> gd[j] == digits@[n - 1 - j]);
    }
    while k < n
        invariant
            n == digits.len(),
            n == gd.len(),
            0 <= k <= n,
            forall|j: int| 0 <= j < n ==> gd[j] == digits@[n - 1 - j],
            forall|j: int| 0 <= j < gd.len() ==> #[trigger] gd[j] < 10,
            out@ == mid + gd.subrange(0, k as int).map_values(|d: u8| dec_char(d)),
        decreases n - k,
    {
        proof {
            assert(digits@[n - 1 - k] == gd[k as int]);
        }
        let c = dec_char_of(digits[n - 1 - k]);
        push_char(out, c);
        proof {
            assert(gd.subrange(0, k + 1).map_values(|d: u8| dec_char(d)) =~= gd.subrange(
                0,
                k as int,
            ).map_values(|d: u8| dec_char(d)).push(dec_char(gd[k as int])));
        }
        k += 1;
    }
    proof {
        assert(gd.subrange(0, n as int) =~= gd);
        assert(out@ =~= mid + nat_chars(v as int));
    }
}

/// Appends the decimal rendering of a signed 32-bit integer to `out`.
pub fn push_int_chars(out: &mut String, v: i32)
    ensures
        final(out)@ == old(out)@ + int_chars(v as int),
{
    if v < 0 {
        push_char(out, '-');
        let m: u64 = (-(v as i64)) as u64;
        let ghost mid = out@;
        push_nat_chars(out, m);
        proof {
            assert(out@ =~= old(out)@ + (seq!['-'] + nat_chars(m as int)));
        }
    } else {
        push_nat_chars(out, v as u64);
    }
}

/// The run of decimal digits starting at `i`: their values, and the
/// position just past the run.
pub open spec fn scan_digits(s: Seq<char>, i: int) -> (Seq<u8>, int)
    decreases s.len() - i,
    when i >= 0
{
    if 0 <= i < s.len() && dec_val(s[i]) is Some {
        let r = scan_digits(s, i + 1);
        (seq![dec_val(s[i]).unwrap()] + r.0, r.1)
    } else {
        (Seq::empty(), i)
    }
}

/// What `scan_digits` returns: the digits it read, character by
/// character, ending at the first non-digit.
pub proof fn lemma_scan_digits_chars(s: Seq<char>, i: int)
    requires
        0 <= i <= s.len(),
    ensures
        ({
            let (ds, j) = scan_digits(s, i);
            &&& j == i + ds.len()
            &&& j <= s.len()
            &&& forall|k: int| 0 <= k < ds.len() ==> dec_val(s[i + k]) == Some(#[trigger] ds[k])
            &&& (j == s.len() || dec_val(s[j]) is None)
        }),
    decreases s.len() - i,
{
    if 0 <= i < s.len() && dec_val(s[i]) is Some {
        lemma_scan_digits_chars(s, i + 1);
        let r = scan_digits(s, i + 1);
        let ds = scan_digits(s, i).0;
        assert(ds == seq![dec_val(s[i]).unwrap()] + r.0);
        assert forall|k: int| 0 <= k < ds.len() implies dec_val(s[i + k]) == Some(
            #[trigger] ds[k],
        ) by {
            if k > 0 {
                assert(ds[k] == r.0[k - 1]);
            }
        }
    }
}

/// Scanning a rendered digit run yields exactly those digits.
pub proof fn lemma_scan_digits_complete(s: Seq<char>, i: int, ds: Seq<u8>)
    requires
        0 <= i,
        i + ds.len() <= s.len(),
        forall|k: int| 0 <= k < ds.len() ==> #[trigger] ds[k] < 10,
        forall|k: int| 0 <= k < ds.len() ==> s[i + k] == dec_char(#[trigger] ds[k]),
        i + ds.len() == s.len() || dec_val(s[i + ds.len()]) is None,
    ensures
        scan_digits(s, i) == (ds, i + ds.len()),
    decreases ds.len(),
{
    if ds.len() == 0 {
        if i < s.len() {
            assert(dec_val(s[i]) is None);
        }
    } else {
        assert(s[i] == dec_char(ds[0]));
        lemma_dec_char_val(ds[0]);
        let tail = ds.drop_first();
        assert forall|k: int| 0 <= k < tail.len() implies s[i + 1 + k] == dec_char(
            #[trigger] tail[k],
        ) by {
            assert(tail[k] == ds[k + 1]);
        }
        lemma_scan_digits_complete(s, i + 1, tail);
        assert(seq![dec_val(s[i]).unwrap()] + tail =~= ds);
    }
}

/// A signed decimal integer scanned at `i`: canonical form only (no
/// leading zeros, no negative zero), within the 32-bit signed range.
pub open spec fn scan_int(s: Seq<char>, i: int) -> Option<(int, int)> {
    let neg = 0 <= i < s.len() && s[i] == '-';
    let i1 = if neg { i + 1 } else { i };
    let (ds, j) = scan_digits(s, i1);
    if ds.len() == 0 {
        None
    } else if ds[0] == 0 && (ds.len() > 1 || neg) {
        None
    } else {
        let m = digits_value(10, ds);
        let v = if neg { -m } else { m };
        if -0x80000000 <= v <= 0x7fffffff {
            Some((v, j))
        } else {
            None
        }
    }
}

/// Scanning the rendering of a 32-bit integer yields that integer, when
/// the run is properly terminated.
pub proof fn lemma_scan_int_complete(s: Seq<char>, i: int, v: i32)
    requires
        0 <= i,
        i + int_chars(v as int).len() <= s.len(),
        s.subrange(i, i + int_chars(v as int).len()) =~= int_chars(v as int),
        i + int_chars(v as int).len() == s.len() || dec_val(
            s[i + int_chars(v as int).len()],
        ) is None,
    ensures
        scan_int(s, i) == Some((v as int, i + int_chars(v as int).len())),
{
    let m: int = if v < 0 { -(v as int) } else { v as int };
    lemma_dec_digits_props(m);
    let ds = dec_digits(m);
    let nc = nat_chars(m);
    assert(nc.len() == ds.len());
    let i1: int = if v < 0 { i + 1 } else { i };
    assert forall|k: int| 0 <= k < ds.len() implies s[i1 + k] == dec_char(#[trigger] ds[k]) by {
        if v < 0 {
            assert(int_chars(v as int)[1 + k] == nc[k]);
            assert(s[i + 1 + k] == s.subrange(i, i + int_chars(v as int).len())[1 + k]);
        } else {
            assert(s[i + k] == s.subrange(i, i + int_chars(v as int).len())[k]);
        }
        assert(nc[k] == dec_char(ds[k]));
    }
    if v < 0 {
        assert(s[i] == int_chars(v as int)[0]);
        assert(s[i] == '-');
        assert(dec_val('-') is None);
    } else {
        assert(s[i] == nc[0]);
        assert(s[i] == dec_char(ds[0]));
        assert(s[i] != '-') by {
            lemma_dec_char_val(ds[0]);
        }
    }
    lemma_scan_digits_complete(s, i1, ds);
    assert(ds[0] == 0 <==> m == 0);
    if v < 0 {
        assert(m > 0);
        assert(ds[0] != 0);
    }
}

/// Reads a canonical signed decimal integer at position `i`, exactly as
/// `scan_int` describes.
pub fn scan_int_at(s: &str, i: usize) -> (r: Option<(i32, usize)>)
    requires
        i <= s@.len(),
    ensures
        match r {
            Some((v, j)) => scan_int(s@, i as int) == Some((v as int, j as int)) && i < j
                <= s@.len(),
            None => scan_int(s@, i as int) is None,
        },
{
    proof {
        reveal_with_fuel(pow, 12);
        assert(pow(10, 10) == 10000000000);
    }
    let n = s.unicode_len();
    let neg = i < n && s.get_char(i) == '-';
    let i1 = if neg { i + 1 } else { i };
    proof {
        lemma_scan_digits_chars(s@, i1 as int);
    }
    let ghost gds = scan_digits(s@, i1 as int).0;
    let ghost gj = scan_digits(s@, i1 as int).1;
    let mut k: usize = 0;
    let mut acc: u64 = 0;
    let mut d0: u8 = 0;
    proof {
        assert(gds.subrange(0, 0) =~= Seq::<u8>::empty());
        assert(forall|t: int| 0 <= t < gds.len() ==> #[trigger] gds[t] < 10);
    }
    loop
        invariant
            i <= s@.len(),
            neg == ((i as int) < s@.len() && s@[i as int] == '-'),
            i1 as int == (if neg { i + 1 } else { i as int }),
            gds == scan_digits(s@, i1 as int).0,
            gj == scan_digits(s@, i1 as int).1,
            i1 + gds.len() == gj <= s@.len() == n,
            0 <= k <= gds.len(),
            k <= 10,
            acc as int == digits_value(10, gds.subrange(0, k as int)),
            (acc as int) < pow(10, k as nat),
            pow(10, 10) == 10000000000,
            k > 0 ==> d0 == gds[0],
            forall|t: int| 0 <= t < gds.len() ==> #[trigger] gds[t] < 10,
            forall|t: int| 0 <= t < gds.len() ==> dec_val(s@[i1 + t]) == Some(
                #[trigger] gds[t],
            ),
            gj == s@.len() || dec_val(s@[gj]) is None,
        ensures
            k == gds.len(),
            acc as int == digits_value(10, gds.subrange(0, k as int)),
            k > 0 ==> d0 == gds[0],
            k <= 10,
        decreases gds.len() - k,
    {
        let pos = i1 + k;
        if pos >= n {
            proof {
                assert(k == gds.len());
            }
            break;
        }
        let c = s.get_char(pos);
        match dec_val_of(c) {
            None => {
                proof {
                    if k < gds.len() {
                        assert(dec_val(s@[i1 + k]) == Some(gds[k as int]));
                    }
                }
                break;
            },
            Some(d) => {
                proof {
                    if k == gds.len() {
                        assert(dec_val(s@[gj]) is None);
                    }
                }
                if k == 10 {
                    // an eleventh digit: the value cannot fit a 32-bit integer
                    proof {
                        assert(k < gds.len());
                        assert(gds.len() >= 11);
                        if gds[0] != 0 {
                            lemma_digits_value_lower(10, gds);
                            lemma_pow_increases(10, 10, (gds.len() - 1) as nat);
                            assert(digits_value(10, gds) >= 10000000000);
                        }
                        assert(scan_int(s@, i as int) is None);
                    }
                    return None;
                }
                if k == 0 {
                    d0 = d;
                }
                proof {
                    lemma_to_digits_of_value(10, gds.subrange(0, k + 1));
                    assert(gds.subrange(0, k + 1).drop_last() =~= gds.subrange(0, k as int));
                    assert(digits_value(10, gds.subrange(0, k + 1)) == digits_value(
                        10,
                        gds.subrange(0, k as int),
                    ) * 10 + gds[k as int]);
                    lemma_pow_increases(10, (k + 1) as nat, 10);
                }
                acc = acc * 10 + (d as u64);
                k += 1;
            },
        }
    }
    proof {
        assert(k == gds.len());
        assert(gds.subrange(0, k as int) =~= gds);
    }
    if k == 0 {
        return None;
    }
    if d0 == 0 && (k > 1 || neg) {
        return None;
    }
    let j = i1 + k;
    if neg {
        if acc > 0x80000000u64 {
            return None;
        }
        let v: i32 = (-(acc as i64)) as i32;
        proof {
            assert(v as int == -(acc as int));
        }
        Some((v, j))
    } else {
        if acc > 0x7fffffffu64 {
            return None;
        }
        Some((acc as i32, j))
    }
}

} // verus!
