//! Quoted-string text: escaping of the two structural characters
//! (`"` and `\`), and the scanner that reads an escaped string up to and
//! including its closing quote.

use vstd::prelude::*;
use vstd::string::StrSliceExecFns;
use crate::text::push_char;

verus! {

/// The escaped rendering of one character.
pub open spec fn esc_char(c: char) -> Seq<char> {
    if c == '"' || c == '\\' {
        seq!['\\', c]
    } else {
        seq![c]
    }
}

/// The escaped rendering of a string's characters.
pub open spec fn esc_chars(t: Seq<char>) -> Seq<char>
    decreases t.len(),
{
    if t.len() == 0 {
        Seq::empty()
    } else {
        esc_char(t[0]) + esc_chars(t.drop_first())
    }
}

/// Escaping distributes over appending one character at the end.
pub proof fn lemma_esc_push(t: Seq<char>, c: char)
    ensures
        esc_chars(t.push(c)) == esc_chars(t) + esc_char(c),
    decreases t.len(),
{
    if t.len() == 0 {
        assert(t.push(c)[0] == c);
        assert(t.push(c).len() == 1);
        assert(t.push(c).drop_first() =~= Seq::<char>::empty());
        assert(esc_chars(t.push(c)) == esc_char(c) + esc_chars(Seq::<char>::empty()));
        assert(esc_chars(Seq::<char>::empty()) == Seq::<char>::empty());
        assert(esc_chars(t) == Seq::<char>::empty());
        assert(esc_chars(t.push(c)) =~= esc_chars(t) + esc_char(c));
    } else {
        assert(t.push(c).drop_first() =~= t.drop_first().push(c));
        lemma_esc_push(t.drop_first(), c);
        assert(esc_chars(t.push(c)) == esc_char(t[0]) + esc_chars(t.drop_first().push(c)));
        assert(esc_chars(t.push(c)) =~= esc_chars(t) + esc_char(c));
    }
}

/// Appends the escaped rendering of `t` to `out`.
pub fn push_escaped(out: &mut String, t: &str)
    ensures
        final(out)@ == old(out)@ + esc_chars(t@),
{
    let n = t.unicode_len();
    let mut i: usize = 0;
    proof {
        assert(t@.subrange(0, 0) =~= Seq::<char>::empty());
        assert(out@ =~= old(out)@ + esc_chars(t@.subrange(0, 0)));
    }
    while i < n
        invariant
            n == t@.len(),
            0 <= i <= n,
            out@ == old(out)@ + esc_chars(t@.subrange(0, i as int)),
        decreases n - i,
    {
        let c = t.get_char(i);
        if c == '"' || c == '\\' {
            push_char(out, '\\');
            push_char(out, c);
        } else {
            push_char(out, c);
        }
        proof {
            assert(t@.subrange(0, i + 1) =~= t@.subrange(0, i as int).push(t@[i as int]));
            lemma_esc_push(t@.subrange(0, i as int), t@[i as int]);
            assert(out@ =~= old(out)@ + esc_chars(t@.subrange(0, i + 1)));
        }
        i += 1;
    }
    proof {
        assert(t@.subrange(0, n as int) =~= t@);
    }
}

/// Reads an escaped string starting at `i`, through its closing quote:
/// the unescaped content and the position just past the quote.
pub open spec fn scan_string(s: Seq<char>, i: int) -> Option<(Seq<char>, int)>
    decreases s.len() - i,
    when i >= 0
{
    if i >= s.len() {
        None
    } else if s[i] == '"' {
        Some((Seq::empty(), i + 1))
    } else if s[i] == '\\' {
        if i + 1 < s.len() && (s[i + 1] == '"' || s[i + 1] == '\\') {
            match scan_string(s, i + 2) {
                Some(r) => Some((seq![s[i + 1]] + r.0, r.1)),
                None => None,
            }
        } else {
            None
        }
    } else {
        match scan_string(s, i + 1) {
            Some(r) => Some((seq![s[i]] + r.0, r.1)),
            None => None,
        }
    }
}

/// A successful scan moves forward and stays within the text.
pub proof fn lemma_scan_string_bounds(s: Seq<char>, i: int)
    requires
        0 <= i,
    ensures
        scan_string(s, i) matches Some(r) ==> i < r.1 <= s.len(),
    decreases s.len() - i,
{
    if i < s.len() {
        if s[i] == '"' {
        } else if s[i] == '\\' {
            if i + 1 < s.len() && (s[i + 1] == '"' || s[i + 1] == '\\') {
                lemma_scan_string_bounds(s, i + 2);
            }
        } else {
            lemma_scan_string_bounds(s, i + 1);
        }
    }
}

/// Scanning an escaped rendering followed by a quote yields exactly the
/// original content and stops just past that quote.
pub proof fn lemma_scan_string_complete(s: Seq<char>, i: int, t: Seq<char>)
    requires
        0 <= i,
        i + esc_chars(t).len() + 1 <= s.len(),
        s.subrange(i, i + esc_chars(t).len() + 1) =~= esc_chars(t) + seq!['"'],
    ensures
        scan_string(s, i) == Some((t, i + esc_chars(t).len() + 1)),
    decreases t.len(),
{
    let e = esc_chars(t);
    if t.len() == 0 {
        assert(s[i] == (e + seq!['"'])[0]);
        assert(s[i] == '"');
    } else {
        let c = t[0];
        let t2 = t.drop_first();
        let e2 = esc_chars(t2);
        assert(e == esc_char(c) + e2);
        if c == '"' || c == '\\' {
            assert(e[0] == '\\');
            assert(e[1] == c);
            assert(s[i] == (e + seq!['"'])[0]);
            assert(s[i + 1] == (e + seq!['"'])[1]);
            assert(s.subrange(i + 2, i + 2 + e2.len() + 1) =~= e2 + seq!['"']) by {
                assert forall|k: int| 0 <= k < e2.len() + 1 implies s.subrange(
                    i + 2,
                    i + 2 + e2.len() + 1,
                )[k] == (e2 + seq!['"'])[k] by {
                    assert(s[i + 2 + k] == (e + seq!['"'])[2 + k]);
                }
            }
            lemma_scan_string_complete(s, i + 2, t2);
            assert(seq![s[i + 1]] + t2 =~= t);
        } else {
            assert(e[0] == c);
            assert(s[i] == (e + seq!['"'])[0]);
            assert(s[i] == c);
            assert(s.subrange(i + 1, i + 1 + e2.len() + 1) =~= e2 + seq!['"']) by {
                assert forall|k: int| 0 <= k < e2.len() + 1 implies s.subrange(
                    i + 1,
                    i + 1 + e2.len() + 1,
                )[k] == (e2 + seq!['"'])[k] by {
                    assert(s[i + 1 + k] == (e + seq!['"'])[1 + k]);
                }
            }
            lemma_scan_string_complete(s, i + 1, t2);
            assert(seq![s[i]] + t2 =~= t);
        }
    }
}

/// Reads an escaped string at position `i`, exactly as `scan_string`
/// describes, returning the unescaped content and the position past the
/// closing quote.
pub fn scan_string_at(s: &str, i: usize) -> (r: Option<(String, usize)>)
    requires
        i <= s@.len(),
    ensures
        match r {
            Some((t, j)) => scan_string(s@, i as int) == Some((t@, j as int)) && i < j
                <= s@.len(),
            None => scan_string(s@, i as int) is None,
        },
{
    let n = s.unicode_len();
    let mut out = String::new();
    let mut p: usize = i;
    proof {
        let sc = scan_string(s@, i as int);
        if sc is Some {
            assert(Seq::<char>::empty() + sc.unwrap().0 =~= sc.unwrap().0);
        }
    }
    loop
        invariant
            i <= p <= n,
            n == s@.len(),
            scan_string(s@, i as int) == (match scan_string(s@, p as int) {
                Some(r) => Some((out@ + r.0, r.1)),
                None => None::<(Seq<char>, int)>,
            }),
        decreases n - p,
    {
        if p >= n {
            return None;
        }
        let c = s.get_char(p);
        if c == '"' {
            proof {
                assert(scan_string(s@, p as int) == Some((Seq::<char>::empty(), p + 1)));
                assert(out@ + Seq::<char>::empty() =~= out@);
            }
            return Some((out, p + 1));
        } else if c == '\\' {
            if p + 1 < n {
                let c2 = s.get_char(p + 1);
                if c2 == '"' || c2 == '\\' {
                    let ghost oldout = out@;
                    push_char(&mut out, c2);
                    proof {
                        let sc = scan_string(s@, p + 2);
                        if sc is Some {
                            assert(oldout + (seq![s@[p + 1]] + sc.unwrap().0) =~= out@
                                + sc.unwrap().0);
                        }
                    }
                    p = p + 2;
                } else {
                    return None;
                }
            } else {
                return None;
            }
        } else {
            let ghost oldout = out@;
            push_char(&mut out, c);
            proof {
                let sc = scan_string(s@, p + 1);
                if sc is Some {
                    assert(oldout + (seq![s@[p as int]] + sc.unwrap().0) =~= out@
                        + sc.unwrap().0);
                }
            }
            p = p + 1;
        }
    }
}

} // verus!
