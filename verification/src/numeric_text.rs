//! Recognition of numeric text.
//!
//! A trimmed field counts as numeric-looking when its text is acceptable to a
//! 64-bit signed integer parse or to a 64-bit floating-point parse.  Both
//! acceptance conditions are purely syntactic and are stated here as spec
//! functions; the recognizers are proved against them.
//!
//! Integer text is an optional sign followed by decimal digits, with the
//! value within the signed 64-bit range (leading zeros allowed).  Float text
//! is an optional sign followed by `inf`, `infinity` or `nan` in any letter
//! case, or by a decimal mantissa with an optional exponent; every such text
//! is accepted by the float parse regardless of magnitude.

use crate::line_fields::{
    char_to_lower, digit_char_value, eq_ignore_case, first_index_of, is_digit_char,
    lemma_first_index_of, lower_char, lower_seq,
};
use vstd::prelude::*;
use vstd::string::*;

verus! {

/// The magnitude bound for integer text with a minus sign.
pub open spec fn i64_negative_magnitude_bound() -> nat {
    0x8000_0000_0000_0000nat
}

/// The magnitude bound for integer text without a minus sign.
pub open spec fn i64_positive_magnitude_bound() -> nat {
    0x7fff_ffff_ffff_ffffnat
}

/// Whether every character of `s` is a decimal digit.
pub open spec fn all_digit_chars(s: Seq<char>) -> bool {
    forall|k: int| 0 <= k < s.len() ==> is_digit_char(s[k])
}

/// The numeric value of a text of decimal digits, most significant first.
pub open spec fn digits_value(s: Seq<char>) -> nat
    decreases s.len(),
{
    if s.len() == 0 {
        0
    } else {
        digits_value(s.drop_last()) * 10 + digit_char_value(s[s.len() - 1])
    }
}

/// The text after an optional leading sign.
pub open spec fn strip_sign(s: Seq<char>) -> Seq<char> {
    if s.len() > 0 && (s[0] == '+' || s[0] == '-') {
        s.drop_first()
    } else {
        s
    }
}

/// Whether the text begins with a minus sign.
pub open spec fn has_minus_sign(s: Seq<char>) -> bool {
    s.len() > 0 && s[0] == '-'
}

/// Whether a 64-bit signed integer parse accepts the text.
pub open spec fn parses_as_i64(s: Seq<char>) -> bool {
    let body = strip_sign(s);
    body.len() > 0 && all_digit_chars(body) && digits_value(body) <= (if has_minus_sign(s) {
        i64_negative_magnitude_bound()
    } else {
        i64_positive_magnitude_bound()
    })
}

/// Whether the (lowercased) text is one of the special float spellings.
pub open spec fn is_special_float_text(b: Seq<char>) -> bool {
    b == "inf"@ || b == "infinity"@ || b == "nan"@
}

/// Whether the (lowercased, unsigned) text is a decimal mantissa: digits,
/// or digits around one dot with at least one digit present.
pub open spec fn is_mantissa_text(m: Seq<char>) -> bool {
    let d = first_index_of(m, '.');
    if !(0 <= d < m.len()) {
        m.len() > 0 && all_digit_chars(m)
    } else {
        all_digit_chars(m.subrange(0, d)) && all_digit_chars(m.subrange(d + 1, m.len() as int))
            && m.len() > 1
    }
}

/// Whether the (lowercased) text is an exponent body: an optional sign
/// followed by at least one digit.
pub open spec fn is_exponent_text(x: Seq<char>) -> bool {
    let y = strip_sign(x);
    y.len() > 0 && all_digit_chars(y)
}

/// Whether a 64-bit floating-point parse accepts the text.
pub open spec fn parses_as_f64(s: Seq<char>) -> bool {
    let b = strip_sign(lower_seq(s));
    is_special_float_text(b) || {
        let e = first_index_of(b, 'e');
        if !(0 <= e < b.len()) {
            is_mantissa_text(b)
        } else {
            is_mantissa_text(b.subrange(0, e)) && is_exponent_text(
                b.subrange(e + 1, b.len() as int),
            )
        }
    }
}

/// Whether the text is numeric-looking: acceptable to either parse.
pub open spec fn is_numeric_text(s: Seq<char>) -> bool {
    parses_as_i64(s) || parses_as_f64(s)
}

/// Lowercasing leaves a text without uppercase letters unchanged.
pub proof fn lemma_lower_seq_fixed(s: Seq<char>)
    requires
        forall|k: int| 0 <= k < s.len() ==> lower_char(s[k]) == s[k],
    ensures
        lower_seq(s) =~= s,
{
}

/// Lowercasing twice is the same as lowercasing once.
pub proof fn lemma_lower_seq_idempotent(s: Seq<char>)
    ensures
        lower_seq(lower_seq(s)) =~= lower_seq(s),
{
    assert forall|k: int| 0 <= k < s.len() implies lower_char(lower_char(s[k])) == lower_char(
        s[k],
    ) by {}
}

/// Lowercasing does not change whether a float parse accepts the text.
pub proof fn lemma_parses_as_f64_lower(s: Seq<char>)
    ensures
        parses_as_f64(lower_seq(s)) == parses_as_f64(s),
{
    lemma_lower_seq_idempotent(s);
}

/// Lowercasing does not change whether an integer parse accepts the text.
pub proof fn lemma_parses_as_i64_lower(s: Seq<char>)
    ensures
        parses_as_i64(lower_seq(s)) == parses_as_i64(s),
{
    let l = lower_seq(s);
    if s.len() == 0 {
    } else {
        assert(l[0] == lower_char(s[0]));
        assert((l[0] == '+' || l[0] == '-') == (s[0] == '+' || s[0] == '-'));
        let bs = strip_sign(s);
        let bl = strip_sign(l);
        assert(bl =~= lower_seq(bs));
        assert forall|k: int| 0 <= k < bs.len() implies is_digit_char(lower_seq(bs)[k])
            == is_digit_char(bs[k]) by {}
        if all_digit_chars(bs) {
            assert forall|k: int| 0 <= k < bs.len() implies lower_char(bs[k]) == bs[k] by {}
            lemma_lower_seq_fixed(bs);
        } else {
            let w = choose|k: int| 0 <= k < bs.len() && !is_digit_char(bs[k]);
            assert(!is_digit_char(bl[w]));
        }
    }
}

/// Two texts whose characters are digits at the same positions are either
/// both all-digit or both not; stated over a window of the longer text.
proof fn lemma_all_digits_window(s: Seq<char>, t: Seq<char>, a: int, b: int)
    requires
        0 <= a <= b <= s.len(),
        t.len() == b - a,
        forall|k: int| 0 <= k < t.len() ==> is_digit_char(t[k]) == is_digit_char(s[k + a]),
    ensures
        all_digit_chars(t) == (forall|k: int| a <= k < b ==> is_digit_char(s[k])),
{
    if all_digit_chars(t) {
        assert forall|k: int| a <= k < b implies is_digit_char(s[k]) by {
            assert(is_digit_char(t[k - a]));
        }
    }
    if forall|k: int| a <= k < b ==> is_digit_char(s[k]) {
        assert forall|k: int| 0 <= k < t.len() implies is_digit_char(t[k]) by {
            assert(is_digit_char(s[k + a]));
        }
    }
}

/// Whether `c` is a decimal digit.
pub fn char_is_digit(c: char) -> (r: bool)
    ensures
        r == is_digit_char(c),
{
    '0' <= c && c <= '9'
}

/// Whether every character of `s` in the index range `[from, to)` is a
/// decimal digit.
fn range_all_digits(s: &str, from: usize, to: usize) -> (r: bool)
    requires
        from as int <= to as int <= s@.len(),
    ensures
        r == (forall|k: int| from <= k < to ==> is_digit_char(s@[k])),
{
    let mut i: usize = from;
    while i < to
        invariant
            from <= i <= to,
            to as int <= s@.len(),
            forall|k: int| from <= k < i ==> is_digit_char(s@[k]),
        decreases to - i,
    {
        if !char_is_digit(s.get_char(i)) {
            return false;
        }
        i = i + 1;
    }
    true
}

/// Whether a 64-bit signed integer parse accepts the text.
pub fn is_integer_literal(s: &str) -> (r: bool)
    ensures
        r == parses_as_i64(s@),
{
    let n = s.unicode_len();
    if n == 0 {
        return false;
    }
    let first = s.get_char(0);
    let negative = first == '-';
    let start: usize = if first == '-' || first == '+' {
        1
    } else {
        0
    };
    proof {
        assert(strip_sign(s@) =~= s@.subrange(start as int, n as int));
    }
    if start == n {
        return false;
    }
    let bound: u64 = if negative {
        0x8000_0000_0000_0000
    } else {
        0x7fff_ffff_ffff_ffff
    };
    let mut acc: u64 = 0;
    let mut over = false;
    let mut i: usize = start;
    while i < n
        invariant
            start <= i <= n,
            n == s@.len(),
            start < n,
            strip_sign(s@) == s@.subrange(start as int, n as int),
            negative == has_minus_sign(s@),
            bound == (if negative {
                i64_negative_magnitude_bound()
            } else {
                i64_positive_magnitude_bound()
            }),
            forall|k: int| start <= k < i ==> is_digit_char(s@[k]),
            !over ==> acc as nat == digits_value(s@.subrange(start as int, i as int)) && acc
                <= bound,
            over ==> digits_value(s@.subrange(start as int, i as int)) > bound,
        decreases n - i,
    {
        let c = s.get_char(i);
        if !char_is_digit(c) {
            proof {
                assert(strip_sign(s@)[i - start] == s@[i as int]);
            }
            return false;
        }
        let d: u64 = ((c as u32) - ('0' as u32)) as u64;
        proof {
            assert(d as nat == digit_char_value(c));
            let pre = s@.subrange(start as int, i as int);
            let ext = s@.subrange(start as int, i as int + 1);
            assert(ext.drop_last() =~= pre);
            assert(ext[ext.len() - 1] == s@[i as int]);
            assert(digits_value(ext) == digits_value(pre) * 10 + d);
        }
        if !over {
            if acc > (bound - d) / 10 {
                proof {
                    let q = (bound - d) / 10;
                    assert(bound - d == 10 * q + (bound - d) % 10) by {
                        assert((bound - d) / 10 * 10 + (bound - d) % 10 == bound - d);
                    }
                    assert(acc as nat * 10 + d > bound);
                }
                over = true;
            } else {
                proof {
                    let q = (bound - d) / 10;
                    assert(bound - d == 10 * q + (bound - d) % 10) by {
                        assert((bound - d) / 10 * 10 + (bound - d) % 10 == bound - d);
                    }
                    assert(acc as nat * 10 + d <= bound);
                }
                acc = acc * 10 + d;
            }
        } else {
            proof {
                let pre = s@.subrange(start as int, i as int);
                assert(digits_value(pre) * 10 + d > bound);
            }
        }
        i = i + 1;
    }
    proof {
        assert(s@.subrange(start as int, i as int) =~= strip_sign(s@));
    }
    !over
}

/// Whether the text, lowercased, is a decimal mantissa.
fn check_mantissa(m: &str) -> (r: bool)
    ensures
        r == is_mantissa_text(lower_seq(m@)),
{
    let n = m.unicode_len();
    let ghost l = lower_seq(m@);
    let mut j: usize = 0;
    let mut dot: usize = n;
    let mut found = false;
    while j < n
        invariant
            0 <= j <= n,
            n == m@.len(),
            !found ==> dot == n && forall|k: int| 0 <= k < j ==> m@[k] != '.',
            found ==> dot < n && m@[dot as int] == '.' && forall|k: int|
                0 <= k < dot ==> m@[k] != '.',
        decreases n - j,
    {
        if !found && m.get_char(j) == '.' {
            found = true;
            dot = j;
        }
        j = j + 1;
    }
    proof {
        lemma_first_index_of(l, '.');
        assert forall|k: int| 0 <= k < n implies (l[k] == '.') == (m@[k] == '.') by {
            assert(l[k] == lower_char(m@[k]));
        }
        if found {
            assert(l[dot as int] == '.');
            if first_index_of(l, '.') < dot {
                assert(m@[first_index_of(l, '.')] != '.');
            }
            assert(first_index_of(l, '.') == dot);
        } else {
            if first_index_of(l, '.') < l.len() {
                assert(l[first_index_of(l, '.')] == '.');
            }
            assert(first_index_of(l, '.') == l.len());
        }
    }
    if !found {
        let r = n > 0 && range_all_digits(m, 0, n);
        proof {
            assert forall|k: int| 0 <= k < n implies is_digit_char(l[k]) == is_digit_char(
                m@[k],
            ) by {
                assert(l[k] == lower_char(m@[k]));
            }
            lemma_all_digits_window(m@, l, 0, n as int);
        }
        r
    } else {
        let before = range_all_digits(m, 0, dot);
        let after = range_all_digits(m, dot + 1, n);
        let r = before && after && n > 1;
        proof {
            let lb = l.subrange(0, dot as int);
            let la = l.subrange(dot as int + 1, n as int);
            assert forall|k: int| 0 <= k < lb.len() implies is_digit_char(lb[k]) == is_digit_char(
                m@[k],
            ) by {
                assert(lb[k] == lower_char(m@[k]));
            }
            lemma_all_digits_window(m@, lb, 0, dot as int);
            assert forall|k: int| 0 <= k < la.len() implies is_digit_char(la[k]) == is_digit_char(
                m@[k + dot + 1],
            ) by {
                assert(la[k] == lower_char(m@[k + dot + 1]));
            }
            lemma_all_digits_window(m@, la, dot as int + 1, n as int);
        }
        r
    }
}

/// Whether the text, lowercased, is an exponent body.
fn check_exponent(x: &str) -> (r: bool)
    ensures
        r == is_exponent_text(lower_seq(x@)),
{
    let n = x.unicode_len();
    let ghost l = lower_seq(x@);
    if n == 0 {
        return false;
    }
    let first = x.get_char(0);
    let start: usize = if first == '-' || first == '+' {
        1
    } else {
        0
    };
    proof {
        assert(l[0] == lower_char(x@[0]));
        assert(strip_sign(l) =~= l.subrange(start as int, n as int));
    }
    if start == n {
        return false;
    }
    let r = range_all_digits(x, start, n);
    proof {
        let y = l.subrange(start as int, n as int);
        assert forall|k: int| 0 <= k < y.len() implies is_digit_char(y[k]) == is_digit_char(
            x@[k + start],
        ) by {
            assert(y[k] == lower_char(x@[k + start]));
        }
        lemma_all_digits_window(x@, y, start as int, n as int);
    }
    r
}

/// Whether a 64-bit floating-point parse accepts the text.
pub fn is_float_literal(s: &str) -> (r: bool)
    ensures
        r == parses_as_f64(s@),
{
    let n = s.unicode_len();
    let ghost l = lower_seq(s@);
    let ghost b = strip_sign(l);
    proof {
        reveal_strlit("inf");
        reveal_strlit("infinity");
        reveal_strlit("nan");
    }
    if n == 0 {
        return false;
    }
    let first = s.get_char(0);
    let start: usize = if first == '-' || first == '+' {
        1
    } else {
        0
    };
    let rest = s.substring_char(start, n);
    proof {
        assert(l[0] == lower_char(s@[0]));
        assert(b =~= l.subrange(start as int, n as int));
        assert forall|k: int| 0 <= k < b.len() implies b[k] == lower_char(rest@[k]) by {
            assert(rest@[k] == s@[k + start]);
        }
        assert(b =~= lower_seq(rest@));
    }
    let special_inf = eq_ignore_case(rest, "inf");
    let special_infinity = eq_ignore_case(rest, "infinity");
    let special_nan = eq_ignore_case(rest, "nan");
    proof {
        assert(lower_seq("inf"@) =~= "inf"@);
        assert(lower_seq("infinity"@) =~= "infinity"@);
        assert(lower_seq("nan"@) =~= "nan"@);
    }
    if special_inf || special_infinity || special_nan {
        return true;
    }
    let rn = rest.unicode_len();
    let mut j: usize = 0;
    let mut epos: usize = rn;
    let mut found = false;
    while j < rn
        invariant
            0 <= j <= rn,
            rn == rest@.len(),
            !found ==> epos == rn && forall|k: int| 0 <= k < j ==> lower_char(rest@[k]) != 'e',
            found ==> epos < rn && lower_char(rest@[epos as int]) == 'e' && forall|k: int|
                0 <= k < epos ==> lower_char(rest@[k]) != 'e',
        decreases rn - j,
    {
        if !found && char_to_lower(rest.get_char(j)) == 'e' {
            found = true;
            epos = j;
        }
        j = j + 1;
    }
    proof {
        lemma_first_index_of(b, 'e');
        if found {
            assert(b[epos as int] == 'e');
            if first_index_of(b, 'e') < epos {
                assert(lower_char(rest@[first_index_of(b, 'e')]) != 'e');
            }
            assert(first_index_of(b, 'e') == epos);
        } else {
            if first_index_of(b, 'e') < b.len() {
                assert(lower_char(rest@[first_index_of(b, 'e')]) != 'e');
            }
            assert(first_index_of(b, 'e') == b.len());
        }
    }
    if !found {
        let r = check_mantissa(rest);
        r
    } else {
        let mp = rest.substring_char(0, epos);
        let xp = rest.substring_char(epos + 1, rn);
        let rm = check_mantissa(mp);
        let rx = check_exponent(xp);
        proof {
            assert forall|k: int| 0 <= k < epos implies lower_seq(mp@)[k] == b.subrange(
                0,
                epos as int,
            )[k] by {
                assert(mp@[k] == rest@[k]);
            }
            assert(lower_seq(mp@) =~= b.subrange(0, epos as int));
            assert forall|k: int| 0 <= k < b.len() - epos - 1 implies lower_seq(xp@)[k]
                == b.subrange(epos as int + 1, b.len() as int)[k] by {
                assert(xp@[k] == rest@[k + epos + 1]);
            }
            assert(lower_seq(xp@) =~= b.subrange(epos as int + 1, b.len() as int));
        }
        rm && rx
    }
}

/// Whether the text is numeric-looking.
pub fn is_numeric_literal(s: &str) -> (r: bool)
    ensures
        r == is_numeric_text(s@),
{
    is_integer_literal(s) || is_float_literal(s)
}

} // verus!
