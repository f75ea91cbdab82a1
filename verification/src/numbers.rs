//! Decimal rendering of record indices and syntactic validation of
//! floating-point coordinate text.
//!
//! A coordinate is kept as its textual form; this module decides whether
//! that text is a well-formed decimal number (optional sign, digits with
//! an optional fraction part and exponent, or one of the words `inf`,
//! `infinity`, `nan`, case-insensitively).

use vstd::prelude::*;
use crate::text::{copy_range, eq_ci_seq, tail_is_ci};

verus! {

/// The character for one decimal digit value.
pub open spec fn digit_char(d: int) -> char {
    if d == 0 {
        '0'
    } else if d == 1 {
        '1'
    } else if d == 2 {
        '2'
    } else if d == 3 {
        '3'
    } else if d == 4 {
        '4'
    } else if d == 5 {
        '5'
    } else if d == 6 {
        '6'
    } else if d == 7 {
        '7'
    } else if d == 8 {
        '8'
    } else {
        '9'
    }
}

/// The decimal representation of `n`, without leading zeros (except for
/// `n == 0` itself).
pub open spec fn dec_str(n: nat) -> Seq<char>
    decreases n,
{
    if n < 10 {
        seq![digit_char(n as int)]
    } else {
        dec_str(n / 10).push(digit_char((n % 10) as int))
    }
}

/// Decimal representations are never empty.
pub proof fn lemma_dec_str_nonempty(n: nat)
    ensures
        dec_str(n).len() >= 1,
        n >= 10 ==> dec_str(n).len() >= 2,
    decreases n,
{
    if n >= 10 {
        lemma_dec_str_nonempty(n / 10);
    }
}

/// Distinct indices have distinct decimal representations.
pub proof fn lemma_dec_str_injective(a: nat, b: nat)
    requires
        dec_str(a) == dec_str(b),
    ensures
        a == b,
    decreases a + b,
{
    assert(dec_str(a).last() == digit_char((a % 10) as int));
    assert(dec_str(b).last() == digit_char((b % 10) as int));
    assert(a % 10 == b % 10);
    lemma_dec_str_nonempty(a);
    lemma_dec_str_nonempty(b);
    if a < 10 && b < 10 {
    } else if a < 10 {
        assert(dec_str(a).len() == 1);
        assert(dec_str(b).len() >= 2);
    } else if b < 10 {
        assert(dec_str(b).len() == 1);
        assert(dec_str(a).len() >= 2);
    } else {
        assert(dec_str(a).drop_last() =~= dec_str(a / 10));
        assert(dec_str(b).drop_last() =~= dec_str(b / 10));
        lemma_dec_str_injective(a / 10, b / 10);
    }
}

/// The character for one decimal digit value.
fn digit_char_exec(d: u8) -> (c: char)
    requires
        d < 10,
    ensures
        c == digit_char(d as int),
{
    match d {
        0 => '0',
        1 => '1',
        2 => '2',
        3 => '3',
        4 => '4',
        5 => '5',
        6 => '6',
        7 => '7',
        8 => '8',
        _ => '9',
    }
}

/// The decimal representation of `n` as characters.
pub fn dec_chars(n: usize) -> (v: Vec<char>)
    ensures
        v@ == dec_str(n as nat),
    decreases n,
{
    let d: u8 = (n % 10) as u8;
    let c = digit_char_exec(d);
    if n < 10 {
        let mut v: Vec<char> = Vec::new();
        v.push(c);
        proof {
            assert(v@ =~= dec_str(n as nat));
        }
        v
    } else {
        let mut v = dec_chars(n / 10);
        v.push(c);
        v
    }
}

/// Whether `c` is a decimal digit.
pub open spec fn is_digit_char(c: char) -> bool {
    '0' <= c && c <= '9'
}

/// Position of the first non-digit character at or after `i`.
pub open spec fn skip_digits_spec(s: Seq<char>, i: int) -> int
    decreases s.len() - i,
{
    if i < 0 || i >= s.len() || !is_digit_char(s[i]) {
        i
    } else {
        skip_digits_spec(s, i + 1)
    }
}

pub open spec fn inf_chars() -> Seq<char> {
    seq!['i', 'n', 'f']
}

pub open spec fn infinity_chars() -> Seq<char> {
    seq!['i', 'n', 'f', 'i', 'n', 'i', 't', 'y']
}

pub open spec fn nan_chars() -> Seq<char> {
    seq!['n', 'a', 'n']
}

/// From position `i` on, `s` is either finished or holds a well-formed
/// exponent part (`e` or `E`, an optional sign, and at least one digit)
/// that finishes it.
pub open spec fn exp_or_end(s: Seq<char>, i: int) -> bool {
    if i == s.len() {
        true
    } else if 0 <= i < s.len() && (s[i] == 'e' || s[i] == 'E') {
        let j = if i + 1 < s.len() && (s[i + 1] == '+' || s[i + 1] == '-') {
            i + 2
        } else {
            i + 1
        };
        let k = skip_digits_spec(s, j);
        k > j && k == s.len()
    } else {
        false
    }
}

/// `s` is a well-formed unsigned number: digits with an optional
/// fraction part, or a fraction part alone with at least one digit,
/// followed by an optional exponent.
pub open spec fn valid_mantissa(s: Seq<char>) -> bool {
    let d = skip_digits_spec(s, 0);
    if d == 0 {
        &&& s.len() > 0
        &&& s[0] == '.'
        &&& {
            let k = skip_digits_spec(s, 1);
            k > 1 && exp_or_end(s, k)
        }
    } else if d < s.len() && s[d] == '.' {
        exp_or_end(s, skip_digits_spec(s, d + 1))
    } else {
        exp_or_end(s, d)
    }
}

/// `s` is well-formed floating-point text: an optional sign, then a
/// number or one of the words `inf`, `infinity`, `nan` (any case).
pub open spec fn valid_float_text(s: Seq<char>) -> bool {
    let r = if s.len() > 0 && (s[0] == '+' || s[0] == '-') {
        s.drop_first()
    } else {
        s
    };
    ||| eq_ci_seq(r, inf_chars())
    ||| eq_ci_seq(r, infinity_chars())
    ||| eq_ci_seq(r, nan_chars())
    ||| valid_mantissa(r)
}

/// Whether `c` is a decimal digit.
fn is_digit_exec(c: char) -> (r: bool)
    ensures
        r == is_digit_char(c),
{
    c >= '0' && c <= '9'
}

/// First non-digit position at or after `i`.
fn skip_digits(s: &Vec<char>, i: usize) -> (j: usize)
    requires
        i <= s@.len(),
    ensures
        j as int == skip_digits_spec(s@, i as int),
        i <= j <= s@.len(),
    decreases s@.len() - i,
{
    if i < s.len() && is_digit_exec(s[i]) {
        skip_digits(s, i + 1)
    } else {
        i
    }
}

/// Whether `s` is finished at `i` or closes with a well-formed exponent.
fn exp_or_end_exec(s: &Vec<char>, i: usize) -> (r: bool)
    requires
        i <= s@.len(),
    ensures
        r == exp_or_end(s@, i as int),
{
    if i == s.len() {
        true
    } else if s[i] == 'e' || s[i] == 'E' {
        let j: usize = if i + 1 < s.len() && (s[i + 1] == '+' || s[i + 1] == '-') {
            i + 2
        } else {
            i + 1
        };
        let k = skip_digits(s, j);
        k > j && k == s.len()
    } else {
        false
    }
}

/// Whether the whole of `s` is well-formed floating-point text.
pub fn is_float_text(s: &Vec<char>) -> (r: bool)
    ensures
        r == valid_float_text(s@),
{
    let a: usize = if s.len() > 0 && (s[0] == '+' || s[0] == '-') {
        1
    } else {
        0
    };
    let rest = copy_range(s, a, s.len());
    proof {
        if a == 1 {
            assert(rest@ =~= s@.drop_first());
        } else {
            assert(rest@ =~= s@);
        }
        reveal_strlit("inf");
        reveal_strlit("infinity");
        reveal_strlit("nan");
        assert("inf"@ =~= inf_chars());
        assert("infinity"@ =~= infinity_chars());
        assert("nan"@ =~= nan_chars());
    }
    if tail_is_ci(&rest, 0, "inf") || tail_is_ci(&rest, 0, "infinity") || tail_is_ci(
        &rest,
        0,
        "nan",
    ) {
        proof {
            assert(rest@.subrange(0, rest@.len() as int) =~= rest@);
        }
        return true;
    }
    proof {
        assert(rest@.subrange(0, rest@.len() as int) =~= rest@);
    }
    let d = skip_digits(&rest, 0);
    if d == 0 {
        if rest.len() > 0 && rest[0] == '.' {
            let k = skip_digits(&rest, 1);
            k > 1 && exp_or_end_exec(&rest, k)
        } else {
            false
        }
    } else if d < rest.len() && rest[d] == '.' {
        let k = skip_digits(&rest, d + 1);
        exp_or_end_exec(&rest, k)
    } else {
        exp_or_end_exec(&rest, d)
    }
}

} // verus!
