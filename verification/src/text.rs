//! Character-level utilities: whitespace, case folding, literal matching,
//! substring copying, comma splitting and trimming, all specified over
//! `Seq<char>`.

use vstd::prelude::*;
use vstd::std_specs::iter::IteratorSpec;

verus! {

/// Horizontal or vertical whitespace recognised by the scene grammar.
pub open spec fn is_space_char(c: char) -> bool {
    c == ' ' || c == '\t' || c == '\n' || c == '\r' || c == '\u{b}' || c == '\u{c}'
}

/// Case folding for ASCII letters, as a scalar value.
pub open spec fn fold_char(c: char) -> int {
    if 'A' <= c && c <= 'Z' {
        c as u32 + 32
    } else {
        c as int
    }
}

/// Equality of two characters up to ASCII case.
pub open spec fn eq_ci(a: char, b: char) -> bool {
    fold_char(a) == fold_char(b)
}

/// `pat` occurs verbatim in `text` starting at position `i`.
pub open spec fn occurs_at(text: Seq<char>, pat: Seq<char>, i: int) -> bool {
    &&& 0 <= i
    &&& i + pat.len() <= text.len()
    &&& forall|k: int| 0 <= k < pat.len() ==> text[i + k] == pat[k]
}

/// `pat` occurs in `text` at position `i`, up to ASCII case.
pub open spec fn occurs_ci_at(text: Seq<char>, pat: Seq<char>, i: int) -> bool {
    &&& 0 <= i
    &&& i + pat.len() <= text.len()
    &&& forall|k: int| 0 <= k < pat.len() ==> eq_ci(text[i + k], pat[k])
}

/// Position of the first non-whitespace character at or after `i`.
pub open spec fn skip_ws_spec(text: Seq<char>, i: int) -> int
    decreases text.len() - i,
{
    if i < 0 || i >= text.len() || !is_space_char(text[i]) {
        i
    } else {
        skip_ws_spec(text, i + 1)
    }
}

/// Position of the first occurrence of `c` at or after `i`, if any.
pub open spec fn find_char_spec(text: Seq<char>, i: int, c: char) -> Option<int>
    decreases text.len() - i,
{
    if i < 0 || i >= text.len() {
        None
    } else if text[i] == c {
        Some(i)
    } else {
        find_char_spec(text, i + 1, c)
    }
}

/// `s` without leading whitespace.
pub open spec fn trim_start_spec(s: Seq<char>) -> Seq<char>
    decreases s.len(),
{
    if s.len() > 0 && is_space_char(s[0]) {
        trim_start_spec(s.drop_first())
    } else {
        s
    }
}

/// `s` without trailing whitespace.
pub open spec fn trim_end_spec(s: Seq<char>) -> Seq<char>
    decreases s.len(),
{
    if s.len() > 0 && is_space_char(s[s.len() - 1]) {
        trim_end_spec(s.drop_last())
    } else {
        s
    }
}

/// `s` without surrounding whitespace.
pub open spec fn trim_spec(s: Seq<char>) -> Seq<char> {
    trim_end_spec(trim_start_spec(s))
}

/// The comma-separated pieces of `s`, in order; splitting an empty
/// sequence yields one empty piece.
pub open spec fn split_commas(s: Seq<char>) -> Seq<Seq<char>>
    decreases s.len(),
    via split_commas_decreases
{
    match find_char_spec(s, 0, ',') {
        Some(j) => seq![s.subrange(0, j)] + split_commas(s.subrange(j + 1, s.len() as int)),
        None => seq![s],
    }
}

#[via_fn]
proof fn split_commas_decreases(s: Seq<char>) {
    if find_char_spec(s, 0, ',') is Some {
        lemma_find_char_bounds(s, 0, ',');
    }
}

/// Bounds of `skip_ws_spec`: it never moves left, never leaves the text,
/// skips only whitespace and stops on a non-whitespace character.
pub proof fn lemma_skip_ws_bounds(text: Seq<char>, i: int)
    requires
        0 <= i <= text.len(),
    ensures
        i <= skip_ws_spec(text, i) <= text.len(),
        skip_ws_spec(text, i) < text.len() ==> !is_space_char(text[skip_ws_spec(text, i)]),
    decreases text.len() - i,
{
    if i < text.len() && is_space_char(text[i]) {
        lemma_skip_ws_bounds(text, i + 1);
    }
}

/// Bounds of `find_char_spec`: a found position is in range, at or after
/// the start, and holds the character sought.
pub proof fn lemma_find_char_bounds(text: Seq<char>, i: int, c: char)
    requires
        0 <= i,
        find_char_spec(text, i, c) is Some,
    ensures
        i <= find_char_spec(text, i, c)->Some_0 < text.len(),
        text[find_char_spec(text, i, c)->Some_0] == c,
    decreases text.len() - i,
{
    if i < text.len() && text[i] != c {
        lemma_find_char_bounds(text, i + 1, c);
    }
}

/// Collects the characters of a string slice into a vector.
pub fn text_chars(s: &str) -> (v: Vec<char>)
    ensures
        v@ == s@,
{
    broadcast use vstd::string::axiom_spec_iter, vstd::string::next_postcondition;

    let mut v: Vec<char> = Vec::new();
    let mut it = s.chars();
    loop
        invariant
            it.obeys_prophetic_iter_laws(),
            it.decrease() is Some,
            v@ + it.remaining() == s@,
        ensures
            v@ == s@,
        decreases it.decrease()->0,
    {
        match it.next() {
            Some(c) => {
                v.push(c);
            },
            None => {
                proof {
                    assert(v@ =~= s@);
                }
                break ;
            },
        }
    }
    v
}

/// Builds a `String` from a vector of characters.
///
/// Relies on `String`'s `FromIterator<char>` implementation from std:
/// collecting an iterator of characters yields the string of exactly
/// those characters in order.
#[verifier::external_body]
pub fn chars_to_string(v: &Vec<char>) -> (s: String)
    ensures
        s@ == v@,
{
    v.iter().collect()
}

/// Whether `text` starts with `pat` (verbatim) at position `i`.
pub fn match_at(text: &Vec<char>, i: usize, pat: &Vec<char>) -> (r: bool)
    ensures
        r == occurs_at(text@, pat@, i as int),
{
    let tlen = text.len();
    if i > tlen || pat.len() > tlen - i {
        return false;
    }
    let mut k: usize = 0;
    while k < pat.len()
        invariant
            tlen == text@.len(),
            i + pat@.len() <= tlen,
            0 <= k <= pat@.len(),
            forall|m: int| 0 <= m < k ==> text@[i + m] == pat@[m],
        decreases pat@.len() - k,
    {
        if text[i + k] != pat[k] {
            return false;
        }
        k += 1;
    }
    true
}

/// Whether `text` starts with `pat` at position `i`, up to ASCII case.
/// The pattern is given as a string slice of ASCII characters.
pub fn match_ci_at(text: &Vec<char>, i: usize, pat: &str) -> (r: bool)
    ensures
        r == occurs_ci_at(text@, pat@, i as int),
{
    let n = pat.unicode_len();
    let tlen = text.len();
    if i > tlen || n > tlen - i {
        return false;
    }
    let mut k: usize = 0;
    while k < n
        invariant
            n == pat@.len(),
            tlen == text@.len(),
            i + n <= tlen,
            0 <= k <= n,
            forall|m: int| 0 <= m < k ==> eq_ci(text@[i + m], pat@[m]),
        decreases n - k,
    {
        let a = fold_exec(text[i + k]);
        let b = fold_exec(pat.get_char(k));
        if a != b {
            return false;
        }
        k += 1;
    }
    true
}

/// Equality of two character sequences up to ASCII case.
pub open spec fn eq_ci_seq(a: Seq<char>, b: Seq<char>) -> bool {
    a.len() == b.len() && forall|k: int| 0 <= k < a.len() ==> eq_ci(a[k], b[k])
}

/// Whether `s` from position `a` on, compared case-insensitively,
/// equals `pat`, with nothing following.
pub fn tail_is_ci(s: &Vec<char>, a: usize, pat: &str) -> (r: bool)
    requires
        a <= s@.len(),
    ensures
        r == eq_ci_seq(s@.subrange(a as int, s@.len() as int), pat@),
{
    let n = pat.unicode_len();
    if s.len() - a != n {
        return false;
    }
    let r = match_ci_at(s, a, pat);
    proof {
        let tail = s@.subrange(a as int, s@.len() as int);
        if r {
            assert(forall|k: int|
                0 <= k < pat@.len() ==> tail[k] == s@[a + k] && eq_ci(s@[a + k], pat@[k]));
        } else {
            assert(!eq_ci_seq(tail, pat@)) by {
                if eq_ci_seq(tail, pat@) {
                    assert(forall|k: int|
                        0 <= k < pat@.len() ==> eq_ci(s@[a + k], pat@[k]) == eq_ci(
                            tail[k],
                            pat@[k],
                        ));
                }
            }
        }
    }
    r
}

/// ASCII case folding of one character, as a scalar.
fn fold_exec(c: char) -> (r: u32)
    ensures
        r as int == fold_char(c),
{
    if c >= 'A' && c <= 'Z' {
        c as u32 + 32
    } else {
        c as u32
    }
}

/// Whether one character is grammar whitespace.
pub fn is_space_exec(c: char) -> (r: bool)
    ensures
        r == is_space_char(c),
{
    c == ' ' || c == '\t' || c == '\n' || c == '\r' || c == '\u{b}' || c == '\u{c}'
}

/// First non-whitespace position at or after `i`.
pub fn skip_ws(text: &Vec<char>, i: usize) -> (j: usize)
    requires
        i <= text@.len(),
    ensures
        j as int == skip_ws_spec(text@, i as int),
        i <= j <= text@.len(),
    decreases text@.len() - i,
{
    if i < text.len() && is_space_exec(text[i]) {
        skip_ws(text, i + 1)
    } else {
        i
    }
}

/// First position of `c` at or after `i`, if any.
pub fn find_char(text: &Vec<char>, i: usize, c: char) -> (r: Option<usize>)
    requires
        i <= text@.len(),
    ensures
        match r {
            Some(j) => find_char_spec(text@, i as int, c) == Some(j as int) && i <= j
                < text@.len(),
            None => find_char_spec(text@, i as int, c) is None,
        },
    decreases text@.len() - i,
{
    if i >= text.len() {
        None
    } else if text[i] == c {
        Some(i)
    } else {
        find_char(text, i + 1, c)
    }
}

/// Copy of `text[from..to]`, stripped of surrounding whitespace.
pub fn trim_range(text: &Vec<char>, from: usize, to: usize) -> (v: Vec<char>)
    requires
        from <= to <= text@.len(),
    ensures
        v@ == trim_spec(text@.subrange(from as int, to as int)),
{
    let ghost piece = text@.subrange(from as int, to as int);
    let mut a = from;
    while a < to && is_space_exec(text[a])
        invariant
            from <= a <= to <= text@.len(),
            trim_start_spec(piece) == trim_start_spec(text@.subrange(a as int, to as int)),
        decreases to - a,
    {
        proof {
            let cur = text@.subrange(a as int, to as int);
            assert(cur.drop_first() =~= text@.subrange(a + 1, to as int));
        }
        a += 1;
    }
    proof {
        let cur = text@.subrange(a as int, to as int);
        assert(trim_start_spec(cur) == cur);
    }
    let ghost started = text@.subrange(a as int, to as int);
    proof {
        assert(started.subrange(0, (to - a) as int) =~= started);
    }
    let mut b = to;
    while b > a && is_space_exec(text[b - 1])
        invariant
            from <= a <= b <= to <= text@.len(),
            started == text@.subrange(a as int, to as int),
            trim_end_spec(started) == trim_end_spec(
                started.subrange(0, b - a),
            ),
        decreases b,
    {
        proof {
            let cur = started.subrange(0, b - a);
            assert(cur[cur.len() - 1] == text@[b - 1]);
            assert(cur.drop_last() =~= started.subrange(0, b - 1 - a));
        }
        b -= 1;
    }
    proof {
        let cur = started.subrange(0, b - a);
        assert(trim_end_spec(cur) == cur);
        assert(cur =~= text@.subrange(a as int, b as int));
    }
    copy_range(text, a, b)
}

/// The comma-separated pieces of `text[from..to]`, each stripped of
/// surrounding whitespace.
pub fn split_trim_range(text: &Vec<char>, from: usize, to: usize) -> (out: Vec<Vec<char>>)
    requires
        from <= to <= text@.len(),
    ensures
        out@.map_values(|p: Vec<char>| p@) == split_commas(
            text@.subrange(from as int, to as int),
        ).map_values(|p: Seq<char>| trim_spec(p)),
{
    let ghost whole = text@.subrange(from as int, to as int);
    let ghost goal = split_commas(whole).map_values(|p: Seq<char>| trim_spec(p));
    let mut out: Vec<Vec<char>> = Vec::new();
    let mut pos = from;
    loop
        invariant_except_break
            goal =~= out@.map_values(|p: Vec<char>| p@) + split_commas(
                text@.subrange(pos as int, to as int),
            ).map_values(|p: Seq<char>| trim_spec(p)),
        invariant
            from <= pos <= to <= text@.len(),
            whole == text@.subrange(from as int, to as int),
            goal == split_commas(whole).map_values(|p: Seq<char>| trim_spec(p)),
        ensures
            out@.map_values(|p: Vec<char>| p@) =~= goal,
        decreases to - pos,
    {
        let ghost rest = text@.subrange(pos as int, to as int);
        let found = find_range(text, pos, to, ',');
        match found {
            Some(j) => {
                proof {
                    assert(rest.subrange(0, j - pos) =~= text@.subrange(pos as int, j as int));
                    assert(rest.subrange(j - pos + 1, rest.len() as int) =~= text@.subrange(
                        j + 1,
                        to as int,
                    ));
                    let f = |p: Seq<char>| trim_spec(p);
                    assert(split_commas(rest).map_values(f) =~= seq![
                        f(text@.subrange(pos as int, j as int)),
                    ] + split_commas(text@.subrange(j + 1, to as int)).map_values(f));
                }
                let piece = trim_range(text, pos, j);
                out.push(piece);
                pos = j + 1;
            },
            None => {
                proof {
                    let f = |p: Seq<char>| trim_spec(p);
                    assert(split_commas(rest).map_values(f) =~= seq![f(rest)]);
                }
                let piece = trim_range(text, pos, to);
                out.push(piece);
                proof {
                    assert(out@.map_values(|p: Vec<char>| p@) =~= goal);
                }
                break ;
            },
        }
    }
    out
}

/// First position of `c` in `text[from..to]`, if any, as an absolute
/// position; agrees with `find_char_spec` on the subrange.
fn find_range(text: &Vec<char>, from: usize, to: usize, c: char) -> (r: Option<usize>)
    requires
        from <= to <= text@.len(),
    ensures
        ({
            let tail = text@.subrange(from as int, to as int);
            match r {
                Some(j) => from <= j < to && find_char_spec(tail, 0, c) == Some(j - from),
                None => find_char_spec(tail, 0, c) is None,
            }
        }),
{
    let mut k = from;
    while k < to
        invariant
            from <= k <= to <= text@.len(),
            forall|m: int| from <= m < k ==> text@[m] != c,
        decreases to - k,
    {
        if text[k] == c {
            proof {
                lemma_find_in_range(text@, from as int, to as int, k as int, c);
            }
            return Some(k);
        }
        k += 1;
    }
    proof {
        lemma_find_none_in_range(text@, from as int, to as int, 0, c);
    }
    None
}

/// If `c` first occurs at absolute position `j` in `text[from..to]`,
/// the subrange search finds relative position `j - from`.
proof fn lemma_find_in_range(s: Seq<char>, from: int, to: int, j: int, c: char)
    requires
        0 <= from <= j < to <= s.len(),
        s[j] == c,
        forall|m: int| from <= m < j ==> s[m] != c,
    ensures
        find_char_spec(s.subrange(from, to), 0, c) == Some(j - from),
{
    lemma_find_in_range_from(s, from, to, from, j, c);
}

proof fn lemma_find_in_range_from(s: Seq<char>, from: int, to: int, i: int, j: int, c: char)
    requires
        0 <= from <= i <= j < to <= s.len(),
        s[j] == c,
        forall|m: int| i <= m < j ==> s[m] != c,
    ensures
        find_char_spec(s.subrange(from, to), i - from, c) == Some(j - from),
    decreases j - i,
{
    let tail = s.subrange(from, to);
    if i == j {
        assert(tail[i - from] == c);
    } else {
        assert(tail[i - from] != c);
        lemma_find_in_range_from(s, from, to, i + 1, j, c);
    }
}

/// If `c` does not occur in `text[from..to]`, the subrange search fails.
proof fn lemma_find_none_in_range(s: Seq<char>, from: int, to: int, i: int, c: char)
    requires
        0 <= from <= to <= s.len(),
        0 <= i,
        forall|m: int| from + i <= m < to ==> s[m] != c,
    ensures
        find_char_spec(s.subrange(from, to), i, c) is None,
    decreases to - from - i,
{
    let tail = s.subrange(from, to);
    if i < tail.len() {
        assert(tail[i] != c);
        lemma_find_none_in_range(s, from, to, i + 1, c);
    }
}

/// Copy of `text[from..to]` as a fresh vector.
pub fn copy_range(text: &Vec<char>, from: usize, to: usize) -> (v: Vec<char>)
    requires
        from <= to <= text@.len(),
    ensures
        v@ == text@.subrange(from as int, to as int),
{
    let mut v: Vec<char> = Vec::new();
    let mut k: usize = from;
    while k < to
        invariant
            from <= k <= to <= text@.len(),
            v@ == text@.subrange(from as int, k as int),
        decreases to - k,
    {
        v.push(text[k]);
        proof {
            assert(v@ =~= text@.subrange(from as int, k + 1 as int));
        }
        k += 1;
    }
    v
}

} // verus!
