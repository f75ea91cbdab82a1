//! Pattern matching for individual shape records.
//!
//! A record is a keyword (`line` or `quad`, any case) followed by a
//! brace-enclosed list of labelled coordinate fields. Keywords and
//! field labels are matched case-insensitively, and whitespace is
//! tolerated between tokens; a field's value runs up to the next `;`
//! and is captured verbatim. The scanners collect every non-overlapping
//! match of a record pattern, left to right.

use vstd::prelude::*;
use crate::text::{
    occurs_ci_at,
    skip_ws_spec,
    find_char_spec,
    trim_spec,
    eq_ci_seq,
    lemma_skip_ws_bounds,
    lemma_find_char_bounds,
    match_ci_at,
    skip_ws,
    find_char,
    copy_range,
    trim_range,
    tail_is_ci,
};

verus! {

/// The captured values of one quad record, in label order
/// (top-left, top-right, bottom-right, bottom-left).
pub struct QuadCaps {
    pub tl: Seq<char>,
    pub tr: Seq<char>,
    pub br: Seq<char>,
    pub bl: Seq<char>,
}

/// One labelled field: the label (case-insensitive), optional
/// whitespace, `=`, a non-empty capture up to the next `;`. The
/// returned position is the first non-whitespace position after that
/// `;`.
pub open spec fn field_match_at(text: Seq<char>, i: int, label: Seq<char>) -> Option<
    (int, Seq<char>),
> {
    if !occurs_ci_at(text, label, i) {
        None
    } else {
        let j = skip_ws_spec(text, i + label.len());
        if !(j < text.len() && text[j] == '=') {
            None
        } else {
            match find_char_spec(text, j + 1, ';') {
                Some(c) => if c > j + 1 {
                    Some((skip_ws_spec(text, c + 1), text.subrange(j + 1, c)))
                } else {
                    None
                },
                None => None,
            }
        }
    }
}

pub open spec fn true_chars() -> Seq<char> {
    seq!['t', 'r', 'u', 'e']
}

pub open spec fn false_chars() -> Seq<char> {
    seq!['f', 'a', 'l', 's', 'e']
}

/// A captured value that reads, after trimming, as a boolean literal.
pub open spec fn is_bool_text(s: Seq<char>) -> bool {
    eq_ci_seq(trim_spec(s), true_chars()) || eq_ci_seq(trim_spec(s), false_chars())
}

pub open spec fn line_kw() -> Seq<char> {
    seq!['l', 'i', 'n', 'e']
}

pub open spec fn quad_kw() -> Seq<char> {
    seq!['q', 'u', 'a', 'd']
}

pub open spec fn line_p4_label() -> Seq<char> {
    seq!['l', 'i', 'n', 'e', ':', 'p', '4']
}

pub open spec fn move_b_label() -> Seq<char> {
    seq!['m', 'o', 'v', 'e', ':', 'b']
}

pub open spec fn tl_label() -> Seq<char> {
    seq!['t', 'l', ':', 'p', '2']
}

pub open spec fn tr_label() -> Seq<char> {
    seq!['t', 'r', ':', 'p', '2']
}

pub open spec fn br_label() -> Seq<char> {
    seq!['b', 'r', ':', 'p', '2']
}

pub open spec fn bl_label() -> Seq<char> {
    seq!['b', 'l', ':', 'p', '2']
}

/// A whole line record starting at `i`: the keyword, `{`, a `line:p4`
/// field whose capture holds the coordinates, a `move:b` field whose
/// capture is a boolean literal (recognised but unused), and `}`.
/// Yields the position after the record and the coordinate capture.
pub open spec fn line_match_at(text: Seq<char>, i: int) -> Option<(int, Seq<char>)> {
    if !occurs_ci_at(text, line_kw(), i) {
        None
    } else {
        let j = skip_ws_spec(text, i + 4);
        if !(j < text.len() && text[j] == '{') {
            None
        } else {
            match field_match_at(text, skip_ws_spec(text, j + 1), line_p4_label()) {
                Some((p, cap)) => match field_match_at(text, p, move_b_label()) {
                    Some((q, bcap)) => if is_bool_text(bcap) && q < text.len() && text[q]
                        == '}' {
                        Some((q + 1, cap))
                    } else {
                        None
                    },
                    None => None,
                },
                None => None,
            }
        }
    }
}

/// A whole quad record starting at `i`: the keyword, `{`, four labelled
/// fields in fixed order (`tl:p2`, `tr:p2`, `br:p2`, `bl:p2`), and `}`.
/// Yields the position after the record and the four captures.
pub open spec fn quad_match_at(text: Seq<char>, i: int) -> Option<(int, QuadCaps)> {
    if !occurs_ci_at(text, quad_kw(), i) {
        None
    } else {
        let j = skip_ws_spec(text, i + 4);
        if !(j < text.len() && text[j] == '{') {
            None
        } else {
            match field_match_at(text, skip_ws_spec(text, j + 1), tl_label()) {
                Some((p1, c1)) => match field_match_at(text, p1, tr_label()) {
                    Some((p2, c2)) => match field_match_at(text, p2, br_label()) {
                        Some((p3, c3)) => match field_match_at(text, p3, bl_label()) {
                            Some((p4, c4)) => if p4 < text.len() && text[p4] == '}' {
                                Some((p4 + 1, QuadCaps { tl: c1, tr: c2, br: c3, bl: c4 }))
                            } else {
                                None
                            },
                            None => None,
                        },
                        None => None,
                    },
                    None => None,
                },
                None => None,
            }
        }
    }
}

/// A matched field strictly advances the position and stays in range.
pub proof fn lemma_field_advances(text: Seq<char>, i: int, label: Seq<char>)
    requires
        field_match_at(text, i, label) is Some,
    ensures
        i < field_match_at(text, i, label)->Some_0.0 <= text.len(),
{
    let j = skip_ws_spec(text, i + label.len());
    lemma_skip_ws_bounds(text, i + label.len());
    let c = find_char_spec(text, j + 1, ';')->Some_0;
    lemma_find_char_bounds(text, j + 1, ';');
    lemma_skip_ws_bounds(text, c + 1);
}

/// A matched line record strictly advances the position.
pub proof fn lemma_line_match_advances(text: Seq<char>, i: int)
    requires
        line_match_at(text, i) is Some,
    ensures
        i < line_match_at(text, i)->Some_0.0 <= text.len(),
{
    let j = skip_ws_spec(text, i + 4);
    lemma_skip_ws_bounds(text, i + 4);
    lemma_skip_ws_bounds(text, j + 1);
    let s = skip_ws_spec(text, j + 1);
    lemma_field_advances(text, s, line_p4_label());
    let p = field_match_at(text, s, line_p4_label())->Some_0.0;
    lemma_field_advances(text, p, move_b_label());
}

/// A matched quad record strictly advances the position.
pub proof fn lemma_quad_match_advances(text: Seq<char>, i: int)
    requires
        quad_match_at(text, i) is Some,
    ensures
        i < quad_match_at(text, i)->Some_0.0 <= text.len(),
{
    let j = skip_ws_spec(text, i + 4);
    lemma_skip_ws_bounds(text, i + 4);
    lemma_skip_ws_bounds(text, j + 1);
    let s = skip_ws_spec(text, j + 1);
    lemma_field_advances(text, s, tl_label());
    let p1 = field_match_at(text, s, tl_label())->Some_0.0;
    lemma_field_advances(text, p1, tr_label());
    let p2 = field_match_at(text, p1, tr_label())->Some_0.0;
    lemma_field_advances(text, p2, br_label());
    let p3 = field_match_at(text, p2, br_label())->Some_0.0;
    lemma_field_advances(text, p3, bl_label());
}

/// Every coordinate capture of a line record in `text` at or after `i`,
/// left to right, non-overlapping.
pub open spec fn scan_lines(text: Seq<char>, i: int) -> Seq<Seq<char>>
    decreases text.len() - i,
    via scan_lines_decreases
{
    if i < 0 || i >= text.len() {
        Seq::empty()
    } else {
        match line_match_at(text, i) {
            Some((end, cap)) => seq![cap] + scan_lines(text, end),
            None => scan_lines(text, i + 1),
        }
    }
}

#[via_fn]
proof fn scan_lines_decreases(text: Seq<char>, i: int) {
    if 0 <= i < text.len() && line_match_at(text, i) is Some {
        lemma_line_match_advances(text, i);
    }
}

/// Every capture quadruple of a quad record in `text` at or after `i`,
/// left to right, non-overlapping.
pub open spec fn scan_quads(text: Seq<char>, i: int) -> Seq<QuadCaps>
    decreases text.len() - i,
    via scan_quads_decreases
{
    if i < 0 || i >= text.len() {
        Seq::empty()
    } else {
        match quad_match_at(text, i) {
            Some((end, caps)) => seq![caps] + scan_quads(text, end),
            None => scan_quads(text, i + 1),
        }
    }
}

#[via_fn]
proof fn scan_quads_decreases(text: Seq<char>, i: int) {
    if 0 <= i < text.len() && quad_match_at(text, i) is Some {
        lemma_quad_match_advances(text, i);
    }
}

/// Tries to match one labelled field at `i`.
fn try_field(text: &Vec<char>, i: usize, label: &str) -> (r: Option<(usize, Vec<char>)>)
    requires
        i <= text@.len(),
    ensures
        match r {
            Some((p, cap)) => field_match_at(text@, i as int, label@) == Some(
                (p as int, cap@),
            ) && i < p <= text@.len(),
            None => field_match_at(text@, i as int, label@) is None,
        },
{
    if !match_ci_at(text, i, label) {
        return None;
    }
    let n = label.unicode_len();
    let tlen = text.len();
    proof {
        assert(i + n <= tlen);
    }
    let j = skip_ws(text, i + n);
    if !(j < text.len() && text[j] == '=') {
        return None;
    }
    match find_char(text, j + 1, ';') {
        Some(c) => {
            if c > j + 1 {
                let cap = copy_range(text, j + 1, c);
                let p = skip_ws(text, c + 1);
                proof {
                    lemma_field_advances(text@, i as int, label@);
                }
                Some((p, cap))
            } else {
                None
            }
        },
        None => None,
    }
}

/// Whether a captured value reads as a boolean literal.
fn is_bool_text_exec(cap: &Vec<char>) -> (r: bool)
    ensures
        r == is_bool_text(cap@),
{
    let t = trim_range(cap, 0, cap.len());
    proof {
        assert(cap@.subrange(0, cap@.len() as int) =~= cap@);
        assert(t@.subrange(0, t@.len() as int) =~= t@);
        reveal_strlit("true");
        reveal_strlit("false");
        assert("true"@ =~= true_chars());
        assert("false"@ =~= false_chars());
    }
    tail_is_ci(&t, 0, "true") || tail_is_ci(&t, 0, "false")
}

/// Tries to match a whole line record at `i`.
pub fn try_line(text: &Vec<char>, i: usize) -> (r: Option<(usize, Vec<char>)>)
    requires
        i <= text@.len(),
    ensures
        match r {
            Some((end, cap)) => line_match_at(text@, i as int) == Some((end as int, cap@)) && i
                < end <= text@.len(),
            None => line_match_at(text@, i as int) is None,
        },
{
    if !match_ci_at(text, i, "line") {
        proof {
            reveal_strlit("line");
            assert("line"@ =~= line_kw());
        }
        return None;
    }
    let tlen = text.len();
    proof {
        reveal_strlit("line");
        assert("line"@ =~= line_kw());
        assert(i + 4 <= tlen);
    }
    let j = skip_ws(text, i + 4);
    if !(j < text.len() && text[j] == '{') {
        return None;
    }
    let s = skip_ws(text, j + 1);
    proof {
        reveal_strlit("line:p4");
        assert("line:p4"@ =~= line_p4_label());
        reveal_strlit("move:b");
        assert("move:b"@ =~= move_b_label());
    }
    match try_field(text, s, "line:p4") {
        Some((p, cap)) => {
            match try_field(text, p, "move:b") {
                Some((q, bcap)) => {
                    if is_bool_text_exec(&bcap) && q < text.len() && text[q] == '}' {
                        proof {
                            lemma_line_match_advances(text@, i as int);
                        }
                        Some((q + 1, cap))
                    } else {
                        None
                    }
                },
                None => None,
            }
        },
        None => None,
    }
}

/// Tries to match a whole quad record at `i`.
pub fn try_quad(text: &Vec<char>, i: usize) -> (r: Option<
    (usize, (Vec<char>, Vec<char>, Vec<char>, Vec<char>)),
>)
    requires
        i <= text@.len(),
    ensures
        match r {
            Some((end, caps)) => quad_match_at(text@, i as int) == Some(
                (
                    end as int,
                    QuadCaps { tl: caps.0@, tr: caps.1@, br: caps.2@, bl: caps.3@ },
                ),
            ) && i < end <= text@.len(),
            None => quad_match_at(text@, i as int) is None,
        },
{
    if !match_ci_at(text, i, "quad") {
        proof {
            reveal_strlit("quad");
            assert("quad"@ =~= quad_kw());
        }
        return None;
    }
    let tlen = text.len();
    proof {
        reveal_strlit("quad");
        assert("quad"@ =~= quad_kw());
        assert(i + 4 <= tlen);
    }
    let j = skip_ws(text, i + 4);
    if !(j < text.len() && text[j] == '{') {
        return None;
    }
    let s = skip_ws(text, j + 1);
    proof {
        reveal_strlit("tl:p2");
        assert("tl:p2"@ =~= tl_label());
        reveal_strlit("tr:p2");
        assert("tr:p2"@ =~= tr_label());
        reveal_strlit("br:p2");
        assert("br:p2"@ =~= br_label());
        reveal_strlit("bl:p2");
        assert("bl:p2"@ =~= bl_label());
    }
    match try_field(text, s, "tl:p2") {
        Some((p1, c1)) => match try_field(text, p1, "tr:p2") {
            Some((p2, c2)) => match try_field(text, p2, "br:p2") {
                Some((p3, c3)) => match try_field(text, p3, "bl:p2") {
                    Some((p4, c4)) => {
                        if p4 < text.len() && text[p4] == '}' {
                            proof {
                                lemma_quad_match_advances(text@, i as int);
                            }
                            Some((p4 + 1, (c1, c2, c3, c4)))
                        } else {
                            None
                        }
                    },
                    None => None,
                },
                None => None,
            },
            None => None,
        },
        None => None,
    }
}

/// Collects the coordinate captures of every line record in `text`.
pub fn scan_lines_exec(text: &Vec<char>) -> (caps: Vec<Vec<char>>)
    ensures
        caps@.map_values(|c: Vec<char>| c@) == scan_lines(text@, 0),
{
    let tlen = text.len();
    let mut caps: Vec<Vec<char>> = Vec::new();
    let mut i: usize = 0;
    while i < tlen
        invariant
            tlen == text@.len(),
            i <= tlen,
            scan_lines(text@, 0) =~= caps@.map_values(|c: Vec<char>| c@) + scan_lines(
                text@,
                i as int,
            ),
        decreases tlen - i,
    {
        match try_line(text, i) {
            Some((end, cap)) => {
                caps.push(cap);
                i = end;
            },
            None => {
                i += 1;
            },
        }
    }
    proof {
        assert(caps@.map_values(|c: Vec<char>| c@) =~= scan_lines(text@, 0));
    }
    caps
}

/// Collects the capture quadruples of every quad record in `text`.
pub fn scan_quads_exec(text: &Vec<char>) -> (caps: Vec<
    (Vec<char>, Vec<char>, Vec<char>, Vec<char>),
>)
    ensures
        caps@.map_values(
            |c: (Vec<char>, Vec<char>, Vec<char>, Vec<char>)|
                QuadCaps { tl: c.0@, tr: c.1@, br: c.2@, bl: c.3@ },
        ) == scan_quads(text@, 0),
{
    let tlen = text.len();
    let mut caps: Vec<(Vec<char>, Vec<char>, Vec<char>, Vec<char>)> = Vec::new();
    let mut i: usize = 0;
    while i < tlen
        invariant
            tlen == text@.len(),
            i <= tlen,
            scan_quads(text@, 0) =~= caps@.map_values(
                |c: (Vec<char>, Vec<char>, Vec<char>, Vec<char>)|
                    QuadCaps { tl: c.0@, tr: c.1@, br: c.2@, bl: c.3@ },
            ) + scan_quads(text@, i as int),
        decreases tlen - i,
    {
        match try_quad(text, i) {
            Some((end, cs)) => {
                let ghost prevm = caps@.map_values(
                    |c: (Vec<char>, Vec<char>, Vec<char>, Vec<char>)|
                        QuadCaps { tl: c.0@, tr: c.1@, br: c.2@, bl: c.3@ },
                );
                caps.push(cs);
                proof {
                    assert(caps@.map_values(
                        |c: (Vec<char>, Vec<char>, Vec<char>, Vec<char>)|
                            QuadCaps { tl: c.0@, tr: c.1@, br: c.2@, bl: c.3@ },
                    ) =~= prevm + seq![
                        QuadCaps { tl: cs.0@, tr: cs.1@, br: cs.2@, bl: cs.3@ },
                    ]);
                }
                i = end;
            },
            None => {
                i += 1;
            },
        }
    }
    proof {
        assert(caps@.map_values(
            |c: (Vec<char>, Vec<char>, Vec<char>, Vec<char>)|
                QuadCaps { tl: c.0@, tr: c.1@, br: c.2@, bl: c.3@ },
        ) =~= scan_quads(text@, 0));
    }
    caps
}

} // verus!
