//! The block extractor: locates a named top-level block and returns the
//! text enclosed in its balanced curly-brace body.
//!
//! The block name is matched verbatim (case-sensitively); it may be
//! followed by any amount of whitespace before the opening brace. From
//! just after that brace, a depth counter walks the text; the body ends
//! at the brace that brings the depth back to zero, so braces of nested
//! records are skipped. A missing block or an unterminated body yields
//! the empty string: absence is a valid empty result, not an error.

use vstd::prelude::*;
use crate::text::{
    occurs_at,
    skip_ws_spec,
    lemma_skip_ws_bounds,
    text_chars,
    chars_to_string,
    match_at,
    skip_ws,
    copy_range,
};

verus! {

/// The name occurs at `i` and, after optional whitespace, an opening
/// brace follows.
pub open spec fn block_open_at(text: Seq<char>, name: Seq<char>, i: int) -> bool {
    &&& occurs_at(text, name, i)
    &&& {
        let j = skip_ws_spec(text, i + name.len());
        j < text.len() && text[j] == '{'
    }
}

/// Position of the first block opening at or after `i`, if any.
pub open spec fn first_open_from(text: Seq<char>, name: Seq<char>, i: int) -> Option<int>
    decreases text.len() - i,
{
    if i < 0 || i >= text.len() {
        None
    } else if block_open_at(text, name, i) {
        Some(i)
    } else {
        first_open_from(text, name, i + 1)
    }
}

/// How one character changes the brace depth.
pub open spec fn brace_delta(c: char) -> int {
    if c == '{' {
        1
    } else if c == '}' {
        -1
    } else {
        0
    }
}

/// Position of the brace that closes a body starting at `j` with the
/// given depth, if the braces ever balance.
pub open spec fn close_from(text: Seq<char>, j: int, depth: int) -> Option<int>
    decreases text.len() - j,
{
    if j < 0 || j >= text.len() {
        None
    } else if text[j] == '}' && depth == 1 {
        Some(j)
    } else {
        close_from(text, j + 1, depth + brace_delta(text[j]))
    }
}

/// What `extract_block` returns: the body of the first block named
/// `name`, or the empty sequence when the block is absent or its braces
/// never balance.
pub open spec fn extract_spec(text: Seq<char>, name: Seq<char>) -> Seq<char> {
    match first_open_from(text, name, 0) {
        Some(i) => {
            let b = skip_ws_spec(text, i + name.len()) + 1;
            match close_from(text, b, 1) {
                Some(e) => text.subrange(b, e),
                None => Seq::empty(),
            }
        },
        None => Seq::empty(),
    }
}

/// A found opening position is in range.
proof fn lemma_first_open_bounds(text: Seq<char>, name: Seq<char>, i: int)
    requires
        0 <= i,
        first_open_from(text, name, i) is Some,
    ensures
        i <= first_open_from(text, name, i)->Some_0 < text.len(),
        block_open_at(text, name, first_open_from(text, name, i)->Some_0),
    decreases text.len() - i,
{
    if i < text.len() && !block_open_at(text, name, i) {
        lemma_first_open_bounds(text, name, i + 1);
    }
}

/// A found closing position is in range.
proof fn lemma_close_bounds(text: Seq<char>, j: int, depth: int)
    requires
        0 <= j,
        close_from(text, j, depth) is Some,
    ensures
        j <= close_from(text, j, depth)->Some_0 < text.len(),
    decreases text.len() - j,
{
    if j < text.len() && !(text[j] == '}' && depth == 1) {
        lemma_close_bounds(text, j + 1, depth + brace_delta(text[j]));
    }
}

/// If the name occurs nowhere in the text, the extracted body is empty.
/// A block body can only be produced where the block's name stands.
pub proof fn lemma_absent_block(text: Seq<char>, name: Seq<char>)
    requires
        forall|i: int| !occurs_at(text, name, i),
    ensures
        extract_spec(text, name) == Seq::<char>::empty(),
{
    lemma_no_open(text, name, 0);
}

proof fn lemma_no_open(text: Seq<char>, name: Seq<char>, i: int)
    requires
        forall|k: int| !occurs_at(text, name, k),
    ensures
        first_open_from(text, name, i) is None,
    decreases text.len() - i,
{
    if 0 <= i && i < text.len() {
        assert(!occurs_at(text, name, i));
        lemma_no_open(text, name, i + 1);
    }
}

/// Finds the first opening of a block named `name` at or after `i`.
fn find_open(text: &Vec<char>, name: &Vec<char>, i: usize) -> (r: Option<(usize, usize)>)
    requires
        i <= text@.len(),
    ensures
        match r {
            Some((p, b)) => {
                &&& first_open_from(text@, name@, i as int) == Some(p as int)
                &&& b == skip_ws_spec(text@, p + name@.len()) + 1
                &&& 0 < b <= text@.len()
            },
            None => first_open_from(text@, name@, i as int) is None,
        },
    decreases text@.len() - i,
{
    if i >= text.len() {
        return None;
    }
    if match_at(text, i, name) {
        proof {
            lemma_skip_ws_bounds(text@, i + name@.len());
        }
        let j = skip_ws(text, i + name.len());
        if j < text.len() && text[j] == '{' {
            return Some((i, j + 1));
        }
    }
    find_open(text, name, i + 1)
}

/// Finds the closing brace of a body starting at `j` with depth 1.
fn find_close(text: &Vec<char>, b: usize) -> (r: Option<usize>)
    requires
        1 <= b <= text@.len(),
    ensures
        match r {
            Some(e) => close_from(text@, b as int, 1) == Some(e as int) && b <= e < text@.len(),
            None => close_from(text@, b as int, 1) is None,
        },
{
    let tlen = text.len();
    let mut j = b;
    let mut depth: usize = 1;
    while j < tlen
        invariant
            tlen == text@.len(),
            1 <= b <= j <= text@.len(),
            1 <= depth,
            depth <= 1 + (j - b),
            close_from(text@, b as int, 1) == close_from(text@, j as int, depth as int),
        decreases text@.len() - j,
    {
        let c = text[j];
        if c == '}' && depth == 1 {
            proof {
                lemma_close_bounds(text@, j as int, 1);
            }
            return Some(j);
        }
        if c == '{' {
            proof {
                assert(depth < tlen);
            }
            depth += 1;
        } else if c == '}' {
            depth -= 1;
        }
        j += 1;
    }
    None
}

/// Returns the raw text of the first top-level block named `name` in
/// `text`: the substring strictly between the opening brace that
/// follows the name and the brace that balances it. Returns the empty
/// string when no such block exists or its braces never balance.
pub fn extract_block(text: &str, name: &str) -> (body: String)
    ensures
        body@ == extract_spec(text@, name@),
{
    let tv = text_chars(text);
    let nv = text_chars(name);
    match find_open(&tv, &nv, 0) {
        Some((p, b)) => {
            proof {
                lemma_first_open_bounds(tv@, nv@, 0);
            }
            match find_close(&tv, b) {
                Some(e) => {
                    let body = copy_range(&tv, b, e);
                    chars_to_string(&body)
                },
                None => {
                    let empty: Vec<char> = Vec::new();
                    proof {
                        assert(empty@ =~= Seq::<char>::empty());
                    }
                    chars_to_string(&empty)
                },
            }
        },
        None => {
            let empty: Vec<char> = Vec::new();
            proof {
                assert(empty@ =~= Seq::<char>::empty());
            }
            chars_to_string(&empty)
        },
    }
}

} // verus!
