//! The record parser and the whole conversion pipeline.
//!
//! The coordinate capture of each matched record is split on commas,
//! each piece trimmed, and every piece checked to be well-formed
//! floating-point text; a line record must supply exactly four
//! components, each corner of a quad record exactly two. Any failure
//! aborts the whole conversion: no partial collection is ever returned.
//! All line records are indexed before any quad record, by one running
//! counter across both passes.

use vstd::prelude::*;
use crate::text::{trim_spec, split_commas, split_trim_range, text_chars, chars_to_string};
use crate::numbers::{valid_float_text, is_float_text, dec_str, dec_chars};
use crate::records::{
    QuadCaps,
    scan_lines,
    scan_quads,
    lemma_line_match_advances,
    lemma_quad_match_advances,
    scan_lines_exec,
    scan_quads_exec,
};
use crate::shapes::{
    Point,
    PointModel,
    Shape,
    ShapeModel,
    ShapeCollection,
    ParseError,
    ErrorModel,
};
use crate::extract::{extract_spec, extract_block};

verus! {

/// The coordinate components of one capture: split on commas, each
/// piece trimmed of surrounding whitespace.
pub open spec fn coord_pieces(cap: Seq<char>) -> Seq<Seq<char>> {
    split_commas(cap).map_values(|p: Seq<char>| trim_spec(p))
}

/// Position of the first piece, at or after `k`, that is not
/// well-formed floating-point text.
pub open spec fn first_bad_from(ps: Seq<Seq<char>>, k: int) -> Option<int>
    decreases ps.len() - k,
{
    if k < 0 || k >= ps.len() {
        None
    } else if !valid_float_text(ps[k]) {
        Some(k)
    } else {
        first_bad_from(ps, k + 1)
    }
}

/// The display label of the line record with index `idx`.
pub open spec fn line_name(idx: nat) -> Seq<char> {
    "Line"@ + dec_str(idx)
}

/// The display label of the quad record with index `idx`.
pub open spec fn quad_name(idx: nat) -> Seq<char> {
    "Quadrilateral"@ + dec_str(idx)
}

/// What one line record with capture `cap` and index `idx` becomes:
/// a `Line` shape, or the error for its first malformed piece, or an
/// arity error when the component count is not four.
pub open spec fn line_record_result(cap: Seq<char>, idx: nat) -> Result<ShapeModel, ErrorModel> {
    let ps = coord_pieces(cap);
    match first_bad_from(ps, 0) {
        Some(k) => Err(ErrorModel::MalformedCoordinates { raw: ps[k] }),
        None => if ps.len() != 4 {
            Err(ErrorModel::InvalidArity { expected: 4, found: ps.len() })
        } else {
            Ok(
                ShapeModel::Line {
                    name: line_name(idx),
                    typ: "line"@,
                    start: PointModel { x: ps[0], y: ps[1] },
                    end: PointModel { x: ps[2], y: ps[3] },
                    selected: false,
                },
            )
        },
    }
}

/// What one quad record with captures `caps` and index `idx` becomes:
/// a `Quad` shape, or the error for the first malformed piece across
/// the four captures in label order, or an arity error for the first
/// corner whose component count is not two.
pub open spec fn quad_record_result(caps: QuadCaps, idx: nat) -> Result<ShapeModel, ErrorModel> {
    let p1 = coord_pieces(caps.tl);
    let p2 = coord_pieces(caps.tr);
    let p3 = coord_pieces(caps.br);
    let p4 = coord_pieces(caps.bl);
    if first_bad_from(p1, 0) is Some {
        Err(ErrorModel::MalformedCoordinates { raw: p1[first_bad_from(p1, 0)->Some_0] })
    } else if first_bad_from(p2, 0) is Some {
        Err(ErrorModel::MalformedCoordinates { raw: p2[first_bad_from(p2, 0)->Some_0] })
    } else if first_bad_from(p3, 0) is Some {
        Err(ErrorModel::MalformedCoordinates { raw: p3[first_bad_from(p3, 0)->Some_0] })
    } else if first_bad_from(p4, 0) is Some {
        Err(ErrorModel::MalformedCoordinates { raw: p4[first_bad_from(p4, 0)->Some_0] })
    } else if p1.len() != 2 {
        Err(ErrorModel::InvalidArity { expected: 2, found: p1.len() })
    } else if p2.len() != 2 {
        Err(ErrorModel::InvalidArity { expected: 2, found: p2.len() })
    } else if p3.len() != 2 {
        Err(ErrorModel::InvalidArity { expected: 2, found: p3.len() })
    } else if p4.len() != 2 {
        Err(ErrorModel::InvalidArity { expected: 2, found: p4.len() })
    } else {
        Ok(
            ShapeModel::Quad {
                name: quad_name(idx),
                typ: "quad"@,
                pos1: PointModel { x: p1[0], y: p1[1] },
                pos2: PointModel { x: p2[0], y: p2[1] },
                pos3: PointModel { x: p3[0], y: p3[1] },
                pos4: PointModel { x: p4[0], y: p4[1] },
                selected: false,
            },
        )
    }
}

/// Folds the line captures into shapes, assigning indices from `idx`
/// on; the first failing record aborts the fold with its error.
pub open spec fn build_lines(caps: Seq<Seq<char>>, idx: nat) -> Result<Seq<ShapeModel>, ErrorModel>
    decreases caps.len(),
{
    if caps.len() == 0 {
        Ok(Seq::empty())
    } else {
        match line_record_result(caps[0], idx) {
            Err(e) => Err(e),
            Ok(s) => match build_lines(caps.drop_first(), idx + 1) {
                Err(e) => Err(e),
                Ok(rest) => Ok(seq![s] + rest),
            },
        }
    }
}

/// Folds the quad captures into shapes, assigning indices from `idx`
/// on; the first failing record aborts the fold with its error.
pub open spec fn build_quads(caps: Seq<QuadCaps>, idx: nat) -> Result<Seq<ShapeModel>, ErrorModel>
    decreases caps.len(),
{
    if caps.len() == 0 {
        Ok(Seq::empty())
    } else {
        match quad_record_result(caps[0], idx) {
            Err(e) => Err(e),
            Ok(s) => match build_quads(caps.drop_first(), idx + 1) {
                Err(e) => Err(e),
                Ok(rest) => Ok(seq![s] + rest),
            },
        }
    }
}

/// What `parse_records` returns on `combined`: every line record's
/// shape, then every quad record's shape, with one running index, or
/// the first record error encountered in that order.
pub open spec fn parse_spec(combined: Seq<char>) -> Result<Seq<ShapeModel>, ErrorModel> {
    let lcaps = scan_lines(combined, 0);
    let qcaps = scan_quads(combined, 0);
    match build_lines(lcaps, 0) {
        Err(e) => Err(e),
        Ok(ls) => match build_quads(qcaps, lcaps.len()) {
            Err(e) => Err(e),
            Ok(qs) => Ok(ls + qs),
        },
    }
}

/// What `convert` returns on `text`: the two named top-level blocks
/// are extracted, joined with a newline, and parsed.
pub open spec fn convert_spec(text: Seq<char>) -> Result<Seq<ShapeModel>, ErrorModel> {
    parse_spec(
        extract_spec(text, "drawLines"@) + seq!['\n'] + extract_spec(text, "drawQuads"@),
    )
}

/// Skipping records already known good does not change which piece is
/// the first bad one.
proof fn lemma_first_bad_skip(ps: Seq<Seq<char>>, j: int, k: int)
    requires
        0 <= j <= k <= ps.len(),
        forall|m: int| j <= m < k ==> valid_float_text(ps[m]),
    ensures
        first_bad_from(ps, j) == first_bad_from(ps, k),
    decreases k - j,
{
    if j < k {
        lemma_first_bad_skip(ps, j + 1, k);
    }
}

/// Each matched line record spans at least two characters.
proof fn lemma_scan_lines_count(text: Seq<char>, i: int)
    requires
        0 <= i <= text.len(),
    ensures
        2 * scan_lines(text, i).len() <= text.len() - i,
    decreases text.len() - i,
{
    if i < text.len() {
        match crate::records::line_match_at(text, i) {
            Some((end, cap)) => {
                lemma_line_match_advances(text, i);
                lemma_scan_lines_count(text, end);
            },
            None => {
                lemma_scan_lines_count(text, i + 1);
            },
        }
    }
}

/// Each matched quad record spans at least two characters.
proof fn lemma_scan_quads_count(text: Seq<char>, i: int)
    requires
        0 <= i <= text.len(),
    ensures
        2 * scan_quads(text, i).len() <= text.len() - i,
    decreases text.len() - i,
{
    if i < text.len() {
        match crate::records::quad_match_at(text, i) {
            Some((end, caps)) => {
                lemma_quad_match_advances(text, i);
                lemma_scan_quads_count(text, end);
            },
            None => {
                lemma_scan_quads_count(text, i + 1);
            },
        }
    }
}

/// A successful line fold yields one `Line` shape per capture, named
/// after its running index.
proof fn lemma_build_lines_shape(caps: Seq<Seq<char>>, idx: nat)
    requires
        build_lines(caps, idx) is Ok,
    ensures
        build_lines(caps, idx)->Ok_0.len() == caps.len(),
        forall|i: int|
            0 <= i < caps.len() ==> ((#[trigger] build_lines(caps, idx)->Ok_0[i]) matches
                ShapeModel::Line { name, .. } && name == line_name((idx + i) as nat)),
    decreases caps.len(),
{
    if caps.len() > 0 {
        lemma_build_lines_shape(caps.drop_first(), idx + 1);
        let s = build_lines(caps, idx)->Ok_0;
        let rest = build_lines(caps.drop_first(), idx + 1)->Ok_0;
        assert(forall|i: int| 1 <= i < s.len() ==> s[i] == rest[i - 1]);
    }
}

/// A successful quad fold yields one `Quad` shape per capture, named
/// after its running index.
proof fn lemma_build_quads_shape(caps: Seq<QuadCaps>, idx: nat)
    requires
        build_quads(caps, idx) is Ok,
    ensures
        build_quads(caps, idx)->Ok_0.len() == caps.len(),
        forall|i: int|
            0 <= i < caps.len() ==> ((#[trigger] build_quads(caps, idx)->Ok_0[i]) matches
                ShapeModel::Quad { name, .. } && name == quad_name((idx + i) as nat)),
    decreases caps.len(),
{
    if caps.len() > 0 {
        lemma_build_quads_shape(caps.drop_first(), idx + 1);
        let s = build_quads(caps, idx)->Ok_0;
        let rest = build_quads(caps.drop_first(), idx + 1)->Ok_0;
        assert(forall|i: int| 1 <= i < s.len() ==> s[i] == rest[i - 1]);
    }
}

/// Index uniqueness and ordering of a successful conversion: with L
/// line records and Q quad records the collection holds exactly L + Q
/// shapes under the running indices 0 to L + Q - 1; every line record
/// stands at an index strictly below every quad record, and each
/// shape's label carries its own index.
pub proof fn lemma_indices_ordered(text: Seq<char>)
    requires
        convert_spec(text) is Ok,
    ensures
        ({
            let combined = extract_spec(text, "drawLines"@) + seq!['\n'] + extract_spec(
                text,
                "drawQuads"@,
            );
            let lcount = scan_lines(combined, 0).len();
            let qcount = scan_quads(combined, 0).len();
            let shapes = convert_spec(text)->Ok_0;
            &&& shapes.len() == lcount + qcount
            &&& forall|i: int|
                0 <= i < lcount ==> ((#[trigger] shapes[i]) matches ShapeModel::Line { name, .. }
                    && name == line_name(i as nat))
            &&& forall|i: int|
                lcount <= i < shapes.len() ==> ((#[trigger] shapes[i]) matches ShapeModel::Quad {
                    name,
                    ..
                } && name == quad_name(i as nat))
        }),
{
    let combined = extract_spec(text, "drawLines"@) + seq!['\n'] + extract_spec(
        text,
        "drawQuads"@,
    );
    let lcaps = scan_lines(combined, 0);
    let qcaps = scan_quads(combined, 0);
    lemma_build_lines_shape(lcaps, 0);
    lemma_build_quads_shape(qcaps, lcaps.len());
    let ls = build_lines(lcaps, 0)->Ok_0;
    let qs = build_quads(qcaps, lcaps.len())->Ok_0;
    assert(forall|i: int| 0 <= i < ls.len() ==> (ls + qs)[i] == ls[i]);
    assert(forall|i: int| ls.len() <= i < ls.len() + qs.len() ==> (ls + qs)[i] == qs[i - ls.len()]);
}

/// Position of the first coordinate piece that is not well-formed
/// floating-point text, if any.
fn check_pieces(ps: &Vec<Vec<char>>) -> (r: Option<usize>)
    ensures
        ({
            let psm = ps@.map_values(|p: Vec<char>| p@);
            match r {
                Some(k) => first_bad_from(psm, 0) == Some(k as int) && k < ps@.len(),
                None => first_bad_from(psm, 0) is None,
            }
        }),
{
    let ghost psm = ps@.map_values(|p: Vec<char>| p@);
    let mut k: usize = 0;
    while k < ps.len()
        invariant
            0 <= k <= psm.len(),
            psm == ps@.map_values(|p: Vec<char>| p@),
            forall|m: int| 0 <= m < k ==> valid_float_text(psm[m]),
        decreases psm.len() - k,
    {
        if !is_float_text(&ps[k]) {
            proof {
                lemma_first_bad_skip(psm, 0, k as int);
            }
            return Some(k);
        }
        k += 1;
    }
    proof {
        lemma_first_bad_skip(psm, 0, psm.len() as int);
    }
    None
}

/// A display label: the prefix followed by the decimal index.
fn make_name(prefix: &str, idx: usize) -> (s: String)
    ensures
        s@ == prefix@ + dec_str(idx as nat),
{
    let mut s = prefix.to_owned();
    let digits = dec_chars(idx);
    let ds = chars_to_string(&digits);
    s.append(ds.as_str());
    s
}

/// Converts one line capture into its shape, or its error.
fn line_record_exec(cap: &Vec<char>, idx: usize) -> (r: Result<Shape, ParseError>)
    ensures
        match r {
            Ok(s) => line_record_result(cap@, idx as nat) == Ok::<ShapeModel, ErrorModel>(s@),
            Err(e) => line_record_result(cap@, idx as nat) == Err::<ShapeModel, ErrorModel>(e@),
        },
{
    let ps = split_trim_range(cap, 0, cap.len());
    proof {
        assert(cap@.subrange(0, cap@.len() as int) =~= cap@);
    }
    let ghost psm = ps@.map_values(|p: Vec<char>| p@);
    match check_pieces(&ps) {
        Some(k) => Err(ParseError::MalformedCoordinates { raw: chars_to_string(&ps[k]) }),
        None => {
            if ps.len() != 4 {
                Err(ParseError::InvalidArity { expected: 4, found: ps.len() })
            } else {
                let name = make_name("Line", idx);
                let typ = "line".to_owned();
                let start = Point { x: chars_to_string(&ps[0]), y: chars_to_string(&ps[1]) };
                let end = Point { x: chars_to_string(&ps[2]), y: chars_to_string(&ps[3]) };
                Ok(Shape::Line { name, typ, start, end, selected: false })
            }
        },
    }
}

/// Converts one quad capture quadruple into its shape, or its error.
fn quad_record_exec(
    caps: &(Vec<char>, Vec<char>, Vec<char>, Vec<char>),
    idx: usize,
) -> (r: Result<Shape, ParseError>)
    ensures
        ({
            let cm = QuadCaps { tl: caps.0@, tr: caps.1@, br: caps.2@, bl: caps.3@ };
            match r {
                Ok(s) => quad_record_result(cm, idx as nat) == Ok::<ShapeModel, ErrorModel>(s@),
                Err(e) => quad_record_result(cm, idx as nat) == Err::<ShapeModel, ErrorModel>(
                    e@,
                ),
            }
        }),
{
    let p1 = split_trim_range(&caps.0, 0, caps.0.len());
    let p2 = split_trim_range(&caps.1, 0, caps.1.len());
    let p3 = split_trim_range(&caps.2, 0, caps.2.len());
    let p4 = split_trim_range(&caps.3, 0, caps.3.len());
    proof {
        assert(caps.0@.subrange(0, caps.0@.len() as int) =~= caps.0@);
        assert(caps.1@.subrange(0, caps.1@.len() as int) =~= caps.1@);
        assert(caps.2@.subrange(0, caps.2@.len() as int) =~= caps.2@);
        assert(caps.3@.subrange(0, caps.3@.len() as int) =~= caps.3@);
    }
    if let Some(k) = check_pieces(&p1) {
        return Err(ParseError::MalformedCoordinates { raw: chars_to_string(&p1[k]) });
    }
    if let Some(k) = check_pieces(&p2) {
        return Err(ParseError::MalformedCoordinates { raw: chars_to_string(&p2[k]) });
    }
    if let Some(k) = check_pieces(&p3) {
        return Err(ParseError::MalformedCoordinates { raw: chars_to_string(&p3[k]) });
    }
    if let Some(k) = check_pieces(&p4) {
        return Err(ParseError::MalformedCoordinates { raw: chars_to_string(&p4[k]) });
    }
    if p1.len() != 2 {
        return Err(ParseError::InvalidArity { expected: 2, found: p1.len() });
    }
    if p2.len() != 2 {
        return Err(ParseError::InvalidArity { expected: 2, found: p2.len() });
    }
    if p3.len() != 2 {
        return Err(ParseError::InvalidArity { expected: 2, found: p3.len() });
    }
    if p4.len() != 2 {
        return Err(ParseError::InvalidArity { expected: 2, found: p4.len() });
    }
    let name = make_name("Quadrilateral", idx);
    let typ = "quad".to_owned();
    Ok(
        Shape::Quad {
            name,
            typ,
            pos1: Point { x: chars_to_string(&p1[0]), y: chars_to_string(&p1[1]) },
            pos2: Point { x: chars_to_string(&p2[0]), y: chars_to_string(&p2[1]) },
            pos3: Point { x: chars_to_string(&p3[0]), y: chars_to_string(&p3[1]) },
            pos4: Point { x: chars_to_string(&p4[0]), y: chars_to_string(&p4[1]) },
            selected: false,
        },
    )
}

/// Scans `combined` for every line and quad record and assembles the
/// collection, or fails with the first record error: malformed
/// coordinate text or a wrong component count. Absence of records is
/// not an error; the collection is then empty.
pub fn parse_records(combined: &str) -> (r: Result<ShapeCollection, ParseError>)
    ensures
        match r {
            Ok(c) => parse_spec(combined@) == Ok::<Seq<ShapeModel>, ErrorModel>(c@),
            Err(e) => parse_spec(combined@) == Err::<Seq<ShapeModel>, ErrorModel>(e@),
        },
{
    let tv = text_chars(combined);
    let lcaps = scan_lines_exec(&tv);
    let qcaps = scan_quads_exec(&tv);
    let ghost lm = scan_lines(tv@, 0);
    let ghost qm = scan_quads(tv@, 0);
    proof {
        lemma_scan_lines_count(tv@, 0);
        lemma_scan_quads_count(tv@, 0);
    }
    let mut col = ShapeCollection::new();
    let mut k: usize = 0;
    proof {
        assert(lm.skip(0) =~= lm);
    }
    while k < lcaps.len()
        invariant
            lcaps@.map_values(|c: Vec<char>| c@) == lm,
            lm == scan_lines(combined@, 0),
            0 <= k <= lm.len(),
            match build_lines(lm.skip(k as int), k as nat) {
                Ok(rest) => build_lines(lm, 0) == Ok::<Seq<ShapeModel>, ErrorModel>(col@ + rest),
                Err(e) => build_lines(lm, 0) == Err::<Seq<ShapeModel>, ErrorModel>(e),
            },
        decreases lm.len() - k,
    {
        proof {
            assert(lm.skip(k as int)[0] == lm[k as int]);
            assert(lm.skip(k as int).drop_first() =~= lm.skip(k as int + 1));
        }
        match line_record_exec(&lcaps[k], k) {
            Ok(s) => {
                let ghost prev = col@;
                col.push(s);
                proof {
                    assert(col@ =~= prev + seq![s@]);
                    match build_lines(lm.skip(k as int + 1), (k + 1) as nat) {
                        Ok(rest) => {
                            assert(prev + seq![s@] + rest =~= prev + (seq![s@] + rest));
                        },
                        Err(e) => {},
                    }
                }
            },
            Err(e) => {
                return Err(e);
            },
        }
        k += 1;
    }
    proof {
        assert(lm.skip(lm.len() as int) =~= Seq::<Seq<char>>::empty());
        assert(build_lines(lm, 0) == Ok::<Seq<ShapeModel>, ErrorModel>(col@ + Seq::empty()));
        assert(col@ + Seq::<ShapeModel>::empty() =~= col@);
    }
    let ghost ls = col@;
    let lcount = lcaps.len();
    let tlen = tv.len();
    let mut j: usize = 0;
    proof {
        assert(qm.skip(0) =~= qm);
    }
    while j < qcaps.len()
        invariant
            qcaps@.map_values(
                |c: (Vec<char>, Vec<char>, Vec<char>, Vec<char>)|
                    QuadCaps { tl: c.0@, tr: c.1@, br: c.2@, bl: c.3@ },
            ) == qm,
            qm == scan_quads(combined@, 0),
            tlen == combined@.len(),
            2 * lcount <= tlen,
            2 * qm.len() <= tlen,
            lcount == scan_lines(combined@, 0).len(),
            build_lines(scan_lines(combined@, 0), 0) == Ok::<Seq<ShapeModel>, ErrorModel>(ls),
            0 <= j <= qm.len(),
            match build_quads(qm.skip(j as int), (lcount + j) as nat) {
                Ok(rest) => parse_spec(combined@) == Ok::<Seq<ShapeModel>, ErrorModel>(
                    col@ + rest,
                ),
                Err(e) => parse_spec(combined@) == Err::<Seq<ShapeModel>, ErrorModel>(e),
            },
        decreases qm.len() - j,
    {
        proof {
            assert(qm.skip(j as int)[0] == qm[j as int]);
            assert(qm.skip(j as int).drop_first() =~= qm.skip(j as int + 1));
        }
        match quad_record_exec(&qcaps[j], lcount + j) {
            Ok(s) => {
                let ghost prev = col@;
                col.push(s);
                proof {
                    assert(col@ =~= prev + seq![s@]);
                    match build_quads(qm.skip(j as int + 1), (lcount + j + 1) as nat) {
                        Ok(rest) => {
                            assert(prev + seq![s@] + rest =~= prev + (seq![s@] + rest));
                        },
                        Err(e) => {},
                    }
                }
            },
            Err(e) => {
                return Err(e);
            },
        }
        j += 1;
    }
    proof {
        assert(qm.skip(qm.len() as int) =~= Seq::<QuadCaps>::empty());
        assert(col@ + Seq::<ShapeModel>::empty() =~= col@);
    }
    Ok(col)
}

/// Converts a whole scene description: extracts the `drawLines` and
/// `drawQuads` blocks, joins their bodies with a newline, and parses
/// every record found there into an indexed shape collection. A
/// missing block contributes nothing; a malformed record aborts the
/// conversion with its error.
pub fn convert(text: &str) -> (r: Result<ShapeCollection, ParseError>)
    ensures
        match r {
            Ok(c) => convert_spec(text@) == Ok::<Seq<ShapeModel>, ErrorModel>(c@),
            Err(e) => convert_spec(text@) == Err::<Seq<ShapeModel>, ErrorModel>(e@),
        },
{
    let lines_block = extract_block(text, "drawLines");
    let quads_block = extract_block(text, "drawQuads");
    let mut combined = lines_block;
    combined.append("\n");
    combined.append(quads_block.as_str());
    proof {
        reveal_strlit("\n");
        assert("\n"@ =~= seq!['\n']);
    }
    parse_records(combined.as_str())
}

} // verus!
