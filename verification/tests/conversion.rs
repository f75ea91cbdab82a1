use blk2json::{convert, parse_records, ParseError, Shape};

fn expect_line(s: &Shape) -> (&str, &str, &str, &str, &str, &str, bool) {
    match s {
        Shape::Line { name, typ, start, end, selected } => (
            name.as_str(),
            typ.as_str(),
            start.x.as_str(),
            start.y.as_str(),
            end.x.as_str(),
            end.y.as_str(),
            *selected,
        ),
        _ => panic!("expected a line shape"),
    }
}

fn expect_quad(s: &Shape) -> (&str, &str, Vec<(&str, &str)>, bool) {
    match s {
        Shape::Quad { name, typ, pos1, pos2, pos3, pos4, selected } => (
            name.as_str(),
            typ.as_str(),
            vec![
                (pos1.x.as_str(), pos1.y.as_str()),
                (pos2.x.as_str(), pos2.y.as_str()),
                (pos3.x.as_str(), pos3.y.as_str()),
                (pos4.x.as_str(), pos4.y.as_str()),
            ],
            *selected,
        ),
        _ => panic!("expected a quad shape"),
    }
}

#[test]
fn line_round_trip() {
    let col = convert("drawLines{ line{line:p4=10, 20, 30, 40;move:b=false;} }").unwrap();
    assert_eq!(col.len(), 1);
    let (name, typ, x1, y1, x2, y2, selected) = expect_line(col.get(0));
    assert_eq!(name, "Line0");
    assert_eq!(typ, "line");
    assert_eq!((x1, y1), ("10", "20"));
    assert_eq!((x2, y2), ("30", "40"));
    assert!(!selected);
    assert_eq!(x1.parse::<f64>().unwrap(), 10.0);
    assert_eq!(y2.parse::<f64>().unwrap(), 40.0);
}

#[test]
fn quad_field_order() {
    let col = convert("drawQuads{ quad{tl:p2=0,0;tr:p2=1,0;br:p2=1,1;bl:p2=0,1;} }").unwrap();
    assert_eq!(col.len(), 1);
    let (name, typ, corners, selected) = expect_quad(col.get(0));
    assert_eq!(name, "Quadrilateral0");
    assert_eq!(typ, "quad");
    assert_eq!(corners, vec![("0", "0"), ("1", "0"), ("1", "1"), ("0", "1")]);
    assert!(!selected);
}

#[test]
fn case_and_whitespace_tolerance() {
    let tolerant = convert("drawLines{ LINE { line:p4 = 0,0,1,1 ; move:b=true ; } }").unwrap();
    let canonical = convert("drawLines{ line{line:p4=0,0,1,1;move:b=true;} }").unwrap();
    assert_eq!(tolerant.len(), 1);
    assert_eq!(canonical.len(), 1);
    assert_eq!(expect_line(tolerant.get(0)), expect_line(canonical.get(0)));
}

#[test]
fn two_block_scenario() {
    let text = "drawLines{ line{line:p4=0,0,5,5;move:b=false;} }\ndrawQuads{ quad{tl:p2=0,0;tr:p2=2,0;br:p2=2,2;bl:p2=0,2;} }";
    let col = convert(text).unwrap();
    assert_eq!(col.len(), 2);
    assert_eq!(col.key_of(0), "0");
    assert_eq!(col.key_of(1), "1");
    let (name, _, x1, y1, x2, y2, _) = expect_line(col.get(0));
    assert_eq!(name, "Line0");
    assert_eq!((x1, y1, x2, y2), ("0", "0", "5", "5"));
    let (qname, _, corners, _) = expect_quad(col.get(1));
    assert_eq!(qname, "Quadrilateral1");
    assert_eq!(corners, vec![("0", "0"), ("2", "0"), ("2", "2"), ("0", "2")]);
}

#[test]
fn lines_indexed_before_quads() {
    let text = "drawLines{ line{line:p4=1,1,2,2;move:b=true;} line{line:p4=3,3,4,4;move:b=false;} }\ndrawQuads{ quad{tl:p2=0,0;tr:p2=1,0;br:p2=1,1;bl:p2=0,1;} }";
    let col = convert(text).unwrap();
    assert_eq!(col.len(), 3);
    let (n0, ..) = expect_line(col.get(0));
    let (n1, ..) = expect_line(col.get(1));
    let (n2, _, _, _) = expect_quad(col.get(2));
    assert_eq!(n0, "Line0");
    assert_eq!(n1, "Line1");
    assert_eq!(n2, "Quadrilateral2");
}

#[test]
fn keys_past_nine_stay_numeric() {
    let mut text = String::from("drawLines{");
    for _ in 0..11 {
        text.push_str(" line{line:p4=1,2,3,4;move:b=true;}");
    }
    text.push('}');
    let col = convert(&text).unwrap();
    assert_eq!(col.len(), 11);
    assert_eq!(col.key_of(10), "10");
    let (name, ..) = expect_line(col.get(10));
    assert_eq!(name, "Line10");
}

#[test]
fn records_are_found_in_either_block() {
    let text = "drawLines{ quad{tl:p2=0,0;tr:p2=1,0;br:p2=1,1;bl:p2=0,1;} }";
    let col = convert(text).unwrap();
    assert_eq!(col.len(), 1);
    let (name, _, _, _) = expect_quad(col.get(0));
    assert_eq!(name, "Quadrilateral0");
}

#[test]
fn empty_input_is_empty_collection() {
    let col = convert("").unwrap();
    assert_eq!(col.len(), 0);
}

#[test]
fn block_without_records_is_empty_collection() {
    let col = convert("drawLines{ nothing here }").unwrap();
    assert_eq!(col.len(), 0);
}

#[test]
fn unmatched_boolean_skips_the_record() {
    let col = convert("drawLines{ line{line:p4=1,2,3,4;move:b=maybe;} }").unwrap();
    assert_eq!(col.len(), 0);
}

#[test]
fn empty_capture_skips_the_record() {
    let col = convert("drawLines{ line{line:p4=;move:b=true;} }").unwrap();
    assert_eq!(col.len(), 0);
}

#[test]
fn parse_records_scans_plain_text() {
    let col = parse_records("line{line:p4=1,2,3,4;move:b=TRUE;}").unwrap();
    assert_eq!(col.len(), 1);
    let (name, ..) = expect_line(col.get(0));
    assert_eq!(name, "Line0");
}

#[test]
fn exotic_numeric_forms_are_accepted() {
    let col = convert("drawLines{ line{line:p4=1e3, .5, -inf, NaN;move:b=false;} }").unwrap();
    assert_eq!(col.len(), 1);
    let (_, _, x1, y1, x2, y2, _) = expect_line(col.get(0));
    assert_eq!((x1, y1, x2, y2), ("1e3", ".5", "-inf", "NaN"));
    assert_eq!(x1.parse::<f64>().unwrap(), 1000.0);
    assert_eq!(y1.parse::<f64>().unwrap(), 0.5);
    assert_eq!(x2.parse::<f64>().unwrap(), f64::NEG_INFINITY);
    assert!(y2.parse::<f64>().unwrap().is_nan());
}

#[test]
fn passes_are_independent_within_one_block() {
    let text = "drawLines{ line{line:p4=1,2,3,4;move:b=true;} quad{tl:p2=0,0;tr:p2=1,0;br:p2=1,1;bl:p2=0,1;} }";
    let col = convert(text).unwrap();
    assert_eq!(col.len(), 2);
    let (n0, ..) = expect_line(col.get(0));
    let (n1, _, _, _) = expect_quad(col.get(1));
    assert_eq!(n0, "Line0");
    assert_eq!(n1, "Quadrilateral1");
}

#[test]
fn quad_malformed_is_reported_in_corner_order() {
    let text = "drawQuads{ quad{tl:p2=0,0;tr:p2=1,bad;br:p2=worse,1;bl:p2=0,1;} }";
    let err = convert(text).unwrap_err();
    assert_eq!(err, ParseError::MalformedCoordinates { raw: String::from("bad") });
}

#[test]
fn wrong_line_arity_fails_whole_parse() {
    let text = "drawLines{ line{line:p4=9,9,9,9;move:b=true;} line{line:p4=1,2,3;move:b=true;} }";
    let err = convert(text).unwrap_err();
    assert_eq!(err, ParseError::InvalidArity { expected: 4, found: 3 });
}

#[test]
fn wrong_quad_arity_fails_whole_parse() {
    let text = "drawQuads{ quad{tl:p2=0,0;tr:p2=1,0,9;br:p2=1,1;bl:p2=0,1;} }";
    let err = convert(text).unwrap_err();
    assert_eq!(err, ParseError::InvalidArity { expected: 2, found: 3 });
}

#[test]
fn malformed_coordinate_fails_whole_parse() {
    let text = "drawLines{ line{line:p4=1, 2, abc, 4;move:b=false;} }";
    let err = convert(text).unwrap_err();
    assert_eq!(err, ParseError::MalformedCoordinates { raw: String::from("abc") });
}

#[test]
fn malformed_coordinate_reported_before_arity() {
    let text = "drawLines{ line{line:p4=1,x;move:b=false;} }";
    let err = convert(text).unwrap_err();
    assert_eq!(err, ParseError::MalformedCoordinates { raw: String::from("x") });
}
