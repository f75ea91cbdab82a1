use blk2json::extract_block;

#[test]
fn balanced_extraction_skips_nested_braces() {
    let text = "prefix drawLines { a { b { c } } d } suffix";
    assert_eq!(extract_block(text, "drawLines"), " a { b { c } } d ");
}

#[test]
fn extraction_takes_first_matching_block() {
    let text = "drawLines{first}drawLines{second}";
    assert_eq!(extract_block(text, "drawLines"), "first");
}

#[test]
fn extraction_allows_whitespace_before_brace() {
    let text = "drawQuads \t\r\n  {body}";
    assert_eq!(extract_block(text, "drawQuads"), "body");
}

#[test]
fn absent_block_yields_empty_string() {
    let text = "nothing to see here";
    assert_eq!(extract_block(text, "drawLines"), "");
}

#[test]
fn block_name_is_case_sensitive() {
    let text = "drawlines{ line{line:p4=1,2,3,4;move:b=true;} }";
    assert_eq!(extract_block(text, "drawLines"), "");
}

#[test]
fn name_without_brace_is_no_block() {
    let text = "drawLines and then drawLines{yes}";
    assert_eq!(extract_block(text, "drawLines"), "yes");
}

#[test]
fn unterminated_block_yields_empty_string() {
    let text = "drawLines { a { b }";
    assert_eq!(extract_block(text, "drawLines"), "");
}

#[test]
fn empty_block_yields_empty_string() {
    let text = "drawLines{}";
    assert_eq!(extract_block(text, "drawLines"), "");
}
