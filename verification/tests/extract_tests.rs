use step_pipeline::extract::{extract_and_append, trim_str};

#[test]
fn empty_input_yields_no_steps() {
    let v = extract_and_append("");
    assert_eq!(v.len(), 0);
}

#[test]
fn text_without_markers_yields_no_steps() {
    let v = extract_and_append("no delimiters anywhere in this text");
    assert_eq!(v.len(), 0);
}

#[test]
fn closed_pairs_yield_trimmed_blocks_in_order() {
    let v = extract_and_append("intro ```first step``` middle ``` second \n``` tail");
    assert_eq!(v, vec!["first step".to_string(), "second".to_string()]);
}

#[test]
fn odd_marker_count_drops_trailing_block() {
    let v = extract_and_append("```a``` and then ```unterminated");
    assert_eq!(v, vec!["a".to_string()]);
}

#[test]
fn lone_marker_yields_no_steps() {
    let v = extract_and_append("only one ``` marker");
    assert_eq!(v.len(), 0);
}

#[test]
fn adjacent_markers_yield_an_empty_step() {
    let v = extract_and_append("``````");
    assert_eq!(v, vec!["".to_string()]);
}

#[test]
fn four_backquotes_are_one_greedy_marker() {
    let v = extract_and_append("````");
    assert_eq!(v.len(), 0);
}

#[test]
fn unicode_whitespace_is_trimmed() {
    let v = extract_and_append("```\u{00A0}x\u{3000}```");
    assert_eq!(v, vec!["x".to_string()]);
}

#[test]
fn example_text_decomposes_into_three_steps() {
    let text = "```\nxxx\n```\n\n```\nStep A\n```\n\n```\nStep B\n```";
    let v = extract_and_append(text);
    assert_eq!(
        v,
        vec!["xxx".to_string(), "Step A".to_string(), "Step B".to_string()]
    );
}

#[test]
fn trim_removes_leading_and_trailing_whitespace_only() {
    assert_eq!(trim_str("  a b\t\n"), "a b");
    assert_eq!(trim_str(""), "");
    assert_eq!(trim_str(" \t "), "");
    assert_eq!(trim_str("inner  space"), "inner  space");
}
