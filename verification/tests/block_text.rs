use yamark::yaml_block_text::{
    append_trailing_line_ending_if_missing, block_scalar_body_indent, chomp_for_block_scalar_output,
    emit_indented_block, folded_block_body_prose, format_external_yaml_block_header,
    format_markdown_yaml_block_value, formatted_ends_with_multiple_line_endings, normalize_yaml_prose,
    reindent_block_lines, replace_folded_block_marker, rewrite_yaml_block_chomp, simple_folded_block_header,
    split_line_value_comment, trim_ascii_range, wrap_yaml_prose,
};
use yamark::yaml_model::YamlBlockChomp;

fn chars(s: &str) -> Vec<char> {
    s.chars().collect()
}

fn text(v: &[char]) -> String {
    v.iter().collect()
}

#[test]
fn prose_is_normalized_and_wrapped() {
    assert_eq!(text(&normalize_yaml_prose(&chars("  a \n b\t c  "))), "a b c");
    assert_eq!(text(&normalize_yaml_prose(&chars("   "))), "");
    let lines: Vec<String> = wrap_yaml_prose(&chars("aa bb  cc\ndd"), 5).iter().map(|l| text(l)).collect();
    assert_eq!(lines, vec!["aa bb", "cc dd"]);
    let lines: Vec<String> = wrap_yaml_prose(&chars("aa bb cc"), 4).iter().map(|l| text(l)).collect();
    assert_eq!(lines, vec!["aa", "bb", "cc"]);
    let lines: Vec<String> = wrap_yaml_prose(&chars("abcdef x"), 3).iter().map(|l| text(l)).collect();
    assert_eq!(lines, vec!["abcdef", "x"]);
    assert!(wrap_yaml_prose(&chars(" \n "), 10).is_empty());
}

#[test]
fn folded_bodies_as_prose() {
    let p = folded_block_body_prose(&chars("  one\n  two  three\n\n")).expect("prose");
    assert_eq!(text(&p.text), "one two three");
    assert_eq!(p.indent, 2);
    assert!(p.final_newline);
    assert_eq!(p.trailing_blank_lines, 1);
    let p = folded_block_body_prose(&chars("    x\n      y")).expect("prose");
    assert_eq!(text(&p.text), "x y");
    assert!(!p.final_newline);
    assert!(folded_block_body_prose(&chars("\n  x\n")).is_none());
    assert!(folded_block_body_prose(&chars("  a\n\n  b\n")).is_none());
    assert!(folded_block_body_prose(&chars("  a\n b\n")).is_none());
    assert!(folded_block_body_prose(&chars("")).is_none());
}

#[test]
fn block_bodies_are_reindented() {
    assert_eq!(text(&reindent_block_lines(&chars("    a\n\n    b\n"), 4, 2)), "  a\n\n  b\n");
    assert_eq!(text(&reindent_block_lines(&chars("  a\r\n b\n"), 2, 0)), "a\r\n b\n");
    assert_eq!(text(&reindent_block_lines(&chars("x"), 4, 2)), "  x");
    assert_eq!(text(&reindent_block_lines(&chars("  "), 2, 1)), " ");
    assert_eq!(text(&reindent_block_lines(&chars(""), 2, 1)), "");
    let mut out = Vec::new();
    emit_indented_block(&mut out, &chars("a\r\nb"), 2, &chars("\n"));
    assert_eq!(text(&out), "  a\r\n  b\n");
}

#[test]
fn chomping_indicators() {
    assert_eq!(text(&rewrite_yaml_block_chomp(&chars("key: |+2 # c\n"), YamlBlockChomp::Strip)), "key: |2 -# c\n");
    assert_eq!(text(&rewrite_yaml_block_chomp(&chars("- >-"), YamlBlockChomp::Keep)), "- >+");
    assert_eq!(text(&rewrite_yaml_block_chomp(&chars("- >-"), YamlBlockChomp::Clip)), "- >");
    assert_eq!(text(&rewrite_yaml_block_chomp(&chars("text\n"), YamlBlockChomp::Keep)), "text\n");
    assert_eq!(chomp_for_block_scalar_output(&chars("")), YamlBlockChomp::Strip);
    assert_eq!(chomp_for_block_scalar_output(&chars("x")), YamlBlockChomp::Strip);
    assert_eq!(chomp_for_block_scalar_output(&chars("x\n")), YamlBlockChomp::Clip);
    assert_eq!(chomp_for_block_scalar_output(&chars("x\r\n")), YamlBlockChomp::Clip);
    assert_eq!(chomp_for_block_scalar_output(&chars("x\n\n")), YamlBlockChomp::Keep);
    assert_eq!(chomp_for_block_scalar_output(&chars("x\r\n\r\n")), YamlBlockChomp::Keep);
    assert!(formatted_ends_with_multiple_line_endings(&chars("\r\r")));
    assert!(!formatted_ends_with_multiple_line_endings(&chars("\r\n")));
    assert_eq!(
        text(&format_external_yaml_block_header(&chars("key:   |\n"), &chars("x\n\n"))),
        "key: |+\n"
    );
}

#[test]
fn folded_markers() {
    assert!(simple_folded_block_header(&chars("a: >- # c")));
    assert!(!simple_folded_block_header(&chars("a: >2")));
    assert!(!simple_folded_block_header(&chars("a: |")));
    assert_eq!(text(&replace_folded_block_marker(&chars("a: >-\n"))), "a: |-\n");
    assert_eq!(text(&replace_folded_block_marker(&chars("a: x # >"))), "a: x # >");
    assert_eq!(text(&format_markdown_yaml_block_value(&chars("  >  "))), "|");
}

#[test]
fn line_endings_and_indents() {
    let mut t = chars("a");
    append_trailing_line_ending_if_missing(&mut t, &chars("\r\n"));
    assert_eq!(text(&t), "a\r\n");
    append_trailing_line_ending_if_missing(&mut t, &chars("\n"));
    assert_eq!(text(&t), "a\r\n");
    let mut e = Vec::new();
    append_trailing_line_ending_if_missing(&mut e, &chars("\n"));
    assert!(e.is_empty());
    assert_eq!(block_scalar_body_indent(&chars("    a\n  b\n\n      \n")), Some(2));
    assert_eq!(block_scalar_body_indent(&chars("   \n")), None);
    assert_eq!(block_scalar_body_indent(&chars("")), None);
}

#[test]
fn ranges_and_line_values() {
    assert_eq!(trim_ascii_range(&chars(" ab  "), 0, 5), Some((1, 3)));
    assert_eq!(trim_ascii_range(&chars("   "), 0, 3), None);
    assert_eq!(trim_ascii_range(&chars("abc"), 2, 1), None);
    let v = split_line_value_comment(&chars("k: v  # c"), 3, 10);
    assert_eq!((v.value.start, v.value.end), (13, 14));
    let c = v.trailing_comment.expect("a comment");
    assert_eq!((c.start, c.end), (16, 19));
    let v = split_line_value_comment(&chars("k: a#b"), 3, 0);
    assert_eq!((v.value.start, v.value.end), (3, 6));
    assert!(v.trailing_comment.is_none());
}
