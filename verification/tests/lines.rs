use yamark::diagnostic::{Diagnostic, Severity, YamarkError};
use yamark::yaml_lines::{
    block_scalar_header_info, contains_seq, document_marker_kind, find_trailing_comment, indentation, mapping_colon_at,
    node_properties_content_start, quoted_scalar_close, sequence_line, simple_mapping_colon, strip_newline,
    DocumentMarkerKind, Newline,
};
use yamark::yaml_model::YamlBlockChomp;

fn chars(s: &str) -> Vec<char> {
    s.chars().collect()
}

#[test]
fn line_breaks_are_split_off() {
    assert_eq!(strip_newline(&chars("a\r\n")), (1, Newline::CrLf));
    assert_eq!(strip_newline(&chars("a\n")), (1, Newline::Lf));
    assert_eq!(strip_newline(&chars("a\r")), (1, Newline::Cr));
    assert_eq!(strip_newline(&chars("a")), (1, Newline::Missing));
    assert_eq!(indentation(&chars("   x")), 3);
    assert_eq!(indentation(&chars("\t x")), 0);
}

#[test]
fn trailing_comments_outside_quotes_and_flows() {
    assert_eq!(find_trailing_comment(&chars("key: value # note"), 0), Some(11));
    assert_eq!(find_trailing_comment(&chars("key: a#b"), 0), None);
    assert_eq!(find_trailing_comment(&chars("key: 'x # y' # z"), 0), Some(13));
    assert_eq!(find_trailing_comment(&chars("key: \"x \\\" # y\" # z"), 0), Some(16));
    assert_eq!(find_trailing_comment(&chars("key: [a, # b] # c"), 0), Some(14));
    assert_eq!(find_trailing_comment(&chars("#all"), 0), Some(0));
    assert_eq!(find_trailing_comment(&chars("x #y"), 2), Some(2));
}

#[test]
fn mapping_colons() {
    assert_eq!(simple_mapping_colon(&chars("a: b")), Some(1));
    assert_eq!(simple_mapping_colon(&chars("'a:b': c")), Some(5));
    assert_eq!(simple_mapping_colon(&chars("[a: b]")), None);
    assert_eq!(mapping_colon_at(&chars("  key: v"), 2), Some(5));
    assert_eq!(mapping_colon_at(&chars("  key:v"), 2), None);
    assert_eq!(mapping_colon_at(&chars("  key: v"), 0), None);
    assert_eq!(mapping_colon_at(&chars("- key: v"), 0), None);
    assert_eq!(mapping_colon_at(&chars("key:"), 0), Some(3));
}

#[test]
fn sequence_markers() {
    assert_eq!(sequence_line(&chars("  - x"), 2), Some(2));
    assert_eq!(sequence_line(&chars("  -x"), 2), None);
    assert_eq!(sequence_line(&chars("-"), 0), Some(0));
}

#[test]
fn document_markers() {
    assert_eq!(document_marker_kind(&chars("---\n")), Some(DocumentMarkerKind::Start));
    assert_eq!(document_marker_kind(&chars("... # end")), Some(DocumentMarkerKind::End));
    assert_eq!(document_marker_kind(&chars("--- !tag")), Some(DocumentMarkerKind::Start));
    assert_eq!(document_marker_kind(&chars("----")), None);
    assert_eq!(document_marker_kind(&chars("text")), None);
}

#[test]
fn quoted_scalar_ends() {
    assert_eq!(quoted_scalar_close(&chars("'it''s' x"), 0, '\''), Some(6));
    assert_eq!(quoted_scalar_close(&chars("\"a\\\"b\" x"), 0, '"'), Some(5));
    assert_eq!(quoted_scalar_close(&chars("'open"), 0, '\''), None);
}

#[test]
fn block_scalar_headers() {
    let h = block_scalar_header_info(&chars(" 2- ")).expect("a header");
    assert_eq!(h.indent, Some(2));
    assert_eq!(h.chomp, YamlBlockChomp::Strip);
    let h = block_scalar_header_info(&chars("")).expect("a header");
    assert_eq!(h.indent, None);
    assert_eq!(h.chomp, YamlBlockChomp::Clip);
    assert_eq!(block_scalar_header_info(&chars("+")).map(|h| h.chomp), Some(YamlBlockChomp::Keep));
    assert!(block_scalar_header_info(&chars("0")).is_none());
    assert!(block_scalar_header_info(&chars("+-")).is_none());
    assert!(block_scalar_header_info(&chars("12")).is_none());
    assert!(block_scalar_header_info(&chars("x")).is_none());
}

#[test]
fn node_properties_are_skipped() {
    assert_eq!(node_properties_content_start(&chars("!!str &a value"), 0), 9);
    assert_eq!(node_properties_content_start(&chars("plain"), 0), 0);
    assert!(contains_seq(&chars("a: {x}"), &chars("{x")));
    assert!(!contains_seq(&chars("abc"), &chars("cd")));
}

#[test]
fn diagnostics_render() {
    let d = Diagnostic::error("bad input".to_string()).at(0, 7).with_path("dir/a.yaml");
    assert_eq!((d.line, d.column), (1, 7));
    assert_eq!(d.render(), "dir/a.yaml:1:7: error: bad input");
    let n = Diagnostic::note("kept".to_string());
    assert_eq!(n.severity, Severity::Note);
    assert_eq!(n.render(), "1:1: note: kept");
    let e = YamarkError::at("oops".to_string(), 3, 0).with_path("x.json");
    assert_eq!(e.message(), "x.json:3:1: error: oops");
    let e = YamarkError::from_diagnostic(Diagnostic::note("n".to_string()).at(2, 2));
    assert_eq!(e.message(), "2:2: note: n");
}
