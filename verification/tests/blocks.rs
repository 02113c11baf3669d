use yamark::source::{SourceBuffer, Span};
use yamark::yaml_blocks::{
    block_scalar_at, flow_collapse_hint_at, flow_collection_block_at,
    flow_collection_block_from_value, line_has_flow_collapse_hint_value,
    quoted_scalar_block_from_value, scalar_metadata, tab_indented_block_at,
    unsupported_multiline_flow_collection, unsupported_yaml_line_syntax,
    yaml_scan_has_active_fmt_directive, yaml_scan_has_unsupported_preserve_syntax,
    FlowCollapseRest, FlowCollectionScan,
};
use yamark::yaml_model::YamlBlockChomp;
use yamark::yaml_scan::scan_yaml_lines;

fn source(s: &str) -> SourceBuffer {
    SourceBuffer::new(s.chars().collect())
}

#[test]
fn scalar_metadata_takes_tag_and_anchor() {
    let src = source("key: !t &a  value  \n");
    let m = scalar_metadata(&src, Span::new(5, 19));
    assert_eq!(m.tag, Some(Span::new(5, 7)));
    assert_eq!(m.anchor, Some(Span::new(8, 10)));
    assert_eq!(m.content, Span::new(12, 17));
    let plain = scalar_metadata(&src, Span::new(12, 17));
    assert_eq!(plain.tag, None);
    assert_eq!(plain.anchor, None);
    assert_eq!(plain.content, Span::new(12, 17));
}

#[test]
fn block_scalar_takes_deeper_and_blank_lines() {
    let src = source("a: |-\n  x\n\n  y\nb: 1\n");
    let block = block_scalar_at(&src, 0, src.lines.len()).unwrap();
    assert_eq!(block.header, Span::new(0, 6));
    assert_eq!(block.header_info.chomp, YamlBlockChomp::Strip);
    assert_eq!(block.header_info.indent, None);
    assert_eq!(block.value, Span::new(3, 5));
    assert_eq!(block.body, Span::new(6, 15));
    assert_eq!(block.full, Span::new(0, 15));
    assert_eq!(block.trailing_comment, None);
    assert!(block_scalar_at(&src, 4, src.lines.len()).is_none());
}

#[test]
fn block_scalar_header_with_comment() {
    let src = source("k: > # c\n");
    let block = block_scalar_at(&src, 0, 1).unwrap();
    assert_eq!(block.header_info.chomp, YamlBlockChomp::Clip);
    assert_eq!(block.value, Span::new(3, 4));
    assert_eq!(block.body, Span::new(9, 9));
    assert_eq!(block.trailing_comment, Some(Span::new(5, 8)));
    let digits = source("k: |2+\n");
    let block = block_scalar_at(&digits, 0, 1).unwrap();
    assert_eq!(block.header_info.indent, Some(2));
    assert_eq!(block.header_info.chomp, YamlBlockChomp::Keep);
}

#[test]
fn quoted_scalar_over_two_lines() {
    let src = source("k: \"a\n b\" # c\nz: 1\n");
    let block = quoted_scalar_block_from_value(&src, 0, 3, 3, 0).unwrap();
    assert_eq!(block.full, Span::new(0, 14));
    assert_eq!(block.value, Span::new(3, 9));
    assert_eq!(block.trailing_comment, Some(Span::new(10, 13)));
    let single = source("k: \"a\"\n");
    assert!(quoted_scalar_block_from_value(&single, 0, 1, 3, 0).is_none());
}

#[test]
fn flow_collection_over_lines() {
    let src = source("a: [1,\n  2] # c\nb: 2\n");
    match flow_collection_block_at(&src, 0, 3, 3, 0) {
        Some(FlowCollectionScan::Complete(block)) => {
            assert_eq!(block.collection, Span::new(3, 11));
            assert_eq!(block.value, Span::new(3, 11));
            assert_eq!(block.span, Span::new(0, 16));
            assert_eq!(block.trailing_comment, Some(Span::new(12, 15)));
        }
        other => panic!("unexpected scan {:?}", other),
    }
    assert_eq!(flow_collection_block_at(&src, 0, 1, 3, 0), Some(FlowCollectionScan::Incomplete));
    assert_eq!(flow_collection_block_at(&src, 0, 3, 2, 0), None);
    let tagged = source("a: !t [x]\n");
    match flow_collection_block_from_value(&tagged, 0, 1, 3, 0) {
        Some(FlowCollectionScan::Complete(block)) => {
            assert_eq!(block.collection, Span::new(6, 9));
            assert_eq!(block.value, Span::new(3, 9));
            assert_eq!(block.span, Span::new(0, 10));
            assert_eq!(block.trailing_comment, None);
        }
        other => panic!("unexpected scan {:?}", other),
    }
    let trailing = source("a: [x] y\n");
    assert_eq!(flow_collection_block_at(&trailing, 0, 1, 3, 0), None);
}

#[test]
fn tab_indented_block_extent() {
    let src = source("\tA\n\t\tB\n  c\nd\n");
    assert_eq!(tab_indented_block_at(&src, 0, src.lines.len()), Span::new(0, 11));
}

#[test]
fn unsupported_lines() {
    let directive = source("%YAML 1.2\n");
    assert!(unsupported_yaml_line_syntax(&directive, 0, 1));
    let plain = source("a: b\n");
    assert!(!unsupported_yaml_line_syntax(&plain, 0, 1));
    let multiline_key = source("? k\n? j\n");
    assert!(unsupported_yaml_line_syntax(&multiline_key, 0, 2));
    let explicit = source("? k\n: v\n");
    assert!(!unsupported_yaml_line_syntax(&explicit, 0, 2));
    let flow = source("a: [x,\n? y]\n");
    assert!(unsupported_multiline_flow_collection(&flow, 0, 2));
    let simple_flow = source("a: [x,\n  y]\n");
    assert!(!unsupported_multiline_flow_collection(&simple_flow, 0, 2));
}

#[test]
fn scan_level_checks() {
    let hidden = source("a: |\n  # fmt: off\nb: 1\n");
    let scan = scan_yaml_lines(&hidden, Span::new(0, hidden.text.len()));
    assert!(!yaml_scan_has_active_fmt_directive(&hidden, &scan));
    let active = source("# fmt: off\na: 1\n");
    let scan = scan_yaml_lines(&active, Span::new(0, active.text.len()));
    assert!(yaml_scan_has_active_fmt_directive(&active, &scan));

    let block_then_directive = source("a: |\n  %x\n%YAML 1.2\n");
    let scan = scan_yaml_lines(&block_then_directive, Span::new(0, block_then_directive.text.len()));
    assert!(yaml_scan_has_unsupported_preserve_syntax(&block_then_directive, &scan));
    let block_only = source("a: |\n  %x\nb: 1\n");
    let scan = scan_yaml_lines(&block_only, Span::new(0, block_only.text.len()));
    assert!(!yaml_scan_has_unsupported_preserve_syntax(&block_only, &scan));
}

#[test]
fn collapse_hints() {
    let src = source("a: [\n  - x\n");
    let hint = flow_collapse_hint_at(&src, 0, 2, 3, false).unwrap();
    assert_eq!(hint.opener, Span::new(3, 4));
    assert_eq!(hint.rest, FlowCollapseRest::Empty);
    assert!(line_has_flow_collapse_hint_value(&src, 0, 2));
    let inline = source("a: {b: 1\n  c: 2\n");
    let hint = flow_collapse_hint_at(&inline, 0, 2, 3, true).unwrap();
    assert_eq!(hint.rest, FlowCollapseRest::InlineMapping { key_start: 4 });
    assert!(flow_collapse_hint_at(&inline, 0, 2, 3, false).is_none());
    let closed = source("a: [x]\n");
    assert!(flow_collapse_hint_at(&closed, 0, 1, 3, false).is_none());
}
