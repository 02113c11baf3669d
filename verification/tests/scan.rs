use yamark::source::{LineEnding, SourceBuffer, Span};
use yamark::yaml_scan::{
    scan_yaml_lines, scan_yaml_lines_basic, YamlIndicatorKind, YamlLineKind, YamlPropertyTokenKind,
    YamlScalarTokenKind, YamlTabIndentation,
};

fn source(s: &str) -> SourceBuffer {
    SourceBuffer::new(s.chars().collect())
}

#[test]
fn lines_are_split_with_their_endings() {
    let src = source("a: 1\r\nb: 2\rc");
    assert_eq!(src.lines.len(), 3);
    assert_eq!(src.lines[0].ending, LineEnding::CrLf);
    assert_eq!(src.lines[1].ending, LineEnding::Cr);
    assert_eq!(src.lines[2].ending, LineEnding::Missing);
    assert_eq!(src.line_column_at(7), (2, 2));
    assert_eq!(src.line_column_at(0), (1, 1));
}

#[test]
fn scan_reports_indicators_properties_and_scalar() {
    let src = source("key: !tag &a 'v # x' # c\n  - [x, y]\n");
    let scan = scan_yaml_lines(&src, Span::new(0, src.text.len()));
    assert_eq!(scan.start_line, 0);
    assert_eq!(scan.end_line, 2);
    assert_eq!(scan.lines.len(), 2);
    assert_eq!(scan.tab_indentation, None);

    let first = &scan.lines[0];
    assert_eq!(first.kind, YamlLineKind::Other);
    assert_eq!(first.indent, 0);
    let kinds: Vec<YamlIndicatorKind> = first.indicators.iter().map(|i| i.kind).collect();
    assert_eq!(kinds, vec![YamlIndicatorKind::MappingValue]);
    assert_eq!(first.indicators[0].span, Span::new(3, 4));
    let props: Vec<(YamlPropertyTokenKind, usize, usize)> =
        first.properties.iter().map(|p| (p.kind, p.span.start, p.span.end)).collect();
    assert_eq!(
        props,
        vec![(YamlPropertyTokenKind::Tag, 5, 9), (YamlPropertyTokenKind::Anchor, 10, 12)]
    );
    let scalar = first.scalar.unwrap();
    assert_eq!(scalar.kind, YamlScalarTokenKind::SingleQuoted);
    assert_eq!(scalar.span, Span::new(13, 20));

    let second = &scan.lines[1];
    assert_eq!(second.indent, 2);
    let kinds: Vec<YamlIndicatorKind> = second.indicators.iter().map(|i| i.kind).collect();
    assert_eq!(
        kinds,
        vec![
            YamlIndicatorKind::SequenceEntry,
            YamlIndicatorKind::FlowSequenceStart,
            YamlIndicatorKind::FlowEntrySeparator,
            YamlIndicatorKind::FlowSequenceEnd,
        ]
    );
    assert_eq!(second.scalar.unwrap().kind, YamlScalarTokenKind::Plain);
}

#[test]
fn scan_finds_plain_and_block_scalars() {
    let src = source("a: plain text  # note\nb: |-\n# only\n--- x\n");
    let scan = scan_yaml_lines(&src, Span::new(0, src.text.len()));
    let plain = scan.lines[0].scalar.unwrap();
    assert_eq!(plain.kind, YamlScalarTokenKind::Plain);
    assert_eq!(plain.span, Span::new(3, 13));
    let block = scan.lines[1].scalar.unwrap();
    assert_eq!(block.kind, YamlScalarTokenKind::BlockScalarHeader);
    assert_eq!(block.span, Span::new(25, 27));
    assert_eq!(scan.lines[2].kind, YamlLineKind::Comment);
    assert_eq!(scan.lines[2].scalar, None);
    assert_eq!(scan.lines[3].kind, YamlLineKind::DocumentMarker);
}

#[test]
fn tabs_in_indentation_are_found() {
    let src = source("a: 1\n \tb: 2\n\tc: 3\n");
    let scan = scan_yaml_lines(&src, Span::new(0, src.text.len()));
    let tab = Some(YamlTabIndentation { line_index: 1, column: 1 });
    assert_eq!(scan.tab_indentation, tab);
    assert_eq!(scan.has_tab_indentation(&src), tab);
    let basic = scan_yaml_lines_basic(&src, Span::new(0, src.text.len()));
    assert_eq!(basic.tab_indentation, tab);
    assert_eq!(basic.scanned_lines, 3);
    let later = scan_yaml_lines_basic(&src, Span::new(12, src.text.len()));
    assert_eq!(later.start_line, 2);
    assert_eq!(later.tab_indentation, Some(YamlTabIndentation { line_index: 2, column: 0 }));
}
