use yamark::source::Span;
use yamark::yaml_model::{
    YamlAstKind, YamlAstNode, YamlDocumentAst, YamlEmitPlan, YamlMapping, YamlMappingPair,
    YamlNodeId, YamlRoot, YamlScalar, YamlScalarSemantic, YamlScalarStyle,
};
use yamark::yaml_validate::{
    validate_yaml_documents_equivalent, yaml_asts_equivalent, YamlDocumentSide,
};

fn node(kind: YamlAstKind, span: Span) -> YamlAstNode {
    YamlAstNode {
        kind,
        span,
        leading_trivia: Vec::new(),
        state: 0,
        emit: YamlEmitPlan::Unplanned,
        must_preserve_source: None,
        inline_width: 0,
        flow_inline_width: 0,
        source_indent: 0,
    }
}

fn scalar(style: YamlScalarStyle, semantic: YamlScalarSemantic, value: Span) -> YamlAstKind {
    YamlAstKind::Scalar(YamlScalar {
        style,
        semantic,
        value,
        header: None,
        block_header: None,
        body: None,
        nested: None,
        tag: None,
        anchor: None,
        trailing_comment: None,
    })
}

/// `key: value` with the key at 0..1 and the value at `value`.
fn mapping(value: Span, style: YamlScalarStyle, semantic: YamlScalarSemantic) -> YamlDocumentAst {
    let mut ast = YamlDocumentAst::new(Span::new(0, value.end));
    let key = ast.push_node(node(
        scalar(YamlScalarStyle::Plain, YamlScalarSemantic::String, Span::new(0, 1)),
        Span::new(0, 1),
    ));
    let val = ast.push_node(node(scalar(style, semantic, value), value));
    let map = ast.push_node(node(
        YamlAstKind::Mapping(YamlMapping {
            indent: 0,
            pairs: vec![YamlMappingPair {
                leading_trivia: Vec::new(),
                key: Span::new(0, 1),
                key_node: Some(key),
                colon: Span::new(1, 2),
                line: Span::new(0, value.end),
                source: Span::new(0, value.end),
                explicit: false,
                trailing_comment: None,
                value: Some(val),
            }],
            tag: None,
            anchor: None,
            flow_collapse_hint: None,
        }),
        Span::new(0, value.end),
    ));
    ast.roots.push(YamlRoot { node: Some(map), start_marker: None, end_marker: None });
    let _: YamlNodeId = map;
    ast
}

fn chars(s: &str) -> Vec<char> {
    s.chars().collect()
}

#[test]
fn respaced_mapping_keeps_its_value() {
    let before = chars("a: 1\n");
    let after = chars("a:   1\n");
    let b = mapping(Span::new(3, 4), YamlScalarStyle::Plain, YamlScalarSemantic::Integer);
    let a = mapping(Span::new(5, 6), YamlScalarStyle::Plain, YamlScalarSemantic::Integer);
    assert_eq!(yaml_asts_equivalent(&before, &b, &after, &a).unwrap(), true);
}

#[test]
fn changed_scalar_is_detected() {
    let before = chars("a: 1\n");
    let after = chars("a: 2\n");
    let b = mapping(Span::new(3, 4), YamlScalarStyle::Plain, YamlScalarSemantic::Integer);
    let a = mapping(Span::new(3, 4), YamlScalarStyle::Plain, YamlScalarSemantic::Integer);
    assert_eq!(yaml_asts_equivalent(&before, &b, &after, &a).unwrap(), false);
    let sides = |source: Vec<char>, ast: YamlDocumentAst| YamlDocumentSide {
        range: Span::new(0, source.len()),
        source,
        yaml: Some(ast),
    };
    let err = validate_yaml_documents_equivalent(&vec![sides(before.clone(), b)], &vec![sides(after, a)])
        .unwrap_err();
    assert_eq!(err.diagnostic.message, "formatter changed the YAML value");
}

#[test]
fn requoted_string_keeps_its_value() {
    let before = chars("a: x\n");
    let after = chars("a: 'x'\n");
    let b = mapping(Span::new(3, 4), YamlScalarStyle::Plain, YamlScalarSemantic::String);
    let a = mapping(Span::new(3, 6), YamlScalarStyle::SingleQuoted, YamlScalarSemantic::String);
    assert_eq!(yaml_asts_equivalent(&before, &b, &after, &a).unwrap(), true);
}

#[test]
fn forbidden_characters_and_document_counts() {
    let before = YamlDocumentSide { source: chars("a\n"), range: Span::new(0, 2), yaml: None };
    let bad = YamlDocumentSide { source: chars("a\u{1}\n"), range: Span::new(0, 3), yaml: None };
    let err = validate_yaml_documents_equivalent(&vec![before.clone()], &vec![bad]).unwrap_err();
    assert_eq!(err.diagnostic.message, "formatter produced invalid YAML");
    let err = validate_yaml_documents_equivalent(&vec![before.clone()], &vec![]).unwrap_err();
    assert_eq!(err.diagnostic.message, "formatter changed the YAML value");
    assert!(validate_yaml_documents_equivalent(&vec![before.clone()], &vec![before]).is_ok());
}
