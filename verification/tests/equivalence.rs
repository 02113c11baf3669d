use yamark::yaml_equivalence::{
    apply_block_chomp, comparable_scalar_is_empty_string, comparable_scalar_value, decode_block_scalar,
    decode_multiline_plain_scalar, decode_plain_scalar, decode_quoted_scalar, fold_block_lines, leading_spaces,
    normalize_line_endings, yaml_bool, yaml_forbidden_character, BlockLine, ComparableScalar,
};
use yamark::yaml_model::{YamlBlockChomp, YamlBlockScalarHeader, YamlScalarSemantic, YamlScalarStyle};

fn chars(s: &str) -> Vec<char> {
    s.chars().collect()
}

fn text(v: &[char]) -> String {
    v.iter().collect()
}

fn header(indent: Option<u8>, chomp: YamlBlockChomp) -> YamlBlockScalarHeader {
    YamlBlockScalarHeader { indent, chomp, base_indent: 0 }
}

fn block(body: &str, style: YamlScalarStyle, h: YamlBlockScalarHeader, parent: usize) -> Option<String> {
    decode_block_scalar(&chars(body), style, h, parent).map(|v| text(&v))
}

#[test]
fn literal_and_folded_blocks() {
    let clip = header(None, YamlBlockChomp::Clip);
    assert_eq!(block("  a\n  b\n", YamlScalarStyle::LiteralBlock, clip, 0).as_deref(), Some("a\nb\n"));
    assert_eq!(block("  a\n  b\n", YamlScalarStyle::FoldedBlock, clip, 0).as_deref(), Some("a b\n"));
    assert_eq!(
        block("  a\r\n  b", YamlScalarStyle::LiteralBlock, header(None, YamlBlockChomp::Strip), 0).as_deref(),
        Some("a\nb")
    );
    assert_eq!(
        block("  a\n\n", YamlScalarStyle::LiteralBlock, header(None, YamlBlockChomp::Keep), 0).as_deref(),
        Some("a\n\n")
    );
}

#[test]
fn folded_blocks_keep_more_indented_lines() {
    let clip = header(None, YamlBlockChomp::Clip);
    assert_eq!(block("  a\n    b\n  c\n", YamlScalarStyle::FoldedBlock, clip, 0).as_deref(), Some("a\n  b\nc\n"));
    assert_eq!(block("  a\n\n  b\n", YamlScalarStyle::FoldedBlock, clip, 0).as_deref(), Some("a\nb\n"));
}

#[test]
fn explicit_indentation() {
    let h = header(Some(1), YamlBlockChomp::Clip);
    assert_eq!(block("     x\n", YamlScalarStyle::LiteralBlock, h, 2).as_deref(), Some("  x\n"));
}

#[test]
fn malformed_blocks() {
    let clip = header(None, YamlBlockChomp::Clip);
    assert_eq!(block("  a\n b\n", YamlScalarStyle::LiteralBlock, clip, 0), None);
    assert_eq!(block("  a\n", YamlScalarStyle::LiteralBlock, clip, 2), None);
    assert_eq!(block("    \n  a\n", YamlScalarStyle::LiteralBlock, clip, 0), None);
    assert_eq!(block("  \u{feff}a\n", YamlScalarStyle::LiteralBlock, clip, 0), None);
    assert_eq!(block("  a\n", YamlScalarStyle::Plain, clip, 0), None);
}

#[test]
fn folding_and_chomping() {
    let lines = vec![
        BlockLine { text: chars("a"), more_indented: false },
        BlockLine { text: chars("b"), more_indented: false },
        BlockLine { text: chars(""), more_indented: false },
        BlockLine { text: chars("c"), more_indented: false },
    ];
    assert_eq!(text(&fold_block_lines(&lines)), "a b\nc");
    let mut v = chars("x\n\n\n");
    apply_block_chomp(&mut v, YamlBlockChomp::Clip);
    assert_eq!(text(&v), "x\n");
    let mut v = chars("x\n\n");
    apply_block_chomp(&mut v, YamlBlockChomp::Strip);
    assert_eq!(text(&v), "x");
    let mut v = chars("\n\n");
    apply_block_chomp(&mut v, YamlBlockChomp::Clip);
    assert_eq!(text(&v), "");
}

#[test]
fn plain_and_quoted_decoding() {
    assert_eq!(text(&normalize_line_endings(&chars("a\r\nb\rc"))), "a\nb\nc");
    assert_eq!(leading_spaces(&chars("   x ")), 3);
    assert_eq!(text(&decode_multiline_plain_scalar(&chars("a\n  b\n\n  c"))), "a b\nc");
    assert_eq!(text(&decode_plain_scalar(&chars("one line"))), "one line");
    assert_eq!(text(&decode_plain_scalar(&chars("x\r\n y"))), "x y");
    assert_eq!(decode_quoted_scalar(&chars("'a''b'")).map(|v| text(&v)).as_deref(), Some("a'b"));
    assert_eq!(decode_quoted_scalar(&chars("\"a\\nb\"")).map(|v| text(&v)).as_deref(), Some("a\nb"));
    assert_eq!(decode_quoted_scalar(&chars("\"a\\\n  b\"")).map(|v| text(&v)).as_deref(), Some("ab"));
    assert_eq!(decode_quoted_scalar(&chars("'a\nb'")), None);
    assert_eq!(decode_quoted_scalar(&chars("bare")), None);
}

#[test]
fn booleans_and_forbidden_characters() {
    assert_eq!(yaml_bool(&chars("True")), Some(true));
    assert_eq!(yaml_bool(&chars("no")), None);
    assert!(yaml_forbidden_character('\u{0}'));
    assert!(yaml_forbidden_character('\u{fffe}'));
    assert!(!yaml_forbidden_character('\t'));
    assert!(!yaml_forbidden_character('a'));
}

#[test]
fn comparable_values() {
    let v = comparable_scalar_value(&chars("TRUE"), None, YamlScalarStyle::Plain, YamlScalarSemantic::Boolean, None, 0);
    assert!(matches!(v, Some(ComparableScalar::Boolean(true))));
    let v = comparable_scalar_value(&chars("yes"), None, YamlScalarStyle::Plain, YamlScalarSemantic::Boolean, None, 0);
    assert!(v.is_none());
    let v = comparable_scalar_value(&chars("''"), None, YamlScalarStyle::SingleQuoted, YamlScalarSemantic::String, None, 0)
        .expect("a value");
    assert!(comparable_scalar_is_empty_string(&v));
    let h = YamlBlockScalarHeader { indent: None, chomp: YamlBlockChomp::Strip, base_indent: 0 };
    let body = chars("  x\n");
    match comparable_scalar_value(&chars("|-"), Some(&body), YamlScalarStyle::LiteralBlock, YamlScalarSemantic::Unknown, Some(h), 0) {
        Some(ComparableScalar::Unknown(v)) => assert_eq!(text(&v), "x"),
        _ => panic!("expected an unknown scalar"),
    }
    let v = comparable_scalar_value(&chars("a\u{feff}"), None, YamlScalarStyle::Plain, YamlScalarSemantic::String, None, 0);
    assert!(v.is_none());
}
