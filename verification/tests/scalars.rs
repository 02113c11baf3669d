use yamark::yaml_model::{YamlScalarSemantic, YamlScalarStyle};
use yamark::yaml_quote::{comment_lines, emit_yaml_comment_line, emit_yaml_double_quoted, emit_yaml_mapping_key, trim_comment_line};
use yamark::yaml_scalar::{decode_quoted, DecodePolicy};
use yamark::yaml_semantic::{
    alias_scalar, normalize_yaml_bool, plain_string_safe, scalar_semantic, scalar_style, yaml_bool, yaml_float_semantic,
    yaml_integer, yaml_null,
};

fn chars(s: &str) -> Vec<char> {
    s.chars().collect()
}

fn text(v: &[char]) -> String {
    v.iter().collect()
}

fn quoted(s: &str) -> String {
    let mut out = Vec::new();
    emit_yaml_double_quoted(&mut out, &chars(s));
    text(&out)
}

fn decoded(raw: &str, policy: DecodePolicy) -> Option<String> {
    decode_quoted(&chars(raw), policy).map(|v| text(&v))
}

#[test]
fn double_quoted_escapes() {
    assert_eq!(quoted("plain"), "\"plain\"");
    assert_eq!(quoted("a\"b\\c"), "\"a\\\"b\\\\c\"");
    assert_eq!(quoted("\t\n\r\u{0}\u{1b}"), "\"\\t\\n\\r\\0\\e\"");
    assert_eq!(quoted("\u{1}\u{7f}\u{85}\u{a0}\u{2028}\u{2029}\u{fffe}"), "\"\\u0001\\x7F\\N\\_\\L\\P\\uFFFE\"");
    assert_eq!(quoted("é😀"), "\"é😀\"");
}

#[test]
fn quoted_scalars_decode() {
    assert_eq!(decoded("'it''s'", DecodePolicy::Format).as_deref(), Some("it's"));
    assert_eq!(decoded("\"a\\tb\\x41\\u00e9\\U0001F600\"", DecodePolicy::Format).as_deref(), Some("a\tbAé😀"));
    assert_eq!(decoded("\"a\\\n   b\"", DecodePolicy::Format).as_deref(), Some("ab"));
    assert_eq!(decoded("\"a\\\n   b\"", DecodePolicy::Width), None);
    assert_eq!(decoded("'a\nb'", DecodePolicy::Format).as_deref(), Some("a\nb"));
    assert_eq!(decoded("'a\nb'", DecodePolicy::Validation), None);
    assert_eq!(decoded("\"a\nb\"", DecodePolicy::Format), None);
    assert_eq!(decoded("'it's'", DecodePolicy::Format), None);
    assert_eq!(decoded("\"\\q\"", DecodePolicy::Format), None);
    assert_eq!(decoded("\"\\uD800\"", DecodePolicy::Format), None);
    assert_eq!(decoded("\"open", DecodePolicy::Format), None);
    assert_eq!(decoded("plain", DecodePolicy::Format), None);
}

#[test]
fn double_quoting_round_trips() {
    for value in ["", "x", "a\"b", "tab\there", "\u{1}\u{7f}\u{9f}", "\u{fffe}\u{ffff}", "line\nbreak\r", "é😀\\"] {
        let q = quoted(value);
        assert_eq!(decoded(&q, DecodePolicy::Format).as_deref(), Some(value));
        assert_eq!(decoded(&q, DecodePolicy::Validation).as_deref(), Some(value));
    }
    assert_eq!(decoded(&quoted("a\u{85}b"), DecodePolicy::Format), None);
}

#[test]
fn mapping_keys_quote_only_when_needed() {
    let key = |k: &str| {
        let mut out = Vec::new();
        emit_yaml_mapping_key(&mut out, &chars(k));
        text(&out)
    };
    assert_eq!(key("name"), "name");
    assert_eq!(key("null"), "\"null\"");
    assert_eq!(key("a b"), "\"a b\"");
    assert_eq!(key(""), "\"\"");
}

#[test]
fn comment_lines_split_on_all_breaks() {
    let lines: Vec<String> = comment_lines(&chars("a\r\nb\u{2028}c\rd")).iter().map(|l| text(l)).collect();
    assert_eq!(lines, vec!["a", "b", "c", "d"]);
    let empty: Vec<String> = comment_lines(&chars("")).iter().map(|l| text(l)).collect();
    assert_eq!(empty, vec![""]);
    assert_eq!(text(&trim_comment_line(&chars("  * note  "))), "note");
}

#[test]
fn comment_line_escapes_unsafe_characters() {
    let mut out = Vec::new();
    emit_yaml_comment_line(&mut out, &chars("  fmt: off\u{7}  "), 2, &chars("jsonc"));
    assert_eq!(text(&out), "  # [jsonc] fmt: off\\x07\n");
    let mut out = Vec::new();
    emit_yaml_comment_line(&mut out, &chars("   "), 0, &chars("json5"));
    assert_eq!(text(&out), "#\n");
}

#[test]
fn core_schema_semantics() {
    assert_eq!(scalar_semantic(&chars(" 12 ")), YamlScalarSemantic::Integer);
    assert_eq!(scalar_semantic(&chars("0x1F")), YamlScalarSemantic::Integer);
    assert_eq!(scalar_semantic(&chars("1_000")), YamlScalarSemantic::Integer);
    assert_eq!(scalar_semantic(&chars("1.5e3")), YamlScalarSemantic::Float);
    assert_eq!(scalar_semantic(&chars("-.inf")), YamlScalarSemantic::Float);
    assert_eq!(scalar_semantic(&chars("~")), YamlScalarSemantic::Null);
    assert_eq!(scalar_semantic(&chars("")), YamlScalarSemantic::Null);
    assert_eq!(scalar_semantic(&chars("True")), YamlScalarSemantic::Boolean);
    assert_eq!(scalar_semantic(&chars("yes")), YamlScalarSemantic::String);
    assert_eq!(scalar_semantic(&chars("'12'")), YamlScalarSemantic::String);
    assert_eq!(scalar_style(&chars("\"x\"")), YamlScalarStyle::DoubleQuoted);
}

#[test]
fn core_schema_predicates() {
    assert!(yaml_integer(&chars("+0o17")));
    assert!(!yaml_integer(&chars("1__0")));
    assert!(!yaml_integer(&chars("0b")));
    assert!(yaml_null(&chars("NULL")));
    assert!(!yaml_null(&chars("nil")));
    assert_eq!(yaml_bool(&chars("FALSE")), Some(false));
    assert_eq!(yaml_bool(&chars("tRue")), None);
    assert!(yaml_float_semantic(&chars(".5")));
    assert!(!yaml_float_semantic(&chars("5")));
    assert!(!yaml_float_semantic(&chars(".")));
    assert_eq!(normalize_yaml_bool(&chars("TRUE")).map(|v| text(&v)).as_deref(), Some("true"));
    assert!(alias_scalar(&chars(" *anchor ")));
    assert!(!alias_scalar(&chars("*")));
    assert!(!alias_scalar(&chars("*a b")));
}

#[test]
fn plain_safety() {
    assert!(plain_string_safe(&chars("hello world"), false));
    assert!(!plain_string_safe(&chars("true"), false));
    assert!(!plain_string_safe(&chars("- x"), false));
    assert!(!plain_string_safe(&chars("a: b"), false));
    assert!(!plain_string_safe(&chars(" lead"), false));
}
