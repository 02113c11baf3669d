use yamark::json5::{
    comments_from_wsc, decode_hex, decode_identifier_body, decode_string_body, emit_flow_kind, is_identifier_part,
    is_identifier_start, json5_document_to_yaml, negative_hexadecimal_to_decimal, normalize_decimal,
    normalize_hexadecimal, normalize_line_separators, Json5ArrayValue, Json5Ast, Json5Kind, Json5Node, Json5Pair,
    Json5Text, Json5Token, Json5TokenKind,
};
use yamark::json_to_yaml::{
    check_json_lines_record, check_json_nesting, json_parse_error, line_column, missing_json_value_error,
    normalize_jsonc_comment_line_breaks, render_json, render_json_lines, JsonNode, JsonProperty, JsonSourceKind, JsonValue,
};
use yamark::text::{byte_offset_tables, clamped_entry};
use yamark::jsonc::{render_jsonc, JsoncComment, JsoncCommentGroup};
use yamark::source::Span;
use yamark::yaml_line_format::str_lines;

fn chars(s: &str) -> Vec<char> {
    s.chars().collect()
}

fn text(v: &[char]) -> String {
    v.iter().collect()
}

fn node(value: JsonValue) -> JsonNode {
    JsonNode { value, range: Span { start: 0, end: 0 } }
}

#[test]
fn extensions_choose_the_json_kind() {
    assert_eq!(JsonSourceKind::for_extension(&chars("JSON")), Some(JsonSourceKind::Json));
    assert_eq!(JsonSourceKind::for_extension(&chars("ndjson")), Some(JsonSourceKind::JsonLines));
    assert_eq!(JsonSourceKind::for_extension(&chars("jsonl")), Some(JsonSourceKind::JsonLines));
    assert_eq!(JsonSourceKind::for_extension(&chars("JsonC")), Some(JsonSourceKind::Jsonc));
    assert_eq!(JsonSourceKind::for_extension(&chars("json5")), Some(JsonSourceKind::Json5));
    assert_eq!(JsonSourceKind::for_extension(&chars("yaml")), None);
}

#[test]
fn json_renders_as_one_flow_value() {
    let value = node(JsonValue::Object(vec![
        JsonProperty { key: chars("a"), key_range: Span { start: 0, end: 0 }, value: node(JsonValue::Number(chars("1"))) },
        JsonProperty {
            key: chars("b\"c"),
            key_range: Span { start: 0, end: 0 },
            value: node(JsonValue::Array(vec![
                node(JsonValue::Boolean(true)),
                node(JsonValue::Null),
                node(JsonValue::String(chars("x\ny"))),
            ])),
        },
    ]));
    assert_eq!(text(&render_json(&value)), "{\"a\":1,\"b\\\"c\":[true,null,\"x\\ny\"]}\n");
}

#[test]
fn json_lines_split_like_str_lines() {
    let lines: Vec<String> = str_lines(&chars("{}\r\n[1]\n\n2\r")).iter().map(|l| text(l)).collect();
    assert_eq!(lines, vec!["{}", "[1]", "", "2\r"]);
    assert!(str_lines(&chars("")).is_empty());
    assert_eq!(str_lines(&chars("a\n")).len(), 1);
}

#[test]
fn json_lines_records_must_not_be_blank() {
    assert!(check_json_lines_record(false, &chars(" {} "), 0).is_ok());
    let e = check_json_lines_record(false, &chars("  "), 2).err().unwrap();
    assert_eq!(e.diagnostic.message, "invalid JSON Lines: records cannot be blank");
    assert_eq!((e.diagnostic.line, e.diagnostic.column), (3, 1));
    let e = check_json_lines_record(true, &chars(""), 0).err().unwrap();
    assert_eq!(e.diagnostic.message, "invalid JSON Lines: expected a JSON value");
}

#[test]
fn line_and_column_of_offsets() {
    let source = chars("ab\r\ncd\u{2028}e");
    assert_eq!(line_column(&source, 0), (1, 1));
    assert_eq!(line_column(&source, 1), (1, 2));
    assert_eq!(line_column(&source, 4), (2, 1));
    assert_eq!(line_column(&source, 5), (2, 2));
    assert_eq!(line_column(&source, 7), (3, 1));
    assert_eq!(line_column(&source, 100), (3, 2));
}

#[test]
fn nesting_limit() {
    let shallow = "[".repeat(256) + &"]".repeat(256);
    assert!(check_json_nesting(&chars(&shallow), &chars("JSON"), 0).is_ok());
    let deep = "[".repeat(257);
    let e = check_json_nesting(&chars(&deep), &chars("JSON"), 4).err().unwrap();
    assert_eq!(e.diagnostic.message, "invalid JSON: nesting exceeds 256 levels");
    assert_eq!((e.diagnostic.line, e.diagnostic.column), (5, 257));
    let quoted = format!("\"{}\" // {}\n/* {} */ []", "[".repeat(300), "{".repeat(300), "[".repeat(300));
    assert!(check_json_nesting(&chars(&quoted), &chars("JSONC"), 0).is_ok());
}

#[test]
fn json5_numbers() {
    assert_eq!(text(&normalize_decimal(&chars(".5"))), "0.5");
    assert_eq!(text(&normalize_decimal(&chars("5.e3"))), "5.0e3");
    assert_eq!(text(&normalize_decimal(&chars("12"))), "12");
    assert_eq!(text(&normalize_hexadecimal(&chars("0XfF"))), "0xfF");
    assert_eq!(text(&normalize_hexadecimal(&chars("0xab"))), "0xab");
    assert_eq!(text(&negative_hexadecimal_to_decimal(&chars("0xFF"))), "-255");
    assert_eq!(
        text(&negative_hexadecimal_to_decimal(&chars("0x10000000000000000000000"))),
        "-309485009821345068724781056"
    );
    assert_eq!(decode_hex(&chars("\\u00e9"), 2, 4), Some((0xe9, 6)));
    assert_eq!(decode_hex(&chars("\\u00g9"), 2, 4), None);
    assert_eq!(decode_hex(&chars("\\u00"), 2, 4), None);
}

#[test]
fn json5_identifier_characters() {
    assert!(is_identifier_start('a'));
    assert!(is_identifier_start('$'));
    assert!(is_identifier_start('é'));
    assert!(is_identifier_start('\u{2160}'));
    assert!(!is_identifier_start('1'));
    assert!(!is_identifier_start('-'));
    assert!(is_identifier_part('1'));
    assert!(is_identifier_part('\u{200d}'));
    assert!(is_identifier_part('\u{301}'));
    assert!(!is_identifier_part(' '));
}

#[test]
fn json5_string_escapes() {
    let ok = |raw: &str| decode_string_body(&chars(raw)).ok().map(|v| text(&v));
    let err = |raw: &str| decode_string_body(&chars(raw)).err();
    assert_eq!(ok("a\\tb\\x41\\u00e9").as_deref(), Some("a\tbAé"));
    assert_eq!(ok("\\uD83D\\uDE00\\q").as_deref(), Some("😀q"));
    assert_eq!(ok("a\\\r\nb\\\u{2028}c").as_deref(), Some("abc"));
    assert_eq!(ok("\\0").as_deref(), Some("\0"));
    assert_eq!(err("x\\"), Some((1, "unterminated escape sequence")));
    assert_eq!(err("\\01"), Some((0, "legacy numeric escape sequences are not supported")));
    assert_eq!(err("ab\\7"), Some((2, "legacy numeric escape sequences are not supported")));
    assert_eq!(err("\\xZZ"), Some((0, "invalid hexadecimal escape sequence")));
    assert_eq!(err("\\u12"), Some((0, "invalid Unicode escape sequence")));
    assert_eq!(err("\\uD83Dx"), Some((0, "lone high surrogate in Unicode escape sequence")));
    assert_eq!(err("\\uD83D\\u0041"), Some((6, "invalid low surrogate in Unicode escape sequence")));
    assert_eq!(err("\\uDE00"), Some((0, "lone low surrogate in Unicode escape sequence")));
}

#[test]
fn json5_identifier_escapes() {
    assert_eq!(decode_identifier_body(&chars("a\\u0062c")).ok().map(|v| text(&v)).as_deref(), Some("abc"));
    assert_eq!(
        decode_identifier_body(&chars("\\x41")).err(),
        Some((0, "identifier escapes must use \\u followed by four hex digits"))
    );
    assert_eq!(decode_identifier_body(&chars("a\\u12")).err(), Some((1, "invalid Unicode escape in identifier")));
    assert_eq!(
        decode_identifier_body(&chars("\\uD800")).err(),
        Some((0, "surrogate escapes are not valid in identifiers"))
    );
    assert_eq!(
        decode_identifier_body(&chars("\\u0031")).err(),
        Some((0, "escaped character is not valid in a JSON5 IdentifierName"))
    );
}

#[test]
fn json5_line_separators_are_normalized() {
    let input = chars("{a: 'x\u{2028}y'}\u{2029}");
    let normalized = normalize_line_separators(&input).ok().unwrap();
    assert_eq!(text(&normalized.source), "{a: 'x\\u2028y'}\n");
    assert_eq!(normalized.original_offset(0), 0);
    assert_eq!(normalized.original_offset(15), 10);
    let e = normalize_line_separators(&chars("[1,\u{85}2]")).err().unwrap();
    assert_eq!((e.diagnostic.line, e.diagnostic.column), (1, 4));
}

#[test]
fn json5_comments_of_whitespace() {
    let comments: Vec<String> =
        comments_from_wsc(&chars("  // one \n /* two\n * three */ x // four")).iter().map(|c| text(c)).collect();
    assert_eq!(comments, vec!["one", "two", "three", "four"]);
    let unclosed: Vec<String> = comments_from_wsc(&chars("/* open")).iter().map(|c| text(c)).collect();
    assert_eq!(unclosed, vec!["open"]);
}

#[test]
fn json5_flow_values() {
    let kind = Json5Kind::Array {
        items: vec![
            Json5Node { leading: vec![], kind: Json5Kind::Bool(false), trailing: vec![] },
            Json5Node { leading: vec![], kind: Json5Kind::String(chars("true")), trailing: vec![] },
        ],
        tail: vec![],
    };
    let mut out = Vec::new();
    emit_flow_kind(&mut out, &kind);
    assert_eq!(text(&out), "[false,\"true\"]");
}

#[test]
fn json5_document_without_comments_is_one_flow_value() {
    let input = chars("{a: 1, 'b c': [true, -0xFF]}");
    let normalized = normalize_line_separators(&input).ok().unwrap();
    let document = Json5Text {
        value: Json5Ast::Object {
            pairs: vec![
                Json5Pair { key: Json5Ast::Identifier(chars("a")), value: Json5Ast::Integer(chars("1")), context: None },
                Json5Pair {
                    key: Json5Ast::SingleQuotedString(chars("b c")),
                    value: Json5Ast::Array {
                        values: vec![
                            Json5ArrayValue { value: Json5Ast::Bool(true), context: None },
                            Json5ArrayValue {
                                value: Json5Ast::Unary { minus: true, value: Box::new(Json5Ast::Hexadecimal(chars("0xFF"))) },
                                context: None,
                            },
                        ],
                        context: None,
                    },
                    context: None,
                },
            ],
            context: None,
        },
        context: None,
    };
    let yaml = json5_document_to_yaml(&document, &[], false, &normalized, &input).ok().unwrap();
    assert_eq!(yaml, "{a: 1,\"b c\": [true,-255]}\n");
}

#[test]
fn json5_document_with_comments_is_block_style() {
    let input = chars("// top\n{a: [1, 2], b: {}}");
    let normalized = normalize_line_separators(&input).ok().unwrap();
    let document = Json5Text {
        value: Json5Ast::Object {
            pairs: vec![
                Json5Pair {
                    key: Json5Ast::Identifier(chars("a")),
                    value: Json5Ast::Array {
                        values: vec![
                            Json5ArrayValue { value: Json5Ast::Integer(chars("1")), context: None },
                            Json5ArrayValue { value: Json5Ast::Integer(chars("2")), context: None },
                        ],
                        context: None,
                    },
                    context: None,
                },
                Json5Pair {
                    key: Json5Ast::Identifier(chars("b")),
                    value: Json5Ast::Object { pairs: vec![], context: None },
                    context: None,
                },
            ],
            context: None,
        },
        context: Some((chars("// top\n"), chars(""))),
    };
    let yaml = json5_document_to_yaml(&document, &[], true, &normalized, &input).ok().unwrap();
    assert_eq!(yaml, "# top\na:\n  - 1\n  - 2\nb: {}\n");
}

fn prop(key: &str, start: usize, value: JsonNode) -> JsonProperty {
    JsonProperty { key: chars(key), key_range: Span { start, end: start + key.len() + 2 }, value }
}

#[test]
fn jsonc_comments_are_kept_before_their_entries() {
    let value = || JsonNode {
        value: JsonValue::Object(vec![prop(
            "a",
            20,
            JsonNode { value: JsonValue::Number(chars("1")), range: Span { start: 25, end: 26 } },
        )]),
        range: Span { start: 8, end: 28 },
    };
    let groups = vec![
        JsoncCommentGroup {
            position: 8,
            comments: vec![JsoncComment { block: false, text: chars("top"), range: Span { start: 0, end: 5 } }],
        },
        JsoncCommentGroup {
            position: 20,
            comments: vec![
                JsoncComment { block: true, text: chars(" about\n * a "), range: Span { start: 10, end: 19 } },
                JsoncComment { block: false, text: chars("seen"), range: Span { start: 1, end: 4 } },
            ],
        },
    ];
    assert_eq!(text(&render_jsonc(&value(), groups)), "# top\n# about\n# a\na: 1\n");
    assert_eq!(text(&render_jsonc(&value(), vec![])), "{\"a\":1}\n");
}

#[test]
fn jsonc_comment_line_breaks_are_normalized() {
    let input = chars("// a\rb\n\"x\u{2028}\" /* c\u{2029}d\r\n */ // e\u{2028}f");
    assert_eq!(
        text(&normalize_jsonc_comment_line_breaks(&input)),
        "// a\nb\n\"x\u{2028}\" /* c\nd\r\n */ // e\nf"
    );
}

#[test]
fn parser_errors_name_the_dialect_and_position() {
    let e = json_parse_error(&chars("JSON"), &chars("Unexpected token"), 2, 5, 3);
    assert_eq!(e.diagnostic.message, "invalid JSON: Unexpected token");
    assert_eq!((e.diagnostic.line, e.diagnostic.column), (5, 5));
    let e = missing_json_value_error(&chars("JSONC"), 0);
    assert_eq!(e.diagnostic.message, "invalid JSONC: expected a JSON value");
    assert_eq!((e.diagnostic.line, e.diagnostic.column), (1, 1));
    let e = missing_json_value_error(&chars("JSON"), 4);
    assert_eq!((e.diagnostic.line, e.diagnostic.column), (5, 1));
}

#[test]
fn byte_offset_tables_map_both_ways() {
    let (byte_to_char, char_to_byte) = byte_offset_tables(&chars("aé€b"));
    assert_eq!(char_to_byte, vec![0, 1, 3, 6, 7]);
    assert_eq!(byte_to_char, vec![0, 1, 0, 2, 0, 0, 3, 4]);
    assert_eq!(clamped_entry(&byte_to_char, 6), 3);
    assert_eq!(clamped_entry(&byte_to_char, 99), 4);
}

fn number(text: &str) -> JsonNode {
    JsonNode { value: JsonValue::Number(chars(text)), range: Span { start: 0, end: 0 } }
}

#[test]
fn json_lines_render_one_document_per_record() {
    let input = chars("1\n2\n");
    let records = str_lines(&input);
    let parsed = vec![Ok(number("1")), Ok(number("2"))];
    let out = render_json_lines(&input, &records, &parsed).ok().unwrap();
    assert_eq!(text(&out), "---\n1\n---\n2\n");
}

#[test]
fn json_lines_stop_at_the_first_bad_record() {
    let e = render_json_lines(&[], &vec![], &vec![]).err().unwrap();
    assert_eq!(e.diagnostic.message, "invalid JSON Lines: expected a JSON value");
    let input = chars("1\n  \nx\n");
    let records = str_lines(&input);
    let parse_error = json_parse_error(&chars("JSON"), &chars("bad"), 1, 1, 2);
    let parsed = vec![Ok(number("1")), Err(missing_json_value_error(&chars("JSON"), 1)), Err(parse_error)];
    let e = render_json_lines(&input, &records, &parsed).err().unwrap();
    assert_eq!(e.diagnostic.message, "invalid JSON Lines: records cannot be blank");
    assert_eq!((e.diagnostic.line, e.diagnostic.column), (2, 1));
    let input = chars("1\nx\n");
    let records = str_lines(&input);
    let parsed = vec![Ok(number("1")), Err(json_parse_error(&chars("JSON"), &chars("bad"), 1, 1, 1))];
    let e = render_json_lines(&input, &records, &parsed).err().unwrap();
    assert_eq!(e.diagnostic.message, "invalid JSON: bad");
    assert_eq!(e.diagnostic.line, 2);
}

fn token(start: usize, kind: Json5TokenKind, end: usize) -> Json5Token {
    Json5Token { start, kind, end }
}

#[test]
fn json5_conversion_errors_name_their_position() {
    let input = chars("{\n  1: 2}");
    let normalized = normalize_line_separators(&input).ok().unwrap();
    let tokens = vec![
        token(0, Json5TokenKind::LeftBrace, 1),
        token(1, Json5TokenKind::Whitespace, 4),
        token(4, Json5TokenKind::Integer, 5),
        token(5, Json5TokenKind::Colon, 6),
        token(6, Json5TokenKind::Whitespace, 7),
        token(7, Json5TokenKind::Integer, 8),
        token(8, Json5TokenKind::RightBrace, 9),
    ];
    let document = Json5Text {
        value: Json5Ast::Object {
            pairs: vec![Json5Pair { key: Json5Ast::Integer(chars("1")), value: Json5Ast::Integer(chars("2")), context: None }],
            context: None,
        },
        context: None,
    };
    let e = json5_document_to_yaml(&document, &tokens, false, &normalized, &input).err().unwrap();
    assert_eq!(e.diagnostic.message, "invalid JSON5: object key is not an IdentifierName or string");
    assert_eq!((e.diagnostic.line, e.diagnostic.column), (2, 3));
    let document = Json5Text {
        value: Json5Ast::Unary { minus: true, value: Box::new(Json5Ast::Bool(true)) },
        context: None,
    };
    let e = json5_document_to_yaml(&document, &[], false, &normalized, &input).err().unwrap();
    assert_eq!(e.diagnostic.message, "invalid JSON5: unary operator requires a number");
    assert_eq!((e.diagnostic.line, e.diagnostic.column), (1, 1));
}
