use yamark::yaml_line_format::{format_flow_table, format_simple_yaml_line, normalize_flow_value, parse_flow_mapping_row, split_char};

fn chars(s: &str) -> Vec<char> {
    s.chars().collect()
}

fn text(v: &[char]) -> String {
    v.iter().collect()
}

#[test]
fn simple_line_spaces_after_colon_collapse() {
    assert_eq!(format_simple_yaml_line("key:   value\n"), "key: value\n");
}

#[test]
fn simple_line_key_without_value() {
    assert_eq!(format_simple_yaml_line("key:   \n"), "key:\n");
}

#[test]
fn simple_line_sequence_flow_value() {
    assert_eq!(format_simple_yaml_line("  -   [a,b ,c]  \n"), "  - [a, b, c]\n");
}

#[test]
fn simple_line_lone_dash() {
    assert_eq!(format_simple_yaml_line("-"), "-");
    assert_eq!(format_simple_yaml_line("  -   \r\n"), "  -\r\n");
}

#[test]
fn simple_line_flow_mapping_value() {
    assert_eq!(format_simple_yaml_line("a: {x:1,y: 2}"), "a: {x: 1, y: 2}");
}

#[test]
fn simple_line_quoted_colon_is_not_the_separator() {
    assert_eq!(format_simple_yaml_line("'a:b':   c\n"), "'a:b': c\n");
    assert_eq!(format_simple_yaml_line("\"a\\\":b\":c"), "\"a\\\":b\": c");
}

#[test]
fn simple_line_dash_without_space_is_kept() {
    assert_eq!(format_simple_yaml_line("-foo  \n"), "-foo\n");
}

#[test]
fn simple_line_plain_text_is_trimmed_at_end() {
    assert_eq!(format_simple_yaml_line("   plain text   \n"), "   plain text\n");
}

#[test]
fn flow_table_aligns_second_column() {
    let source = "- {a: 1, bb: 2}\n- {ccc: 3, d: 4}\n";
    assert_eq!(format_flow_table(source), "- {a: 1,   bb: 2}\n- {ccc: 3, d: 4}\n");
}

#[test]
fn flow_table_keeps_indent_and_three_columns() {
    let source = "  - {k:v,x: y,z:w}\n  - {long: value, x: 1, z: 2}";
    assert_eq!(
        format_flow_table(source),
        "  - {k: v,        x: y, z: w}\n  - {long: value, x: 1, z: 2}"
    );
}

#[test]
fn flow_table_leaves_other_text_alone() {
    assert_eq!(format_flow_table("foo: bar\n"), "foo: bar\n");
    assert_eq!(format_flow_table("- {a: 1}\n- {b}\n"), "- {a: 1}\n- {b}\n");
    assert_eq!(format_flow_table("- {}\n"), "- {}\n");
}

#[test]
fn normalize_flow_value_sequences_and_mappings() {
    assert_eq!(text(&normalize_flow_value(&chars(" [1,2 ,  3] "))), "[1, 2, 3]");
    assert_eq!(text(&normalize_flow_value(&chars("{a:1, b :2,c}"))), "{a: 1, b: 2, c}");
    assert_eq!(text(&normalize_flow_value(&chars("[]"))), "[]");
    assert_eq!(text(&normalize_flow_value(&chars("  scalar  "))), "scalar");
}

#[test]
fn flow_mapping_row_fields() {
    let row = parse_flow_mapping_row(&chars("- {a: 1, b :2}")).expect("a row");
    assert_eq!(row.len(), 2);
    assert_eq!(text(&row[0].0), "a");
    assert_eq!(text(&row[0].1), "1");
    assert_eq!(text(&row[1].0), "b");
    assert_eq!(text(&row[1].1), "2");
    assert!(parse_flow_mapping_row(&chars("- {a: }")).is_none());
    assert!(parse_flow_mapping_row(&chars("{a: 1}")).is_none());
}

#[test]
fn split_char_keeps_empty_parts() {
    let parts = split_char(&chars("a,,b,"), ',');
    let parts: Vec<String> = parts.iter().map(|p| text(p)).collect();
    assert_eq!(parts, vec!["a", "", "b", ""]);
    assert_eq!(split_char(&chars(""), ',').len(), 1);
}

#[test]
fn formatting_a_formatted_header_line_changes_nothing() {
    let lines = [
        "key:value  \n",
        "-   [a,b ,c]\r\n",
        "  k :  {a:b,c : d}\n",
        "\u{feff}- x",
        "plain text  ",
        "-\t",
        "a: [x,'y' ]\r",
        "  - {k:v,w}\n",
    ];
    for line in lines {
        let once = format_simple_yaml_line(line);
        assert_eq!(format_simple_yaml_line(&once), once, "line {line:?}");
    }
    assert_eq!(format_simple_yaml_line("  k :  {a:b,c : d}\n"), "  k: {a: b, c: d}\n");
}

#[test]
fn normalizing_a_normalized_flow_value_changes_nothing() {
    for value in ["[a,b ,, c]", " { a:b:c , d }", "[]", "[ ]", "x , y", "{:}"] {
        let once = normalize_flow_value(&chars(value));
        assert_eq!(normalize_flow_value(&once), once, "value {value:?}");
    }
}

#[test]
fn aligning_an_aligned_flow_table_changes_nothing() {
    let sources = [
        "- {a:1,bb:2}\n- {ccc: 3,d:4}\n",
        "  - {k:v,x: y,z:w}\r\n  - {long: value, x: 1, z: 2}\r",
        "- {url: http://x:80, y: 1}\n- {b: 2}",
        "foo: bar\n",
        "",
    ];
    for source in sources {
        let once = format_flow_table(source);
        assert_eq!(format_flow_table(&once), once, "source {source:?}");
    }
}
