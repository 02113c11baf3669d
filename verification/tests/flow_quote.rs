use yamark::yaml_flow_quote::{
    decode_double_quoted_scalar, decode_quoted_scalar, quote_yaml_double_for_flow, quote_yaml_double_for_flow_metrics,
    quote_yaml_single_for_flow, quote_yaml_single_for_flow_width, utf8_len,
};
use yamark::yaml_model::YamlNodeId;

fn chars(s: &str) -> Vec<char> {
    s.chars().collect()
}

fn text(v: &[char]) -> String {
    v.iter().collect()
}

#[test]
fn flow_quote_prefers_single_quotes() {
    assert_eq!(text(&quote_yaml_single_for_flow(&chars("plain"))), "'plain'");
    assert_eq!(quote_yaml_single_for_flow_width(&chars("plain")), 7);
}

#[test]
fn flow_quote_doubles_single_quotes() {
    assert_eq!(text(&quote_yaml_single_for_flow(&chars("it's \"b\""))), "'it''s \"b\"'");
    assert_eq!(quote_yaml_single_for_flow_width(&chars("it's \"b\"")), 11);
    // One quote: the double-quoted form is a byte shorter.
    assert_eq!(text(&quote_yaml_single_for_flow(&chars("it's"))), "\"it's\"");
    assert_eq!(quote_yaml_single_for_flow_width(&chars("it's")), 6);
}

#[test]
fn flow_quote_picks_double_quotes_when_shorter() {
    // Three quotes cost three extra bytes single-quoted and none double-quoted.
    assert_eq!(text(&quote_yaml_single_for_flow(&chars("'''"))), "\"'''\"");
    assert_eq!(quote_yaml_single_for_flow_width(&chars("'''")), 5);
}

#[test]
fn flow_quote_ties_go_to_single_quotes() {
    // "a\"b" takes 6 bytes double-quoted, 5 single-quoted.
    assert_eq!(text(&quote_yaml_single_for_flow(&chars("a\"b"))), "'a\"b'");
    assert_eq!(quote_yaml_single_for_flow_width(&chars("a\"b")), 5);
}

#[test]
fn flow_quote_escapes_control_characters() {
    assert_eq!(text(&quote_yaml_single_for_flow(&chars("a\nb"))), "\"a\\nb\"");
    assert_eq!(quote_yaml_single_for_flow_width(&chars("a\nb")), 6);
    assert_eq!(text(&quote_yaml_single_for_flow(&chars("\u{1}"))), "\"\\x01\"");
    assert_eq!(quote_yaml_single_for_flow_width(&chars("\u{85}")), 6);
}

#[test]
fn flow_quote_width_counts_characters_not_bytes() {
    assert_eq!(text(&quote_yaml_single_for_flow(&chars("é"))), "'é'");
    assert_eq!(quote_yaml_single_for_flow_width(&chars("é")), 3);
    assert_eq!(utf8_len(&chars("é")), 2);
    assert_eq!(quote_yaml_double_for_flow_metrics(&chars("é\t")), (6, 5));
}

#[test]
fn flow_quote_round_trips_through_the_decoder() {
    for value in ["plain", "it's", "'''", "a\nb", "tab\there", "\u{85}next", "\u{2028}", "back\\slash", ""] {
        let quoted = quote_yaml_single_for_flow(&chars(value));
        assert_eq!(text(&decode_quoted_scalar(&quoted).unwrap()), value);
        let double = quote_yaml_double_for_flow(&chars(value));
        assert_eq!(text(&decode_double_quoted_scalar(&double).unwrap()), value);
    }
}

#[test]
fn node_ids_follow_their_index() {
    assert_eq!(YamlNodeId::new(0).index(), 0);
    assert_eq!(YamlNodeId::new(41).index(), 41);
    assert!(YamlNodeId::new(7) == YamlNodeId::new(7));
    assert!(YamlNodeId::new(7) != YamlNodeId::new(8));
}
