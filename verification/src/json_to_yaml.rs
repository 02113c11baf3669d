//! JSON, JSON Lines and JSONC sources rendered as YAML. Parsing is done by
//! the caller; this module checks the raw text and renders parsed values.
use vstd::prelude::*;
use crate::diagnostic::{error_from_chars, error_from_chars_at, YamarkError};
use crate::source::Span;
use crate::text::{extends, lemma_trim_trimmed, push_all, push_decimal, spec_ascii_ws, spec_ws, sub_chars, trim};
use crate::yaml_model::YamlScalarSemantic;
use crate::yaml_semantic::{
    lemma_decimal_digits_is_integer, lemma_decimal_fraction_is_float, lemma_exponent_number_is_float,
    spec_all_ascii_digits, spec_bool, spec_float_semantic, spec_integer, spec_non_string_semantic, spec_null, spec_scalar_semantic,
};
use crate::yaml_quote::{
    eq_ignore_ascii_case, comment_lines, emit_yaml_comment_line, emit_yaml_double_quoted, emit_yaml_mapping_key,
    push_yaml_indent, spec_double_quoted, spec_plain_json_key, trim_comment_line,
};
use crate::yaml_scalar::{lemma_double_quoted_round_trip, spec_decode_quoted, spec_named_space_escape, DecodePolicy};

verus! {


/// A parsed JSON value.
#[derive(Debug)]
pub enum JsonValue {
    String(Vec<char>),
    Number(Vec<char>),
    Boolean(bool),
    Null,
    Array(Vec<JsonNode>),
    Object(Vec<JsonProperty>),
}

/// A parsed JSON value with its source range.
#[derive(Debug)]
pub struct JsonNode {
    pub value: JsonValue,
    pub range: Span,
}

/// An object member: the decoded key, the range of the key token and the value.
#[derive(Debug)]
pub struct JsonProperty {
    pub key: Vec<char>,
    pub key_range: Span,
    pub value: JsonNode,
}

/// The kinds of JSON source the formatter accepts.
#[derive(Debug, Clone, Copy, PartialEq, Eq, Structural)]
pub enum JsonSourceKind {
    Json,
    JsonLines,
    Jsonc,
    Json5,
}

pub open spec fn spec_lower_ext(e: Seq<char>) -> Seq<char> {
    Seq::new(e.len(), |i: int| crate::yaml_quote::spec_ascii_lower(e[i]))
}

/// `json`, `jsonl`/`ndjson`, `jsonc` and `json5`, in any letter case.
pub open spec fn spec_kind_for_extension(e: Seq<char>) -> Option<JsonSourceKind> {
    if crate::yaml_quote::spec_eq_ignore_ascii_case(e, seq!['j', 's', 'o', 'n']) {
        Some(JsonSourceKind::Json)
    } else if crate::yaml_quote::spec_eq_ignore_ascii_case(e, seq!['j', 's', 'o', 'n', 'l'])
        || crate::yaml_quote::spec_eq_ignore_ascii_case(e, seq!['n', 'd', 'j', 's', 'o', 'n']) {
        Some(JsonSourceKind::JsonLines)
    } else if crate::yaml_quote::spec_eq_ignore_ascii_case(e, seq!['j', 's', 'o', 'n', 'c']) {
        Some(JsonSourceKind::Jsonc)
    } else if crate::yaml_quote::spec_eq_ignore_ascii_case(e, seq!['j', 's', 'o', 'n', '5']) {
        Some(JsonSourceKind::Json5)
    } else {
        None
    }
}

impl JsonSourceKind {
    /// The kind for a file extension (compared without letter case).
    pub fn for_extension(extension: &[char]) -> (r: Option<Self>)
        ensures
            r == spec_kind_for_extension(extension@),
    {
        let json = vec!['j', 's', 'o', 'n'];
        let jsonl = vec!['j', 's', 'o', 'n', 'l'];
        let ndjson = vec!['n', 'd', 'j', 's', 'o', 'n'];
        let jsonc = vec!['j', 's', 'o', 'n', 'c'];
        let json5 = vec!['j', 's', 'o', 'n', '5'];
        if eq_ignore_ascii_case(extension, json.as_slice()) {
            Some(JsonSourceKind::Json)
        } else if eq_ignore_ascii_case(extension, jsonl.as_slice()) || eq_ignore_ascii_case(
            extension,
            ndjson.as_slice(),
        ) {
            Some(JsonSourceKind::JsonLines)
        } else if eq_ignore_ascii_case(extension, jsonc.as_slice()) {
            Some(JsonSourceKind::Jsonc)
        } else if eq_ignore_ascii_case(extension, json5.as_slice()) {
            Some(JsonSourceKind::Json5)
        } else {
            None
        }
    }
}

/// The flow-style YAML rendering of a JSON value.
pub open spec fn spec_json_flow(n: JsonNode) -> Seq<char>
    decreases n,
{
    match n.value {
        JsonValue::String(s) => spec_double_quoted(s@),
        JsonValue::Number(s) => s@,
        JsonValue::Boolean(b) => if b {
            seq!['t', 'r', 'u', 'e']
        } else {
            seq!['f', 'a', 'l', 's', 'e']
        },
        JsonValue::Null => seq!['n', 'u', 'l', 'l'],
        JsonValue::Array(items) => seq!['['] + spec_json_flow_items(items@) + seq![']'],
        JsonValue::Object(props) => seq!['{'] + spec_json_flow_props(props@) + seq!['}'],
    }
}

/// Array elements joined by commas.
pub open spec fn spec_json_flow_items(items: Seq<JsonNode>) -> Seq<char>
    decreases items,
{
    if items.len() == 0 {
        Seq::empty()
    } else {
        spec_json_flow_items(items.subrange(0, items.len() - 1)) + (if items.len() > 1 {
            seq![',']
        } else {
            Seq::empty()
        }) + spec_json_flow(items[items.len() - 1])
    }
}

/// Object members as `"key":value`, joined by commas.
pub open spec fn spec_json_flow_props(props: Seq<JsonProperty>) -> Seq<char>
    decreases props,
{
    if props.len() == 0 {
        Seq::empty()
    } else {
        spec_json_flow_props(props.subrange(0, props.len() - 1)) + (if props.len() > 1 {
            seq![',']
        } else {
            Seq::empty()
        }) + spec_double_quoted(props[props.len() - 1].key@) + seq![':'] + spec_json_flow(
            props[props.len() - 1].value,
        )
    }
}

/// Appends the flow-style YAML rendering of a JSON value.
#[verifier::rlimit(50)]
pub fn emit_json_value(out: &mut Vec<char>, n: &JsonNode)
    ensures
        final(out)@ == old(out)@ + spec_json_flow(*n),
    decreases n,
{
    let ghost o = out@;
    match &n.value {
        JsonValue::String(s) => {
            emit_yaml_double_quoted(out, s.as_slice());
        },
        JsonValue::Number(s) => {
            push_all(out, s.as_slice());
        },
        JsonValue::Boolean(b) => {
            if *b {
                let w = vec!['t', 'r', 'u', 'e'];
                push_all(out, w.as_slice());
            } else {
                let w = vec!['f', 'a', 'l', 's', 'e'];
                push_all(out, w.as_slice());
            }
        },
        JsonValue::Null => {
            let w = vec!['n', 'u', 'l', 'l'];
            push_all(out, w.as_slice());
        },
        JsonValue::Array(items) => {
            out.push('[');
            let mut i: usize = 0;
            while i < items.len()
                invariant
                    i <= items@.len(),
                    out@ == o + seq!['['] + spec_json_flow_items(items@.subrange(0, i as int)),
                decreases items@.len() - i,
            {
                if i > 0 {
                    out.push(',');
                }
                assert(decreases_to!(n => items@[i as int]));
                emit_json_value(out, &items[i]);
                proof {
                    let pre = items@.subrange(0, i + 1);
                    assert(pre.subrange(0, pre.len() - 1) =~= items@.subrange(0, i as int));
                }
                i = i + 1;
            }
            out.push(']');
            assert(items@.subrange(0, items@.len() as int) =~= items@);
        },
        JsonValue::Object(props) => {
            out.push('{');
            let mut i: usize = 0;
            while i < props.len()
                invariant
                    i <= props@.len(),
                    out@ == o + seq!['{'] + spec_json_flow_props(props@.subrange(0, i as int)),
                decreases props@.len() - i,
            {
                if i > 0 {
                    out.push(',');
                }
                emit_yaml_double_quoted(out, props[i].key.as_slice());
                out.push(':');
                assert(decreases_to!(n => props@[i as int].value));
                emit_json_value(out, &props[i].value);
                proof {
                    let pre = props@.subrange(0, i + 1);
                    assert(pre.subrange(0, pre.len() - 1) =~= props@.subrange(0, i as int));
                }
                i = i + 1;
            }
            out.push('}');
            assert(props@.subrange(0, props@.len() as int) =~= props@);
        },
    }
    assert(out@ =~= o + spec_json_flow(*n));
}

/// A JSON document rendered as a flow-style YAML document.
pub fn render_json(value: &JsonNode) -> (r: Vec<char>)
    ensures
        r@ == spec_json_flow(*value) + seq!['\n'],
{
    let mut out: Vec<char> = Vec::new();
    emit_json_value(&mut out, value);
    out.push('\n');
    out
}

/// Appends one JSON Lines record as a YAML document.
pub fn emit_json_lines_record(out: &mut Vec<char>, value: &JsonNode)
    ensures
        final(out)@ == old(out)@ + seq!['-', '-', '-', '\n'] + spec_json_flow(*value) + seq!['\n'],
{
    let ghost o = out@;
    out.push('-');
    out.push('-');
    out.push('-');
    out.push('\n');
    emit_json_value(out, value);
    out.push('\n');
    assert(out@ =~= o + seq!['-', '-', '-', '\n'] + spec_json_flow(*value) + seq!['\n']);
}

/// Whether a value renders on the line of its key or dash.
pub open spec fn spec_json_inline(n: JsonNode) -> bool {
    match n.value {
        JsonValue::Array(items) => items@.len() == 0,
        JsonValue::Object(props) => props@.len() == 0,
        _ => true,
    }
}

pub fn json_value_is_inline(n: &JsonNode) -> (r: bool)
    ensures
        r == spec_json_inline(*n),
{
    match &n.value {
        JsonValue::Array(items) => items.len() == 0,
        JsonValue::Object(props) => props.len() == 0,
        _ => true,
    }
}

/// Checks a JSON Lines input before its records are parsed: it must not be
/// empty, and the record on line `index` (zero-based) must not be blank.
pub fn check_json_lines_record(input_is_empty: bool, record: &[char], index: usize) -> (r: Result<
    (),
    YamarkError,
>)
    ensures
        input_is_empty ==> (r matches Err(e) && e.diagnostic.message@
            == "invalid JSON Lines: expected a JSON value"@ && e.diagnostic.line == 1
            && e.diagnostic.column == 1),
        !input_is_empty ==> (r is Ok <==> crate::text::spec_trim(record@).len() > 0),
        !input_is_empty ==> (r matches Err(e) ==> e.diagnostic.line == (if index < usize::MAX {
            index + 1
        } else {
            1
        }) && e.diagnostic.column == 1 && e.diagnostic.message@
            == "invalid JSON Lines: records cannot be blank"@),
{
    if input_is_empty {
        let m = str_message_expected_value();
        return Err(error_from_chars(m.as_slice()));
    }
    let t = trim(record);
    if t.len() == 0 {
        let m = str_message_blank_record();
        let line = if index < usize::MAX {
            index + 1
        } else {
            1
        };
        return Err(error_from_chars_at(m.as_slice(), line, 1));
    }
    Ok(())
}

/// The first record, from `k` on, that stops a JSON Lines input: a blank
/// one, or one whose parse failed.
pub open spec fn spec_json_lines_stop(records: Seq<Seq<char>>, parsed: Seq<Result<JsonNode, YamarkError>>, k: int) -> Option<
    int,
>
    decreases records.len() - k,
{
    if k < 0 || k >= records.len() {
        None
    } else if crate::text::spec_trim(records[k]).len() == 0 || parsed[k] is Err {
        Some(k)
    } else {
        spec_json_lines_stop(records, parsed, k + 1)
    }
}

/// The YAML of the parsed records from `k` on: one document each.
pub open spec fn spec_json_lines_documents(parsed: Seq<Result<JsonNode, YamarkError>>, k: int) -> Seq<char>
    decreases parsed.len() - k,
{
    if k < 0 || k >= parsed.len() {
        seq![]
    } else {
        let doc = match parsed[k] {
            Ok(v) => seq!['-', '-', '-', '\n'] + spec_json_flow(v) + seq!['\n'],
            Err(_) => seq![],
        };
        doc + spec_json_lines_documents(parsed, k + 1)
    }
}

/// The YAML of a JSON Lines input whose records `str::lines` gives as
/// `records`, given the parse of each record (`parsed[k]` for record `k`,
/// its line number moved down by `k`). An empty input is an error; else
/// the records are taken in order: a blank record is an error at its line,
/// a record that did not parse gives (a copy of) its parse error, and
/// otherwise each
/// record becomes one document.
pub fn render_json_lines(input: &[char], records: &Vec<Vec<char>>, parsed: &Vec<Result<JsonNode, YamarkError>>) -> (r:
    Result<Vec<char>, YamarkError>)
    requires
        crate::yaml_line_format::char_views(records@) == crate::yaml_line_format::spec_str_lines(input@),
        parsed@.len() == records@.len(),
    ensures
        input@.len() == 0 ==> (r matches Err(e) && e.diagnostic.message@ == "invalid JSON Lines: expected a JSON value"@
            && e.diagnostic.line == 1 && e.diagnostic.column == 1),
        input@.len() > 0 ==> match spec_json_lines_stop(crate::yaml_line_format::char_views(records@), parsed@, 0) {
            None => r matches Ok(out) && out@ == spec_json_lines_documents(parsed@, 0),
            Some(k) => if crate::text::spec_trim(records@[k]@).len() == 0 {
                r matches Err(e) && e.diagnostic.message@ == "invalid JSON Lines: records cannot be blank"@
                    && e.diagnostic.line == (if k < usize::MAX { k + 1 } else { 1 }) && e.diagnostic.column == 1
            } else {
                r matches Err(e) && parsed@[k] matches Err(e0) && e.diagnostic@ == e0.diagnostic@
            },
        },
{
    let ghost rv = crate::yaml_line_format::char_views(records@);
    if input.len() == 0 {
        return check_json_lines_record(true, input, 0).map(|_u: ()| Vec::new());
    }
    let mut out: Vec<char> = Vec::new();
    let mut k: usize = 0;
    while k < records.len()
        invariant
            rv == crate::yaml_line_format::char_views(records@),
            parsed@.len() == records@.len(),
            k <= records@.len(),
            spec_json_lines_stop(rv, parsed@, 0) == spec_json_lines_stop(rv, parsed@, k as int),
            spec_json_lines_documents(parsed@, 0) == out@ + spec_json_lines_documents(parsed@, k as int),
        decreases records@.len() - k,
    {
        assert(rv[k as int] == records@[k as int]@);
        match check_json_lines_record(false, records[k].as_slice(), k) {
            Err(e) => {
                return Err(e);
            },
            Ok(_) => {},
        }
        match &parsed[k] {
            Err(e) => {
                return Err(YamarkError::from_diagnostic(e.diagnostic.copy()));
            },
            Ok(v) => {
                let ghost o = out@;
                emit_json_lines_record(&mut out, v);
                assert(out@ == o + (seq!['-', '-', '-', '\n'] + spec_json_flow(*v) + seq!['\n']));
            },
        }
        k = k + 1;
    }
    Ok(out)
}

fn str_message_expected_value() -> (r: Vec<char>)
    ensures
        r@ == "invalid JSON Lines: expected a JSON value"@,
{
    crate::text::str_chars("invalid JSON Lines: expected a JSON value")
}

fn str_message_blank_record() -> (r: Vec<char>)
    ensures
        r@ == "invalid JSON Lines: records cannot be blank"@,
{
    crate::text::str_chars("invalid JSON Lines: records cannot be blank")
}

/// Lexical states of the raw-text JSON scanners.
#[derive(Debug, Clone, Copy, PartialEq, Eq, Structural)]
pub enum JsonScanState {
    Outside,
    String,
    LineComment,
    BlockComment,
}

/// The deepest nesting allowed in JSON input.
pub const MAX_JSON_NESTING: usize = 256;

/// `v + 1`, kept at the largest `usize`.
pub open spec fn spec_inc(v: int) -> int {
    if v < usize::MAX {
        v + 1
    } else {
        v
    }
}

/// The line, column and whether the last character was `\r`, after the
/// characters `s[..end]`: `\r`, `\n` (except right after `\r`), U+2028 and
/// U+2029 end a line.
pub open spec fn spec_line_state(s: Seq<char>, end: int) -> (int, int, bool)
    decreases end,
{
    if end <= 0 || end > s.len() {
        (1, 1, false)
    } else {
        let (line, column, previous_was_cr) = spec_line_state(s, end - 1);
        let c = s[end - 1];
        if c == '\r' {
            (spec_inc(line), 1, true)
        } else if c == '\n' && previous_was_cr {
            (line, column, false)
        } else if c == '\n' || c == '\u{2028}' || c == '\u{2029}' {
            (spec_inc(line), 1, false)
        } else {
            (line, spec_inc(column), false)
        }
    }
}

/// The one-based line and column of position `offset` (or of the end).
pub open spec fn spec_line_column(s: Seq<char>, offset: int) -> (int, int) {
    let end = if offset < s.len() {
        offset
    } else {
        s.len() as int
    };
    let st = spec_line_state(s, end);
    (st.0, st.1)
}

/// One-based line and column of the character at `offset`: `\r`, `\n`
/// (except right after `\r`), U+2028 and U+2029 end a line.
pub fn line_column(source: &[char], offset: usize) -> (r: (usize, usize))
    ensures
        (r.0 as int, r.1 as int) == spec_line_column(source@, offset as int),
        r.0 >= 1 && r.1 >= 1,
{
    let mut line: usize = 1;
    let mut column: usize = 1;
    let mut previous_was_cr = false;
    let mut i: usize = 0;
    while i < source.len() && i < offset
        invariant
            i <= source@.len(),
            i <= offset,
            (line as int, column as int, previous_was_cr) == spec_line_state(source@, i as int),
            line >= 1 && column >= 1,
        decreases source@.len() - i,
    {
        let c = source[i];
        if c == '\r' {
            line = if line < usize::MAX { line + 1 } else { line };
            column = 1;
            previous_was_cr = true;
        } else if c == '\n' && previous_was_cr {
            previous_was_cr = false;
        } else if c == '\n' || c == '\u{2028}' || c == '\u{2029}' {
            line = if line < usize::MAX { line + 1 } else { line };
            column = 1;
            previous_was_cr = false;
        } else {
            column = if column < usize::MAX { column + 1 } else { column };
            previous_was_cr = false;
        }
        i = i + 1;
    }
    (line, column)
}

/// The scan for excess nesting from `offset`: the position of the first
/// `[` or `{` (outside strings and comments) that opens a level beyond the
/// limit, if any.
pub open spec fn spec_nesting_from(s: Seq<char>, offset: int, state: JsonScanState, nesting: int) -> Option<int>
    decreases s.len() - offset,
{
    if offset < 0 || offset >= s.len() {
        None
    } else {
        let c = s[offset];
        match state {
            JsonScanState::Outside => if c == '"' {
                spec_nesting_from(s, offset + 1, JsonScanState::String, nesting)
            } else if c == '/' && offset + 1 < s.len() && s[offset + 1] == '/' {
                spec_nesting_from(s, offset + 2, JsonScanState::LineComment, nesting)
            } else if c == '/' && offset + 1 < s.len() && s[offset + 1] == '*' {
                spec_nesting_from(s, offset + 2, JsonScanState::BlockComment, nesting)
            } else if c == '[' || c == '{' {
                if nesting >= MAX_JSON_NESTING {
                    Some(offset)
                } else {
                    spec_nesting_from(s, offset + 1, state, nesting + 1)
                }
            } else if c == ']' || c == '}' {
                spec_nesting_from(s, offset + 1, state, if nesting > 0 { nesting - 1 } else { 0 })
            } else {
                spec_nesting_from(s, offset + 1, state, nesting)
            },
            JsonScanState::String => if c == '\\' {
                spec_nesting_from(s, if s.len() - offset > 2 { offset + 2 } else { s.len() as int }, state, nesting)
            } else if c == '"' {
                spec_nesting_from(s, offset + 1, JsonScanState::Outside, nesting)
            } else {
                spec_nesting_from(s, offset + 1, state, nesting)
            },
            JsonScanState::LineComment => if c == '\r' || c == '\n' {
                spec_nesting_from(s, offset + 1, JsonScanState::Outside, nesting)
            } else {
                spec_nesting_from(s, offset + 1, state, nesting)
            },
            JsonScanState::BlockComment => if c == '*' && offset + 1 < s.len() && s[offset + 1] == '/' {
                spec_nesting_from(s, offset + 2, JsonScanState::Outside, nesting)
            } else {
                spec_nesting_from(s, offset + 1, state, nesting)
            },
        }
    }
}

/// The error for text the JSON parser refused: `invalid {dialect}: {kind}`
/// at the parser's line, moved down by `line_offset` (the record's line in
/// a JSON Lines file), and column.
pub fn json_parse_error(
    dialect: &[char],
    kind: &[char],
    line_display: usize,
    column_display: usize,
    line_offset: usize,
) -> (r: YamarkError)
    requires
        line_display + line_offset <= usize::MAX,
    ensures
        r.diagnostic.message@ == "invalid "@ + dialect@ + ": "@ + kind@,
        r.diagnostic.line == (if line_display + line_offset >= 1 { line_display + line_offset } else { 1 }),
        r.diagnostic.column == (if column_display >= 1 { column_display } else { 1 }),
        r.diagnostic.path is None,
{
    let mut m = crate::text::str_chars("invalid ");
    push_all(&mut m, dialect);
    let sep = crate::text::str_chars(": ");
    push_all(&mut m, sep.as_slice());
    push_all(&mut m, kind);
    error_from_chars_at(m.as_slice(), line_display + line_offset, column_display)
}

/// The error for JSON text that holds no value: `invalid {dialect}:
/// expected a JSON value` at the first column of the line after
/// `line_offset`.
pub fn missing_json_value_error(dialect: &[char], line_offset: usize) -> (r: YamarkError)
    requires
        line_offset < usize::MAX,
    ensures
        r.diagnostic.message@ == "invalid "@ + dialect@ + ": expected a JSON value"@,
        r.diagnostic.line == line_offset + 1,
        r.diagnostic.column == 1,
        r.diagnostic.path is None,
{
    let mut m = crate::text::str_chars("invalid ");
    push_all(&mut m, dialect);
    let tail = crate::text::str_chars(": expected a JSON value");
    push_all(&mut m, tail.as_slice());
    error_from_chars_at(m.as_slice(), line_offset + 1, 1)
}

/// The nesting depth reached by `[` and `{` outside strings and comments
/// never exceeds the limit; on excess, the error names the dialect and the
/// position of the offending bracket, its line moved down by `line_offset`.
pub fn check_json_nesting(input: &[char], dialect: &[char], line_offset: usize) -> (r: Result<
    (),
    YamarkError,
>)
    ensures
        match spec_nesting_from(input@, 0, JsonScanState::Outside, 0) {
            None => r is Ok,
            Some(p) => r matches Err(e) && e.diagnostic.message@ == "invalid "@ + dialect@
                + ": nesting exceeds 256 levels"@ && e.diagnostic.line == (if spec_line_column(input@, p).0
                + line_offset <= usize::MAX {
                spec_line_column(input@, p).0 + line_offset
            } else {
                usize::MAX as int
            }) && e.diagnostic.column == spec_line_column(input@, p).1,
        },
{
    let n = input.len();
    let mut state = JsonScanState::Outside;
    let mut nesting: usize = 0;
    let mut offset: usize = 0;
    while offset < n
        invariant
            n == input@.len(),
            nesting <= MAX_JSON_NESTING,
            spec_nesting_from(input@, offset as int, state, nesting as int) == spec_nesting_from(
                input@,
                0,
                JsonScanState::Outside,
                0,
            ),
        decreases n - offset,
    {
        let c = input[offset];
        match state {
            JsonScanState::Outside => {
                if c == '"' {
                    state = JsonScanState::String;
                    offset = offset + 1;
                } else if c == '/' && offset + 1 < n && input[offset + 1] == '/' {
                    state = JsonScanState::LineComment;
                    offset = offset + 2;
                } else if c == '/' && offset + 1 < n && input[offset + 1] == '*' {
                    state = JsonScanState::BlockComment;
                    offset = offset + 2;
                } else if c == '[' || c == '{' {
                    if nesting == MAX_JSON_NESTING {
                        let (line, column) = line_column(input, offset);
                        let mut message: Vec<char> = crate::text::str_chars("invalid ");
                        push_all(&mut message, dialect);
                        let tail = crate::text::str_chars(": nesting exceeds 256 levels");
                        push_all(&mut message, tail.as_slice());
                        let l = if line <= usize::MAX - line_offset {
                            line + line_offset
                        } else {
                            usize::MAX
                        };
                        return Err(error_from_chars_at(message.as_slice(), l, column));
                    }
                    nesting = nesting + 1;
                    offset = offset + 1;
                } else if c == ']' || c == '}' {
                    nesting = if nesting > 0 {
                        nesting - 1
                    } else {
                        0
                    };
                    offset = offset + 1;
                } else {
                    offset = offset + 1;
                }
            },
            JsonScanState::String => {
                if c == '\\' {
                    offset = if n - offset > 2 {
                        offset + 2
                    } else {
                        n
                    };
                } else if c == '"' {
                    state = JsonScanState::Outside;
                    offset = offset + 1;
                } else {
                    offset = offset + 1;
                }
            },
            JsonScanState::LineComment => {
                if c == '\r' || c == '\n' {
                    state = JsonScanState::Outside;
                }
                offset = offset + 1;
            },
            JsonScanState::BlockComment => {
                if c == '*' && offset + 1 < n && input[offset + 1] == '/' {
                    state = JsonScanState::Outside;
                    offset = offset + 2;
                } else {
                    offset = offset + 1;
                }
            },
        }
    }
    Ok(())
}

/// The rewrite of line breaks in JSONC comments from `offset` on, in scan
/// state `state`: a lone `\r`, U+2028 and U+2029 in a comment become `\n`
/// (and end a line comment); everything else is copied.
pub open spec fn spec_jsonc_breaks_from(s: Seq<char>, offset: int, state: JsonScanState) -> Seq<char>
    decreases s.len() - offset,
{
    if offset < 0 || offset >= s.len() {
        seq![]
    } else {
        let c = s[offset];
        let crlf = offset + 1 < s.len() && s[offset + 1] == '\n';
        if state == JsonScanState::Outside && c == '/' && offset + 1 < s.len() && (s[offset + 1] == '/' || s[offset
            + 1] == '*') {
            seq![c, s[offset + 1]] + spec_jsonc_breaks_from(
                s,
                offset + 2,
                if s[offset + 1] == '/' {
                    JsonScanState::LineComment
                } else {
                    JsonScanState::BlockComment
                },
            )
        } else if state == JsonScanState::BlockComment && c == '*' && offset + 1 < s.len() && s[offset + 1] == '/' {
            seq!['*', '/'] + spec_jsonc_breaks_from(s, offset + 2, JsonScanState::Outside)
        } else {
            match state {
                JsonScanState::Outside => seq![c] + spec_jsonc_breaks_from(
                    s,
                    offset + 1,
                    if c == '"' {
                        JsonScanState::String
                    } else {
                        JsonScanState::Outside
                    },
                ),
                JsonScanState::String => if c == '\\' {
                    if offset + 1 < s.len() {
                        seq![c, s[offset + 1]] + spec_jsonc_breaks_from(s, offset + 2, state)
                    } else {
                        seq![c] + spec_jsonc_breaks_from(s, offset + 1, state)
                    }
                } else {
                    seq![c] + spec_jsonc_breaks_from(
                        s,
                        offset + 1,
                        if c == '"' {
                            JsonScanState::Outside
                        } else {
                            state
                        },
                    )
                },
                JsonScanState::LineComment => if c == '\r' {
                    (if crlf {
                        seq![c]
                    } else {
                        seq!['\n']
                    }) + spec_jsonc_breaks_from(s, offset + 1, JsonScanState::Outside)
                } else if c == '\n' {
                    seq![c] + spec_jsonc_breaks_from(s, offset + 1, JsonScanState::Outside)
                } else if c == '\u{2028}' || c == '\u{2029}' {
                    seq!['\n'] + spec_jsonc_breaks_from(s, offset + 1, JsonScanState::Outside)
                } else {
                    seq![c] + spec_jsonc_breaks_from(s, offset + 1, state)
                },
                JsonScanState::BlockComment => (if (c == '\r' && !crlf) || c == '\u{2028}' || c == '\u{2029}' {
                    seq!['\n']
                } else {
                    seq![c]
                }) + spec_jsonc_breaks_from(s, offset + 1, state),
            }
        }
    }
}

/// Rewrites the line breaks inside JSONC comments that the JSONC parser
/// does not end comments at: a lone `\r` in a comment, and U+2028 or
/// U+2029 in a line comment (which then ends) or a block comment, become
/// `\n`. Everything else is kept.
pub fn normalize_jsonc_comment_line_breaks(input: &[char]) -> (r: Vec<char>)
    ensures
        r@ == spec_jsonc_breaks_from(input@, 0, JsonScanState::Outside),
{
    let n = input.len();
    let mut out: Vec<char> = Vec::new();
    let mut state = JsonScanState::Outside;
    let mut offset: usize = 0;
    while offset < n
        invariant
            n == input@.len(),
            offset <= n,
            out@ + spec_jsonc_breaks_from(input@, offset as int, state) == spec_jsonc_breaks_from(
                input@,
                0,
                JsonScanState::Outside,
            ),
        decreases n - offset,
    {
        let ghost o = out@;
        let ghost off0 = offset as int;
        let ghost st0 = state;
        let c = input[offset];
        if state == JsonScanState::Outside && c == '/' && offset + 1 < n && (input[offset + 1]
            == '/' || input[offset + 1] == '*') {
            state = if input[offset + 1] == '/' {
                JsonScanState::LineComment
            } else {
                JsonScanState::BlockComment
            };
            out.push(c);
            out.push(input[offset + 1]);
            offset = offset + 2;
        } else if state == JsonScanState::BlockComment && c == '*' && offset + 1 < n && input[offset
            + 1] == '/' {
            state = JsonScanState::Outside;
            out.push(c);
            out.push('/');
            offset = offset + 2;
        } else {
            match state {
                JsonScanState::Outside => {
                    if c == '"' {
                        state = JsonScanState::String;
                    }
                    out.push(c);
                    offset = offset + 1;
                },
                JsonScanState::String => {
                    if c == '\\' {
                        out.push(c);
                        offset = offset + 1;
                        if offset < n {
                            out.push(input[offset]);
                            offset = offset + 1;
                        }
                    } else {
                        if c == '"' {
                            state = JsonScanState::Outside;
                        }
                        out.push(c);
                        offset = offset + 1;
                    }
                },
                JsonScanState::LineComment => {
                    if c == '\r' {
                        state = JsonScanState::Outside;
                        if offset + 1 < n && input[offset + 1] == '\n' {
                            out.push(c);
                        } else {
                            out.push('\n');
                        }
                    } else if c == '\n' {
                        state = JsonScanState::Outside;
                        out.push(c);
                    } else if c == '\u{2028}' || c == '\u{2029}' {
                        out.push('\n');
                        state = JsonScanState::Outside;
                    } else {
                        out.push(c);
                    }
                    offset = offset + 1;
                },
                JsonScanState::BlockComment => {
                    if (c == '\r' && !(offset + 1 < n && input[offset + 1] == '\n')) || c
                        == '\u{2028}' || c == '\u{2029}' {
                        out.push('\n');
                    } else {
                        out.push(c);
                    }
                    offset = offset + 1;
                },
            }
        }
        assert(out@ + spec_jsonc_breaks_from(input@, offset as int, state) =~= o + spec_jsonc_breaks_from(input@, off0, st0));
    }
    out
}

/// A JSON boolean renders as the YAML word for its own value: read back by
/// the YAML core schema, the rendering is a boolean, and the one the JSON
/// value holds.
pub proof fn lemma_json_boolean_reads_back(node: JsonNode)
    requires
        node.value is Boolean,
    ensures
        spec_bool(spec_json_flow(node)) == Some(node.value->Boolean_0),
        spec_scalar_semantic(spec_json_flow(node)) == YamlScalarSemantic::Boolean,
{
    let r = spec_json_flow(node);
    assert(r.len() > 0 && !spec_ws(r[0]) && !spec_ws(r.last()));
    lemma_trim_trimmed(r);
    assert(!spec_null(r)) by {
        assert(r[0] == 't' || r[0] == 'f');
        if r == seq!['n', 'u', 'l', 'l'] || r == seq!['N', 'u', 'l', 'l'] || r == seq!['N', 'U', 'L', 'L'] {
            assert(r[0] == 'n' || r[0] == 'N');
        }
        if r == seq!['~'] {
            assert(r[0] == '~');
        }
    }
    if node.value->Boolean_0 {
        assert(r == seq!['t', 'r', 'u', 'e']);
        assert(r != seq!['f', 'a', 'l', 's', 'e']);
    } else {
        assert(r == seq!['f', 'a', 'l', 's', 'e']);
        assert(r != seq!['t', 'r', 'u', 'e'] && r != seq!['T', 'r', 'u', 'e'] && r != seq!['T', 'R', 'U', 'E']) by {
            assert(r.len() == 5);
        }
    }
}

/// A JSON string renders as a double-quoted YAML scalar that decodes back
/// to the string itself, for every string without U+0085, U+00A0, U+2028 or
/// U+2029 (which the emitter writes as `\N`, `\_`, `\L` and `\P`, escapes
/// the decoder does not take).
pub proof fn lemma_json_string_reads_back(node: JsonNode, policy: DecodePolicy)
    requires
        node.value is String,
        forall|k: int|
            0 <= k < node.value->String_0@.len() ==> !spec_named_space_escape(#[trigger] node.value->String_0@[k]),
    ensures
        spec_decode_quoted(spec_json_flow(node), policy) == Some(node.value->String_0@),
{
    lemma_double_quoted_round_trip(node.value->String_0@, policy);
}

/// A JSON integer (`12`, `-7`) renders as a YAML integer.
pub proof fn lemma_json_integer_reads_back(node: JsonNode, sign: Seq<char>, digits: Seq<char>)
    requires
        node.value is Number,
        node.value->Number_0@ == sign + digits,
        sign == Seq::<char>::empty() || sign == seq!['-'],
        spec_all_ascii_digits(digits),
        digits.len() > 0,
    ensures
        spec_scalar_semantic(spec_json_flow(node)) == YamlScalarSemantic::Integer,
{
    lemma_decimal_digits_is_integer(sign, digits);
}

/// A JSON number with a fraction (`1.5`, `-0.25`) renders as a YAML float.
pub proof fn lemma_json_fraction_reads_back(node: JsonNode, sign: Seq<char>, whole: Seq<char>, frac: Seq<char>)
    requires
        node.value is Number,
        node.value->Number_0@ == sign + whole + seq!['.'] + frac,
        sign == Seq::<char>::empty() || sign == seq!['-'],
        spec_all_ascii_digits(whole),
        spec_all_ascii_digits(frac),
        whole.len() > 0,
        frac.len() > 0,
    ensures
        spec_scalar_semantic(spec_json_flow(node)) == YamlScalarSemantic::Float,
{
    lemma_decimal_fraction_is_float(sign, whole, frac);
}

/// A JSON number with an exponent (`1e5`, `-2.5E-3`, `6.02e+23`) renders
/// as a YAML float.
pub proof fn lemma_json_exponent_reads_back(
    node: JsonNode,
    sign: Seq<char>,
    whole: Seq<char>,
    point: Seq<char>,
    frac: Seq<char>,
    marker: char,
    exp_sign: Seq<char>,
    exp: Seq<char>,
)
    requires
        node.value is Number,
        node.value->Number_0@ == sign + whole + point + frac + seq![marker] + exp_sign + exp,
        sign == Seq::<char>::empty() || sign == seq!['-'],
        spec_all_ascii_digits(whole),
        spec_all_ascii_digits(frac),
        whole.len() > 0,
        point == seq!['.'] && frac.len() > 0 || point == Seq::<char>::empty() && frac.len() == 0,
        marker == 'e' || marker == 'E',
        exp_sign == Seq::<char>::empty() || exp_sign == seq!['+'] || exp_sign == seq!['-'],
        spec_all_ascii_digits(exp),
        exp.len() > 0,
    ensures
        spec_scalar_semantic(spec_json_flow(node)) == YamlScalarSemantic::Float,
{
    lemma_exponent_number_is_float(sign, whole, point, frac, marker, exp_sign, exp);
}

/// A JSON null renders as a YAML null.
pub proof fn lemma_json_null_reads_back(node: JsonNode)
    requires
        node.value is Null,
    ensures
        spec_scalar_semantic(spec_json_flow(node)) == YamlScalarSemantic::Null,
{
    let r = spec_json_flow(node);
    assert(r == seq!['n', 'u', 'l', 'l']);
    lemma_trim_trimmed(r);
}

/// An object key reads back, by the YAML core schema, as a string however
/// it is emitted: a key written plain is never a null, boolean, number or
/// anything but the string itself (it starts with a letter or `_`, never a
/// digit, and holds no whitespace, no `:`, `#` or `,`, no quote and no
/// bracket), and any other key is double-quoted.
#[verifier::rlimit(30)]
#[verifier::spinoff_prover]
pub proof fn lemma_mapping_key_reads_back_as_string(v: Seq<char>)
    ensures
        spec_scalar_semantic(if spec_plain_json_key(v) {
            v
        } else {
            spec_double_quoted(v)
        }) == YamlScalarSemantic::String,
        spec_plain_json_key(v) ==> v.len() > 0 && !crate::text::spec_digit(v[0]) && v[0] != '.' && v[0] != '-'
            && v[0] != '+',
        spec_plain_json_key(v) ==> forall|i: int|
            0 <= i < v.len() ==> !spec_ws(#[trigger] v[i]) && v[i] != ':' && v[i] != '#' && v[i] != ',' && v[i]
                != '"' && v[i] != '\'' && v[i] != '[' && v[i] != ']' && v[i] != '{' && v[i] != '}',
{
    if spec_plain_json_key(v) {
        assert(!spec_ws(v[0]));
        assert(!spec_ws(v.last())) by {
            if v.len() > 1 {
                assert(crate::text::spec_alpha(v[v.len() - 1]) || crate::text::spec_digit(v[v.len() - 1])
                    || v[v.len() - 1] == '_' || v[v.len() - 1] == '-');
            }
        }
        lemma_trim_trimmed(v);
        assert forall|i: int| 0 <= i < v.len() implies v[i] != '.' && v[i] != 'e' || crate::text::spec_alpha(v[i])
            by {
            if i >= 1 {
                assert(crate::text::spec_alpha(v[i]) || crate::text::spec_digit(v[i]) || v[i] == '_' || v[i] == '-');
            }
        }
        assert(!v.contains('.')) by {
            if v.contains('.') {
                let i = choose|i: int| 0 <= i < v.len() && v[i] == '.';
                if i >= 1 {
                    assert(crate::text::spec_alpha(v[i]) || crate::text::spec_digit(v[i]) || v[i] == '_' || v[i] == '-');
                }
            }
        }
        lemma_plain_key_not_word(v);
        assert(!spec_integer(v));
        lemma_no_dot_not_float(v);
        assert(spec_non_string_semantic(v) is None);
    } else {
        let q = spec_double_quoted(v);
        assert(q[0] == '"' && q.last() == '"');
        lemma_trim_trimmed(q);
    }
}

/// A plain key is none of the null and boolean words.
proof fn lemma_plain_key_not_word(v: Seq<char>)
    requires
        spec_plain_json_key(v),
    ensures
        !spec_null(v),
        spec_bool(v) is None,
{
    let n = seq!['n', 'u', 'l', 'l'];
    let t = seq!['t', 'r', 'u', 'e'];
    let f = seq!['f', 'a', 'l', 's', 'e'];
    if v == seq!['N', 'u', 'l', 'l'] || v == seq!['N', 'U', 'L', 'L'] || v == n {
        assert(crate::yaml_quote::spec_eq_ignore_ascii_case(v, n)) by {
            assert forall|i: int| 0 <= i < v.len() implies crate::yaml_quote::spec_ascii_lower(#[trigger] v[i])
                == crate::yaml_quote::spec_ascii_lower(n[i]) by {
                assert(('N' as u32 + 32) as u8 as char == 'n');
                assert(('U' as u32 + 32) as u8 as char == 'u');
                assert(('L' as u32 + 32) as u8 as char == 'l');
            }
        }
    }
    if v == seq!['T', 'r', 'u', 'e'] || v == seq!['T', 'R', 'U', 'E'] || v == t {
        assert(crate::yaml_quote::spec_eq_ignore_ascii_case(v, t)) by {
            assert forall|i: int| 0 <= i < v.len() implies crate::yaml_quote::spec_ascii_lower(#[trigger] v[i])
                == crate::yaml_quote::spec_ascii_lower(t[i]) by {
                assert(('T' as u32 + 32) as u8 as char == 't');
                assert(('R' as u32 + 32) as u8 as char == 'r');
                assert(('U' as u32 + 32) as u8 as char == 'u');
                assert(('E' as u32 + 32) as u8 as char == 'e');
            }
        }
    }
    if v == seq!['F', 'a', 'l', 's', 'e'] || v == seq!['F', 'A', 'L', 'S', 'E'] || v == f {
        assert(crate::yaml_quote::spec_eq_ignore_ascii_case(v, f)) by {
            assert forall|i: int| 0 <= i < v.len() implies crate::yaml_quote::spec_ascii_lower(#[trigger] v[i])
                == crate::yaml_quote::spec_ascii_lower(f[i]) by {
                assert(('F' as u32 + 32) as u8 as char == 'f');
                assert(('A' as u32 + 32) as u8 as char == 'a');
                assert(('L' as u32 + 32) as u8 as char == 'l');
                assert(('S' as u32 + 32) as u8 as char == 's');
                assert(('E' as u32 + 32) as u8 as char == 'e');
            }
        }
    }
    if v == seq!['~'] {
        assert(v[0] == '~');
    }
}

/// Text that starts with a letter or `_` and holds no `.` is no float.
proof fn lemma_no_dot_not_float(v: Seq<char>)
    requires
        v.len() > 0,
        crate::text::spec_alpha(v[0]) || v[0] == '_',
        !v.contains('.'),
    ensures
        !spec_float_semantic(v),
{
    let u = crate::yaml_semantic::spec_strip_sign(v);
    assert(u == v);
    assert(!crate::yaml_semantic::spec_float_special(v)) by {
        if v.len() == 4 {
            assert(v[0] != '.');
        }
    }
    assert(!crate::yaml_semantic::spec_decimal_fraction(v));
    assert forall|e: int| 0 <= e < u.len() implies !crate::yaml_semantic::spec_float_number_part(#[trigger] u.subrange(0, e)) by {
        let w = u.subrange(0, e);
        if w.len() > 0 {
            assert(w[0] == v[0]);
        }
        if crate::yaml_semantic::spec_decimal_fraction(w) {
            let d = choose|d: int| 0 <= d < w.len() && w[d] == '.' && (forall|j: int| 0 <= j < d ==> w[j] != '.') && ({
                let before = w.subrange(0, d);
                let after = w.subrange(d + 1, w.len() as int);
                (before.len() == 0 || crate::yaml_semantic::spec_radix_digits(crate::yaml_semantic::Radix::Decimal, before))
                    && (after.len() == 0 || crate::yaml_semantic::spec_radix_digits(crate::yaml_semantic::Radix::Decimal, after))
                    && !(before.len() == 0 && after.len() == 0)
            });
            assert(v[d] == '.');
        }
    }
}

} // verus!
