//! Line-level recognizers of the YAML parser: indentation, mapping colons,
//! sequence and explicit-key markers, comments, document markers and block
//! scalar headers.
use vstd::prelude::*;
use crate::text::{
    contains_char, has_at, is_ascii_ws, lemma_skip_ascii_ws, is_ws, skip_ascii_ws, skip_ws, spec_ascii_ws,
    spec_has_at, spec_skip_ascii_ws, spec_skip_ws, spec_trim, spec_trim_ws_end, spec_ws, starts_with,
    sub_chars, trim, trim_ws_end,
};
use crate::yaml_model::{YamlBlockChomp, YamlBlockScalarHeader};

verus! {

/// The kind of line break at the end of a line.
#[derive(Debug, Clone, Copy, PartialEq, Eq, Structural)]
pub enum Newline {
    Missing,
    Lf,
    CrLf,
    Cr,
}

pub open spec fn spec_newline_chars(n: Newline) -> Seq<char> {
    match n {
        Newline::Missing => Seq::empty(),
        Newline::Lf => seq!['\n'],
        Newline::CrLf => seq!['\r', '\n'],
        Newline::Cr => seq!['\r'],
    }
}

pub fn newline_chars(n: Newline) -> (r: Vec<char>)
    ensures
        r@ == spec_newline_chars(n),
{
    match n {
        Newline::Missing => Vec::new(),
        Newline::Lf => vec!['\n'],
        Newline::CrLf => vec!['\r', '\n'],
        Newline::Cr => vec!['\r'],
    }
}

/// Splits a line into its body and its final line break.
pub open spec fn spec_strip_newline(s: Seq<char>) -> (int, Newline) {
    if s.len() >= 2 && s[s.len() - 2] == '\r' && s[s.len() - 1] == '\n' {
        (s.len() - 2, Newline::CrLf)
    } else if s.len() >= 1 && s[s.len() - 1] == '\n' {
        (s.len() - 1, Newline::Lf)
    } else if s.len() >= 1 && s[s.len() - 1] == '\r' {
        (s.len() - 1, Newline::Cr)
    } else {
        (s.len() as int, Newline::Missing)
    }
}

pub fn strip_newline(line: &[char]) -> (r: (usize, Newline))
    ensures
        (r.0 as int, r.1) == spec_strip_newline(line@),
        r.0 <= line@.len(),
        line@ == line@.subrange(0, r.0 as int) + spec_newline_chars(r.1),
{
    let n = line.len();
    let r = if n >= 2 && line[n - 2] == '\r' && line[n - 1] == '\n' {
        (n - 2, Newline::CrLf)
    } else if n >= 1 && line[n - 1] == '\n' {
        (n - 1, Newline::Lf)
    } else if n >= 1 && line[n - 1] == '\r' {
        (n - 1, Newline::Cr)
    } else {
        (n, Newline::Missing)
    };
    assert(line@ =~= line@.subrange(0, r.0 as int) + spec_newline_chars(r.1));
    r
}

/// The number of spaces from `from` on.
pub open spec fn spec_spaces(s: Seq<char>, from: int) -> int
    decreases s.len() - from,
{
    if from < 0 || from >= s.len() || s[from] != ' ' {
        0
    } else {
        1 + spec_spaces(s, from + 1)
    }
}

pub fn spaces(s: &[char], from: usize) -> (r: usize)
    ensures
        r == spec_spaces(s@, from as int),
        from <= s@.len() ==> from + r <= s@.len(),
{
    let mut i = from;
    while i < s.len() && s[i] == ' '
        invariant
            from <= i,
            from <= s@.len() ==> i <= s@.len(),
            spec_spaces(s@, from as int) == (i - from) + spec_spaces(s@, i as int),
        decreases s@.len() - i,
    {
        i = i + 1;
    }
    i - from
}

/// The indentation of a line: a leading byte order mark counts as one
/// column, followed by the spaces.
pub open spec fn spec_indentation(s: Seq<char>) -> int {
    let bom = if s.len() > 0 && s[0] == '\u{feff}' {
        1int
    } else {
        0
    };
    bom + spec_spaces(s, bom)
}

pub fn indentation(text: &[char]) -> (r: usize)
    ensures
        r == spec_indentation(text@),
        r <= text@.len(),
{
    let bom: usize = if text.len() > 0 && text[0] == '\u{feff}' {
        1
    } else {
        0
    };
    bom + spaces(text, bom)
}

/// The length of a leading byte order mark: one or none.
pub open spec fn spec_bom(s: Seq<char>) -> int {
    if s.len() > 0 && s[0] == '\u{feff}' {
        1int
    } else {
        0
    }
}

/// A tab right after the leading spaces (and byte order mark), if any.
pub open spec fn spec_tab_in_indentation(s: Seq<char>) -> Option<int> {
    let p = spec_bom(s) + spec_spaces(s, spec_bom(s));
    if p < s.len() && s[p] == '\t' {
        Some(p)
    } else {
        None
    }
}

/// The column of a tab among the blanks after an optional byte order mark.
pub fn tab_in_indentation(text: &[char]) -> (r: Option<usize>)
    ensures
        match spec_tab_in_indentation(text@) {
            Some(p) => r == Some(p as usize),
            None => r is None,
        },
        spec_tab_in_indentation(text@) matches Some(p) ==> 0 <= p < text@.len(),
{
    let bom: usize = if text.len() > 0 && text[0] == '\u{feff}' {
        1
    } else {
        0
    };
    let mut i = bom;
    while i < text.len()
        invariant
            bom <= i <= text@.len() || (i == bom && bom > text@.len()),
            bom == spec_bom(text@),
            spec_spaces(text@, bom as int) == (i - bom) + spec_spaces(text@, i as int),
        decreases text@.len() - i,
    {
        if text[i] == '\t' {
            return Some(i);
        }
        if text[i] != ' ' {
            return None;
        }
        i = i + 1;
    }
    None
}

/// A comment may start at the value start or after whitespace.
pub open spec fn spec_comment_can_start(s: Seq<char>, value_start: int, index: int) -> bool {
    index == value_start || (0 < index <= s.len() && spec_ws(s[index - 1]))
}

pub fn comment_can_start(text: &[char], value_start: usize, index: usize) -> (r: bool)
    ensures
        r == spec_comment_can_start(text@, value_start as int, index as int),
{
    index == value_start || (0 < index && index <= text.len() && is_ws(text[index - 1]))
}

/// The state of the quote-aware line scanner: inside single quotes, inside
/// double quotes, after a backslash in double quotes, and the flow bracket
/// depth.
pub struct ScanState {
    pub single: bool,
    pub double: bool,
    pub escaped: bool,
    pub depth: int,
}

pub open spec fn scan_start() -> ScanState {
    ScanState { single: false, double: false, escaped: false, depth: 0 }
}

/// Where the scanner goes from position `i` in state `st`: the next position
/// and state. Quoted text is skipped (a doubled `''` inside single quotes,
/// an escaped character inside double quotes), brackets change the depth
/// (never below zero).
pub open spec fn spec_scan_step(s: Seq<char>, i: int, st: ScanState) -> (int, ScanState) {
    let c = s[i];
    if st.double {
        if st.escaped {
            (i + 1, ScanState { escaped: false, ..st })
        } else if c == '\\' {
            (i + 1, ScanState { escaped: true, ..st })
        } else if c == '"' {
            (i + 1, ScanState { double: false, ..st })
        } else {
            (i + 1, st)
        }
    } else if st.single {
        if c == '\'' && i + 1 < s.len() && s[i + 1] == '\'' {
            (i + 2, st)
        } else if c == '\'' {
            (i + 1, ScanState { single: false, ..st })
        } else {
            (i + 1, st)
        }
    } else if c == '\'' {
        (i + 1, ScanState { single: true, ..st })
    } else if c == '"' {
        (i + 1, ScanState { double: true, ..st })
    } else if c == '[' || c == '{' {
        (i + 1, ScanState { depth: st.depth + 1, ..st })
    } else if c == ']' || c == '}' {
        (i + 1, ScanState { depth: if st.depth > 0 { st.depth - 1 } else { 0 }, ..st })
    } else {
        (i + 1, st)
    }
}

/// Whether the scanner stops at `i`: `target` outside quotes and brackets,
/// and for a comment also at the value start or after whitespace.
pub open spec fn spec_scan_hit(s: Seq<char>, i: int, st: ScanState, target: char, value_start: int) -> bool {
    &&& !st.single
    &&& !st.double
    &&& s[i] == target
    &&& st.depth == 0
    &&& (target == '#' ==> spec_comment_can_start(s, value_start, i))
}

/// The first position from `i` at which the scanner stops.
pub open spec fn spec_find_unquoted(s: Seq<char>, i: int, st: ScanState, target: char, value_start: int) -> Option<
    int,
>
    decreases s.len() - i,
{
    if i < 0 || i >= s.len() {
        None
    } else if spec_scan_hit(s, i, st, target, value_start) {
        Some(i)
    } else {
        let next = spec_scan_step(s, i, st);
        spec_find_unquoted(s, next.0, next.1, target, value_start)
    }
}

pub proof fn lemma_find_unquoted(s: Seq<char>, i: int, st: ScanState, target: char, value_start: int)
    requires
        0 <= i,
    ensures
        spec_find_unquoted(s, i, st, target, value_start) matches Some(p) ==> i <= p < s.len() && s[p] == target
            && (target == '#' ==> spec_comment_can_start(s, value_start, p)),
        (forall|k: int| i <= k < s.len() ==> s[k] != target) ==> spec_find_unquoted(s, i, st, target, value_start)
            is None,
    decreases s.len() - i,
{
    if 0 <= i < s.len() && !spec_scan_hit(s, i, st, target, value_start) {
        let next = spec_scan_step(s, i, st);
        lemma_find_unquoted(s, next.0, next.1, target, value_start);
    }
}

/// Runs the quote-aware scanner over `text` from `start` and returns where
/// it stops.
fn find_unquoted(text: &[char], start: usize, target: char, value_start: usize) -> (r: Option<usize>)
    ensures
        match spec_find_unquoted(text@, start as int, scan_start(), target, value_start as int) {
            Some(p) => r == Some(p as usize),
            None => r is None,
        },
{
    let n = text.len();
    let mut in_single = false;
    let mut in_double = false;
    let mut escaped = false;
    let mut flow_depth: usize = 0;
    let mut i = start;
    while i < n
        invariant
            n == text@.len(),
            start <= i,
            flow_depth <= i - start,
            spec_find_unquoted(
                text@,
                i as int,
                ScanState { single: in_single, double: in_double, escaped, depth: flow_depth as int },
                target,
                value_start as int,
            ) == spec_find_unquoted(text@, start as int, scan_start(), target, value_start as int),
        decreases n - i,
    {
        let c = text[i];
        if !in_single && !in_double && c == target && flow_depth == 0 && (target != '#'
            || comment_can_start(text, value_start, i)) {
            return Some(i);
        }
        if in_double {
            if escaped {
                escaped = false;
            } else if c == '\\' {
                escaped = true;
            } else if c == '"' {
                in_double = false;
            }
            i = i + 1;
        } else if in_single {
            if c == '\'' && i + 1 < n && text[i + 1] == '\'' {
                i = i + 2;
            } else {
                if c == '\'' {
                    in_single = false;
                }
                i = i + 1;
            }
        } else {
            if c == '\'' {
                in_single = true;
            } else if c == '"' {
                in_double = true;
            } else if c == '[' || c == '{' {
                flow_depth = flow_depth + 1;
            } else if c == ']' || c == '}' {
                flow_depth = if flow_depth > 0 {
                    flow_depth - 1
                } else {
                    0
                };
            }
            i = i + 1;
        }
    }
    None
}

/// The start of the trailing comment of a line: the first `#` that is
/// outside quotes and flow brackets and preceded by whitespace (or at the
/// value start).
pub fn find_trailing_comment(text: &[char], value_start: usize) -> (r: Option<usize>)
    ensures
        match spec_find_unquoted(text@, value_start as int, scan_start(), '#', value_start as int) {
            Some(p) => r == Some(p as usize),
            None => r is None,
        },
        r matches Some(i) ==> value_start <= i < text@.len() && text@[i as int] == '#'
            && spec_comment_can_start(text@, value_start as int, i as int),
        (forall|k: int| value_start <= k < text@.len() ==> text@[k] != '#') ==> r is None,
{
    let _n = text.len();
    proof {
        lemma_find_unquoted(text@, value_start as int, scan_start(), '#', value_start as int);
    }
    find_unquoted(text, value_start, '#', value_start)
}

/// A `:` in a flow collection is a value indicator when adjacent values are
/// allowed or it is followed by the end, whitespace, `,`, `]` or `}`.
pub fn flow_colon_is_value_indicator(text: &[char], colon: usize, adjacent_allowed: bool) -> (r: bool)
    ensures
        r == (adjacent_allowed || colon + 1 >= text@.len() || spec_ascii_ws(text@[colon + 1])
            || text@[colon + 1] == ',' || text@[colon + 1] == ']' || text@[colon + 1] == '}'),
{
    if adjacent_allowed {
        return true;
    }
    let n = text.len();
    if colon >= n || colon + 1 >= n {
        return true;
    }
    let next = text[colon + 1];
    is_ascii_ws(next) || next == ',' || next == ']' || next == '}'
}

/// The end of `text[start..end]` with trailing whitespace removed.
pub fn trim_end_before(text: &[char], start: usize, end: usize) -> (r: usize)
    requires
        end <= text@.len(),
    ensures
        r == spec_trim_ws_end(text@, start as int, end as int),
        r <= end,
        start <= end ==> start <= r,
{
    trim_ws_end(text, start, end)
}

/// The first `:` outside quotes and flow brackets.
pub fn simple_mapping_colon(text: &[char]) -> (r: Option<usize>)
    ensures
        match spec_find_unquoted(text@, 0, scan_start(), ':', 0) {
            Some(p) => r == Some(p as usize),
            None => r is None,
        },
        r matches Some(i) ==> i < text@.len() && text@[i as int] == ':',
        !text@.contains(':') ==> r is None,
{
    let _n = text.len();
    proof {
        lemma_find_unquoted(text@, 0, scan_start(), ':', 0);
        if !text@.contains(':') {
            assert forall|k: int| 0 <= k < text@.len() implies text@[k] != ':' by {
                if text@[k] == ':' {
                    assert(text@.contains(':'));
                }
            }
        }
    }
    find_unquoted(text, 0, ':', 0)
}

/// The mapping colon of a key that starts at `key_start_column`: the first
/// colon of `text[key_start_column..]` outside quotes and brackets, unless
/// anything but whitespace follows it.
pub open spec fn spec_mapping_colon_from(s: Seq<char>, key_start: int) -> Option<int> {
    if key_start >= s.len() {
        None
    } else {
        match spec_find_unquoted(s.subrange(key_start, s.len() as int), 0, scan_start(), ':', 0) {
            None => None,
            Some(relative) => {
                let colon = key_start + relative;
                if colon + 1 < s.len() && !spec_ascii_ws(s[colon + 1]) {
                    None
                } else {
                    Some(colon)
                }
            },
        }
    }
}

pub proof fn lemma_mapping_colon_bounds(s: Seq<char>, key_start: int)
    requires
        0 <= key_start,
    ensures
        spec_mapping_colon_from(s, key_start) matches Some(c) ==> key_start <= c < s.len() && s[c] == ':',
{
    if key_start < s.len() {
        let rest = s.subrange(key_start, s.len() as int);
        lemma_find_unquoted(rest, 0, scan_start(), ':', 0);
        if let Some(rel) = spec_find_unquoted(rest, 0, scan_start(), ':', 0) {
            assert(rest[rel] == s[key_start + rel]);
        }
    }
}

/// A mapping colon of a key that starts at `key_start_column`: the first
/// colon outside quotes and brackets, followed by the end or whitespace.
pub fn mapping_colon_from(text: &[char], key_start_column: usize) -> (r: Option<usize>)
    ensures
        match spec_mapping_colon_from(text@, key_start_column as int) {
            Some(c) => r == Some(c as usize),
            None => r is None,
        },
        r matches Some(c) ==> key_start_column <= c < text@.len() && text@[c as int] == ':' && (c
            + 1 >= text@.len() || spec_ascii_ws(text@[c + 1])),
{
    let n = text.len();
    if key_start_column >= n {
        return None;
    }
    let rest = sub_chars(text, key_start_column, n);
    let found = simple_mapping_colon(rest.as_slice());
    proof {
        lemma_find_unquoted(rest@, 0, scan_start(), ':', 0);
    }
    match found {
        None => None,
        Some(relative) => {
            let colon = key_start_column + relative;
            assert(text@[colon as int] == rest@[relative as int]);
            if colon + 1 < n && !is_ascii_ws(text[colon + 1]) {
                return None;
            }
            Some(colon)
        },
    }
}

/// The mapping colon of a line indented by exactly `indent` that is not a
/// sequence entry.
pub open spec fn spec_mapping_colon_at(s: Seq<char>, indent: int) -> Option<int> {
    if spec_indentation(s) != indent {
        None
    } else if 0 <= indent < s.len() && s[indent] == '-' {
        None
    } else {
        spec_mapping_colon_from(s, indent)
    }
}

pub fn mapping_colon_at(text: &[char], indent: usize) -> (r: Option<usize>)
    ensures
        match spec_mapping_colon_at(text@, indent as int) {
            Some(c) => r == Some(c as usize),
            None => r is None,
        },
        r matches Some(c) ==> spec_indentation(text@) == indent && indent <= c < text@.len()
            && text@[c as int] == ':',
        spec_indentation(text@) != indent ==> r is None,
        spec_mapping_colon_at(text@, indent as int) matches Some(c) ==> indent <= c < text@.len(),
{
    proof {
        lemma_mapping_colon_bounds(text@, indent as int);
    }
    if indentation(text) != indent {
        return None;
    }
    if indent < text.len() && text[indent] == '-' {
        return None;
    }
    mapping_colon_from(text, indent)
}

/// `indicator` at `marker`, followed by the end or whitespace.
pub open spec fn spec_indicator_at(s: Seq<char>, marker: int, indicator: char) -> bool {
    0 <= marker < s.len() && s[marker] == indicator && (marker + 1 >= s.len() || spec_ascii_ws(
        s[marker + 1],
    ))
}

pub fn explicit_indicator_at(text: &[char], marker: usize, indicator: char) -> (r: Option<usize>)
    ensures
        r matches Some(m) ==> m == marker,
        r is Some <==> spec_indicator_at(text@, marker as int, indicator),
{
    let n = text.len();
    if marker >= n || text[marker] != indicator {
        return None;
    }
    if marker + 1 < n && !is_ascii_ws(text[marker + 1]) {
        return None;
    }
    Some(marker)
}

pub fn explicit_indicator_line(text: &[char], indent: usize, indicator: char) -> (r: Option<usize>)
    ensures
        r matches Some(m) ==> m == indent && m < text@.len(),
        r is Some <==> (spec_indentation(text@) == indent && spec_indicator_at(
            text@,
            indent as int,
            indicator,
        )),
{
    if indentation(text) != indent {
        return None;
    }
    explicit_indicator_at(text, indent, indicator)
}

/// A `? ` explicit key line at `indent`.
pub fn explicit_key_line(text: &[char], indent: usize) -> (r: Option<usize>)
    ensures
        r matches Some(m) ==> m == indent && m < text@.len(),
        r is Some <==> (spec_indentation(text@) == indent && spec_indicator_at(text@, indent as int, '?')),
{
    explicit_indicator_line(text, indent, '?')
}

/// A `: ` explicit value line at `indent`.
pub fn explicit_value_line(text: &[char], indent: usize) -> (r: Option<usize>)
    ensures
        r matches Some(m) ==> m == indent,
        r is Some <==> (spec_indentation(text@) == indent && spec_indicator_at(text@, indent as int, ':')),
{
    explicit_indicator_line(text, indent, ':')
}

/// A `-` sequence marker at `marker`.
pub fn compact_sequence_marker_at(text: &[char], marker: usize) -> (r: Option<usize>)
    ensures
        r matches Some(m) ==> m == marker,
        r is Some <==> spec_indicator_at(text@, marker as int, '-'),
{
    explicit_indicator_at(text, marker, '-')
}

/// A sequence entry line at `indent`.
pub fn sequence_line(text: &[char], indent: usize) -> (r: Option<usize>)
    ensures
        r matches Some(m) ==> m == indent && m < text@.len(),
        r is Some <==> (spec_indentation(text@) == indent && spec_indicator_at(text@, indent as int, '-')),
{
    if indentation(text) != indent {
        return None;
    }
    compact_sequence_marker_at(text, indent)
}

/// `%YAML ` or `%TAG ` after leading whitespace.
pub open spec fn spec_standard_directive(s: Seq<char>) -> bool {
    let t = s.subrange(spec_skip_ws(s, 0), s.len() as int);
    spec_has_at(t, 0, seq!['%', 'Y', 'A', 'M', 'L', ' ']) || spec_has_at(
        t,
        0,
        seq!['%', 'T', 'A', 'G', ' '],
    )
}

pub fn standard_yaml_directive(text: &[char]) -> (r: bool)
    ensures
        r == spec_standard_directive(text@),
{
    let start = skip_ws(text, 0);
    let t = sub_chars(text, start, text.len());
    let y = vec!['%', 'Y', 'A', 'M', 'L', ' '];
    let g = vec!['%', 'T', 'A', 'G', ' '];
    starts_with(t.as_slice(), y.as_slice()) || starts_with(t.as_slice(), g.as_slice())
}

/// `---` starts a document; `...` ends one.
#[derive(Debug, Clone, Copy, PartialEq, Eq, Structural)]
pub enum DocumentMarkerKind {
    Start,
    End,
}

#[derive(Debug, Clone, Copy, PartialEq, Eq, Structural)]
pub struct DocumentMarkerLine {
    pub kind: DocumentMarkerKind,
    pub inline_content_start: Option<usize>,
}

/// Every whitespace-separated token of `s` starts with `!` or `&`.
pub open spec fn spec_all_tokens_are_properties(s: Seq<char>) -> bool {
    forall|i: int|
        0 <= i < s.len() && !spec_ws(#[trigger] s[i]) && (i == 0 || spec_ws(s[i - 1])) ==> (s[i]
            == '!' || s[i] == '&')
}

pub fn all_tokens_are_properties(s: &[char]) -> (r: bool)
    ensures
        r == spec_all_tokens_are_properties(s@),
{
    let mut i: usize = 0;
    while i < s.len()
        invariant
            i <= s@.len(),
            forall|k: int|
                0 <= k < i && !spec_ws(#[trigger] s@[k]) && (k == 0 || spec_ws(s@[k - 1])) ==> (
                s@[k] == '!' || s@[k] == '&'),
        decreases s@.len() - i,
    {
        let starts = !is_ws(s[i]) && (i == 0 || is_ws(s[i - 1]));
        if starts && !(s[i] == '!' || s[i] == '&') {
            return false;
        }
        i = i + 1;
    }
    true
}

/// Where the trailing comment of `s` from `value_start` starts, or the end.
pub open spec fn spec_comment_or_end(s: Seq<char>, value_start: int) -> int {
    match spec_find_unquoted(s, value_start, scan_start(), '#', value_start) {
        Some(c) => c,
        None => s.len() as int,
    }
}

/// Content that holds only node properties up to its trailing comment.
pub open spec fn spec_marker_property_only(content: Seq<char>) -> bool {
    let t = spec_trim(content.subrange(0, spec_comment_or_end(content, 0)));
    t.len() > 0 && spec_all_tokens_are_properties(t)
}

/// Content after a document marker that holds only node properties (up to
/// a trailing comment).
pub fn document_marker_property_only(content: &[char]) -> (r: bool)
    ensures
        r == spec_marker_property_only(content@),
{
    let _n = content.len();
    proof {
        lemma_find_unquoted(content@, 0, scan_start(), '#', 0);
    }
    let comment_start = match find_trailing_comment(content, 0) {
        Some(c) => c,
        None => content.len(),
    };
    let body = sub_chars(content, 0, comment_start);
    let t = trim(body.as_slice());
    t.len() > 0 && all_tokens_are_properties(t.as_slice())
}

/// Where inline content after a `---` marker ending at `marker_end` starts:
/// none when there is none, it is a comment, or it holds only node
/// properties.
pub open spec fn spec_marker_inline_content_start(body: Seq<char>, marker_end: int) -> Option<int> {
    let c = spec_skip_ascii_ws(body, marker_end);
    if c >= body.len() {
        None
    } else {
        let content = body.subrange(c, body.len() as int);
        if content[0] == '#' || spec_marker_property_only(content) {
            None
        } else {
            Some(c)
        }
    }
}

/// Where inline content after a `---` marker starts, unless there is none,
/// it is a comment, or it holds only node properties.
pub fn document_marker_inline_content_start(body: &[char], marker_end: usize) -> (r: Option<usize>)
    ensures
        match spec_marker_inline_content_start(body@, marker_end as int) {
            Some(c) => r == Some(c as usize) && marker_end <= c < body@.len(),
            None => r is None,
        },
{
    let _n = body.len();
    proof {
        crate::text::lemma_skip_ascii_ws(body@, marker_end as int);
    }
    let content_start = skip_ascii_ws(body, marker_end);
    if content_start >= body.len() {
        return None;
    }
    let content = sub_chars(body, content_start, body.len());
    if content[0] == '#' || document_marker_property_only(content.as_slice()) {
        None
    } else {
        Some(content_start)
    }
}

/// A document marker line: optional leading whitespace, `---` or `...`,
/// then the end of the line or ASCII whitespace; a `---` line may carry
/// inline content.
pub open spec fn spec_document_marker_line(text: Seq<char>) -> Option<DocumentMarkerLine> {
    let body = text.subrange(0, spec_strip_newline(text).0);
    let ms = spec_skip_ws(body, 0);
    let kind = if spec_has_at(body, ms, seq!['-', '-', '-']) {
        Some(DocumentMarkerKind::Start)
    } else if spec_has_at(body, ms, seq!['.', '.', '.']) {
        Some(DocumentMarkerKind::End)
    } else {
        None
    };
    match kind {
        None => None,
        Some(k) => {
            let me = ms + 3;
            if me == body.len() {
                Some(DocumentMarkerLine { kind: k, inline_content_start: None })
            } else if !spec_ascii_ws(body[me]) {
                None
            } else {
                Some(
                    DocumentMarkerLine {
                        kind: k,
                        inline_content_start: if k == DocumentMarkerKind::Start {
                            match spec_marker_inline_content_start(body, me) {
                                Some(c) => Some(c as usize),
                                None => None,
                            }
                        } else {
                            None
                        },
                    },
                )
            }
        },
    }
}

/// A document marker line: optional leading whitespace, `---` or `...`,
/// then the end of the line or ASCII whitespace.
pub fn document_marker_line_info(text: &[char]) -> (r: Option<DocumentMarkerLine>)
    ensures
        r == spec_document_marker_line(text@),
{
    let (body_len, _) = strip_newline(text);
    let body = sub_chars(text, 0, body_len);
    let marker_start = skip_ws(body.as_slice(), 0);
    let dashes = vec!['-', '-', '-'];
    let dots = vec!['.', '.', '.'];
    assert(dashes@ =~= seq!['-', '-', '-']);
    assert(dots@ =~= seq!['.', '.', '.']);
    let kind = if has_at(body.as_slice(), marker_start, dashes.as_slice()) {
        DocumentMarkerKind::Start
    } else if has_at(body.as_slice(), marker_start, dots.as_slice()) {
        DocumentMarkerKind::End
    } else {
        return None;
    };
    let marker_end = marker_start + 3;
    if marker_end == body.len() {
        return Some(DocumentMarkerLine { kind, inline_content_start: None });
    }
    if !is_ascii_ws(body[marker_end]) {
        return None;
    }
    let inline_content_start = if kind == DocumentMarkerKind::Start {
        document_marker_inline_content_start(body.as_slice(), marker_end)
    } else {
        None
    };
    Some(DocumentMarkerLine { kind, inline_content_start })
}

pub fn document_marker_kind(text: &[char]) -> (r: Option<DocumentMarkerKind>)
    ensures
        r == match spec_document_marker_line(text@) {
            Some(m) => Some(m.kind),
            None => None,
        },
{
    match document_marker_line_info(text) {
        Some(m) => Some(m.kind),
        None => None,
    }
}

pub fn document_marker(text: &[char]) -> (r: bool)
    ensures
        r == spec_document_marker_line(text@) is Some,
{
    document_marker_kind(text).is_some()
}

/// How a plain scalar may continue on following lines.
#[derive(Debug, Clone, Copy, PartialEq, Eq, Structural)]
pub enum PlainScalarContinuation {
    Unavailable,
    Inline { parent_indent: usize },
    Block { indent: usize },
}

/// A line continues a plain scalar: it is not a comment, document marker or
/// directive, and it is indented past the parent (inline), or at least to
/// the scalar and is no new entry at the same indentation (block).
pub open spec fn spec_plain_continuation(s: Seq<char>, continuation: PlainScalarContinuation) -> bool {
    let start = spec_skip_ws(s, 0);
    if (start < s.len() && s[start] == '#') || spec_document_marker_line(s) is Some || spec_standard_directive(s) {
        false
    } else {
        let indent = spec_indentation(s);
        match continuation {
            PlainScalarContinuation::Unavailable => false,
            PlainScalarContinuation::Inline { parent_indent } => indent > parent_indent,
            PlainScalarContinuation::Block { indent: scalar_indent } => indent >= scalar_indent && !(indent
                == scalar_indent && (spec_mapping_colon_at(s, scalar_indent as int) is Some || spec_sequence_line(
                s,
                scalar_indent as int,
            ) || spec_explicit_line(s, scalar_indent as int, '?') || spec_explicit_line(
                s,
                scalar_indent as int,
                ':',
            ))),
        }
    }
}

/// Whether `text` continues a plain scalar: it is not a comment, document
/// marker or directive, and it is indented past the parent (inline) or at
/// least to the scalar and not a new entry at the same indentation (block).
pub fn plain_scalar_continuation_line(text: &[char], continuation: PlainScalarContinuation) -> (r:
    bool)
    ensures
        r == spec_plain_continuation(text@, continuation),
{
    let start = skip_ws(text, 0);
    if (start < text.len() && text[start] == '#') || document_marker(text)
        || standard_yaml_directive(text) {
        return false;
    }
    let indent = indentation(text);
    match continuation {
        PlainScalarContinuation::Unavailable => false,
        PlainScalarContinuation::Inline { parent_indent } => indent > parent_indent,
        PlainScalarContinuation::Block { indent: scalar_indent } => {
            if indent < scalar_indent {
                return false;
            }
            if indent == scalar_indent && (mapping_colon_at(text, scalar_indent).is_some()
                || sequence_line(text, scalar_indent).is_some() || explicit_key_line(
                text,
                scalar_indent,
            ).is_some() || explicit_value_line(text, scalar_indent).is_some()) {
                return false;
            }
            true
        },
    }
}

/// The scan for the closing quote from `pos`, after a backslash or not.
pub open spec fn spec_quoted_close_from(s: Seq<char>, pos: int, quote: char, escaped: bool) -> Option<int>
    decreases s.len() - pos,
{
    if pos < 0 || pos >= s.len() {
        None
    } else {
        let c = s[pos];
        if quote == '"' {
            if escaped {
                spec_quoted_close_from(s, pos + 1, quote, false)
            } else if c == '\\' {
                spec_quoted_close_from(s, pos + 1, quote, true)
            } else if c == '"' {
                Some(pos)
            } else {
                spec_quoted_close_from(s, pos + 1, quote, false)
            }
        } else if c == '\'' {
            if pos + 1 < s.len() && s[pos + 1] == '\'' {
                spec_quoted_close_from(s, pos + 2, quote, false)
            } else if quote == '\'' {
                Some(pos)
            } else {
                spec_quoted_close_from(s, pos + 1, quote, false)
            }
        } else {
            spec_quoted_close_from(s, pos + 1, quote, false)
        }
    }
}

/// The position of the quote that closes the quoted scalar opened at
/// `start`.
pub open spec fn spec_quoted_scalar_close(s: Seq<char>, start: int, quote: char) -> Option<int> {
    if start < 0 || start >= s.len() {
        None
    } else {
        spec_quoted_close_from(s, start + 1, quote, false)
    }
}

proof fn lemma_quoted_close_bounds(s: Seq<char>, pos: int, quote: char, escaped: bool)
    requires
        0 <= pos,
    ensures
        spec_quoted_close_from(s, pos, quote, escaped) matches Some(p) ==> pos <= p < s.len() && s[p] == quote,
    decreases s.len() - pos,
{
    if pos < s.len() {
        lemma_quoted_close_bounds(s, pos + 1, quote, false);
        lemma_quoted_close_bounds(s, pos + 1, quote, true);
        if pos + 1 < s.len() {
            lemma_quoted_close_bounds(s, pos + 2, quote, false);
        }
    }
}

/// The end of a quoted scalar starting at `start` with `quote`: the
/// position of the closing quote, honouring `\` escapes in double quotes
/// and `''` in single quotes.
pub fn quoted_scalar_close(text: &[char], start: usize, quote: char) -> (r: Option<usize>)
    ensures
        match spec_quoted_scalar_close(text@, start as int, quote) {
            Some(p) => r == Some(p as usize),
            None => r is None,
        },
        r matches Some(p) ==> start < p < text@.len() && text@[p as int] == quote,
        spec_quoted_scalar_close(text@, start as int, quote) matches Some(p) ==> start < p
            < text@.len() && text@[p] == quote,
{
    let n = text.len();
    if start >= n {
        return None;
    }
    proof {
        lemma_quoted_close_bounds(text@, start + 1, quote, false);
    }
    let mut pos = start + 1;
    let mut escaped = false;
    while pos < n
        invariant
            n == text@.len(),
            start < pos,
            quote != '"' ==> !escaped,
            spec_quoted_close_from(text@, pos as int, quote, escaped) == spec_quoted_scalar_close(text@, start as int, quote),
        decreases n - pos,
    {
        let c = text[pos];
        if quote == '"' {
            if escaped {
                escaped = false;
            } else if c == '\\' {
                escaped = true;
            } else if c == '"' {
                return Some(pos);
            }
            pos = pos + 1;
        } else {
            if c == '\'' {
                if pos + 1 < n && text[pos + 1] == '\'' {
                    pos = pos + 2;
                } else {
                    if quote == '\'' {
                        return Some(pos);
                    }
                    pos = pos + 1;
                }
            } else {
                pos = pos + 1;
            }
        }
    }
    None
}

/// The header indicators from `i` on, after an indentation digit and a
/// chomping indicator may have been read.
pub open spec fn spec_header_from(t: Seq<char>, i: int, indent: Option<int>, chomp: YamlBlockChomp) -> Option<
    (Option<int>, YamlBlockChomp),
>
    decreases t.len() - i,
{
    if i < 0 || i >= t.len() {
        Some((indent, chomp))
    } else {
        let c = t[i];
        if c == '+' && chomp == YamlBlockChomp::Clip {
            spec_header_from(t, i + 1, indent, YamlBlockChomp::Keep)
        } else if c == '-' && chomp == YamlBlockChomp::Clip {
            spec_header_from(t, i + 1, indent, YamlBlockChomp::Strip)
        } else if '1' <= c && c <= '9' && indent is None {
            spec_header_from(t, i + 1, Some(c as int - '0' as int), chomp)
        } else {
            None
        }
    }
}

/// The indentation digit and chomping of a block scalar header's
/// indicators: at most one `+` or `-` and one digit 1-9, in any order,
/// surrounded by whitespace.
pub open spec fn spec_block_scalar_header(indicators: Seq<char>) -> Option<(Option<int>, YamlBlockChomp)> {
    spec_header_from(spec_trim(indicators), 0, None, YamlBlockChomp::Clip)
}

/// Parses the indicators after `|` or `>`: at most one of `+`/`-` and one
/// indentation digit 1-9, surrounded by whitespace.
pub fn block_scalar_header_info(indicators: &[char]) -> (r: Option<YamlBlockScalarHeader>)
    ensures
        match spec_block_scalar_header(indicators@) {
            Some((indent, chomp)) => r matches Some(h) && h.chomp == chomp && h.base_indent == 0 && match indent {
                Some(d) => h.indent matches Some(x) && x == d,
                None => h.indent is None,
            },
            None => r is None,
        },
{
    let t = trim(indicators);
    let mut indent: Option<u8> = None;
    let mut chomp = YamlBlockChomp::Clip;
    let mut i: usize = 0;
    while i < t.len()
        invariant
            i <= t@.len(),
            spec_header_from(t@, i as int, match indent {
                Some(d) => Some(d as int),
                None => None,
            }, chomp) == spec_block_scalar_header(indicators@),
        decreases t@.len() - i,
    {
        let c = t[i];
        if c == '+' && chomp == YamlBlockChomp::Clip {
            chomp = YamlBlockChomp::Keep;
        } else if c == '-' && chomp == YamlBlockChomp::Clip {
            chomp = YamlBlockChomp::Strip;
        } else if '1' <= c && c <= '9' && indent.is_none() {
            indent = Some(((c as u32) - 48) as u8);
        } else {
            return None;
        }
        i = i + 1;
    }
    Some(YamlBlockScalarHeader { indent, chomp, base_indent: 0 })
}

/// The first position in `[from, limit)` that is not ASCII whitespace, or
/// `limit` (or `from` when it is past `limit`).
pub open spec fn spec_skip_ascii_ws_until(s: Seq<char>, from: int, limit: int) -> int
    decreases limit - from,
{
    if from >= limit || from < 0 || from >= s.len() || !spec_ascii_ws(s[from]) {
        from
    } else {
        spec_skip_ascii_ws_until(s, from + 1, limit)
    }
}

/// Skips ASCII whitespace from `from` but not past `limit`.
pub fn skip_ascii_ws_until(text: &[char], from: usize, limit: usize) -> (r: usize)
    requires
        limit <= text@.len(),
    ensures
        r == spec_skip_ascii_ws_until(text@, from as int, limit as int),
        from <= limit ==> from <= r <= limit,
        from > limit ==> r == from,
{
    let mut v = from;
    while v < limit && is_ascii_ws(text[v])
        invariant
            from <= v,
            from <= limit ==> v <= limit,
            from > limit ==> v == from,
            limit <= text@.len(),
            spec_skip_ascii_ws_until(text@, v as int, limit as int) == spec_skip_ascii_ws_until(text@, from as int, limit as int),
        decreases limit - v,
    {
        v = v + 1;
    }
    v
}

/// A sequence entry line at `indent`: its marker.
pub open spec fn spec_sequence_line(s: Seq<char>, indent: int) -> bool {
    spec_indentation(s) == indent && spec_indicator_at(s, indent, '-')
}

/// An explicit key (`?`) or value (`:`) line at `indent`.
pub open spec fn spec_explicit_line(s: Seq<char>, indent: int, indicator: char) -> bool {
    spec_indentation(s) == indent && spec_indicator_at(s, indent, indicator)
}

/// Where the value of a block scalar header line starts: after the mapping
/// colon, the sequence marker or the explicit-key marker of the line, when
/// it stands before `marker_index`.
pub open spec fn spec_block_scalar_value_start(s: Seq<char>, marker_index: int) -> Option<int> {
    let indent = spec_indentation(s);
    let colon = spec_mapping_colon_at(s, indent);
    if colon is Some && colon->0 < marker_index {
        Some(spec_skip_ascii_ws_until(s, colon->0 + 1, marker_index))
    } else if spec_sequence_line(s, indent) && indent < marker_index {
        Some(spec_skip_ascii_ws_until(s, indent + 1, marker_index))
    } else if spec_explicit_line(s, indent, '?') && indent < marker_index {
        Some(spec_skip_ascii_ws_until(s, indent + 1, marker_index))
    } else {
        None
    }
}

/// Where the value of a block scalar header line starts: after the mapping
/// colon, sequence marker or explicit-key marker that precedes the `|`/`>`.
pub fn block_scalar_value_start(text: &[char], marker_index: usize) -> (r: Option<usize>)
    requires
        marker_index <= text@.len(),
    ensures
        match spec_block_scalar_value_start(text@, marker_index as int) {
            Some(v) => r == Some(v as usize),
            None => r is None,
        },
        r matches Some(v) ==> v <= marker_index,
        spec_block_scalar_value_start(text@, marker_index as int) matches Some(v) ==> 0 <= v
            <= marker_index,
{
    let _n = text.len();
    let indent = indentation(text);
    if let Some(colon) = mapping_colon_at(text, indent) {
        if colon < marker_index {
            let v = skip_ascii_ws_until(text, colon + 1, marker_index);
            return Some(v);
        }
    }
    if let Some(marker) = sequence_line(text, indent) {
        if marker < marker_index {
            return Some(skip_ascii_ws_until(text, marker + 1, marker_index));
        }
    }
    if let Some(marker) = explicit_key_line(text, indent) {
        if marker < marker_index {
            return Some(skip_ascii_ws_until(text, marker + 1, marker_index));
        }
    }
    None
}

/// What stands between a value start and a block scalar indicator: nothing,
/// or node properties only.
pub fn block_scalar_metadata_prefix(prefix: &[char]) -> (r: bool)
    ensures
        r == (spec_trim(prefix@).len() == 0 || spec_all_tokens_are_properties(spec_trim(prefix@))),
{
    let t = trim(prefix);
    t.len() == 0 || all_tokens_are_properties(t.as_slice())
}

/// The end of the token of non-ASCII-whitespace characters that starts at `at`.
pub open spec fn spec_token_end(s: Seq<char>, at: int) -> int
    decreases s.len() - at,
{
    if at < 0 || at >= s.len() || spec_ascii_ws(s[at]) {
        at
    } else {
        spec_token_end(s, at + 1)
    }
}

pub proof fn lemma_token_end(s: Seq<char>, at: int)
    requires
        0 <= at,
    ensures
        at <= spec_token_end(s, at),
        at <= s.len() ==> spec_token_end(s, at) <= s.len(),
        at < s.len() && !spec_ascii_ws(s[at]) ==> at < spec_token_end(s, at),
    decreases s.len() - at,
{
    if at < s.len() && !spec_ascii_ws(s[at]) {
        lemma_token_end(s, at + 1);
    }
}

/// Where the content starts after the node property tokens (`!tag`,
/// `&anchor`) and whitespace that follow `cursor`.
pub open spec fn spec_node_properties_content_start(s: Seq<char>, cursor: int) -> int
    decreases s.len() - cursor,
{
    if cursor < 0 || cursor >= s.len() {
        cursor
    } else {
        let t = spec_skip_ascii_ws(s, cursor);
        if t < s.len() && (s[t] == '!' || s[t] == '&') {
            proof {
                lemma_skip_ascii_ws(s, cursor);
                lemma_token_end(s, t);
            }
            spec_node_properties_content_start(s, spec_token_end(s, t))
        } else {
            t
        }
    }
}

pub proof fn lemma_node_properties_content_start(s: Seq<char>, cursor: int)
    requires
        0 <= cursor <= s.len(),
    ensures
        cursor <= spec_node_properties_content_start(s, cursor) <= s.len(),
    decreases s.len() - cursor,
{
    if cursor < s.len() {
        let t = spec_skip_ascii_ws(s, cursor);
        lemma_skip_ascii_ws(s, cursor);
        if t < s.len() && (s[t] == '!' || s[t] == '&') {
            lemma_token_end(s, t);
            lemma_node_properties_content_start(s, spec_token_end(s, t));
        }
    }
}

/// Skips node property tokens (`!tag`, `&anchor`) and whitespace from
/// `cursor`; returns where the content starts.
pub fn node_properties_content_start(text: &[char], cursor: usize) -> (r: usize)
    ensures
        r == spec_node_properties_content_start(text@, cursor as int),
{
    let n = text.len();
    let mut c = cursor;
    while c < n
        invariant
            n == text@.len(),
            cursor <= c,
            spec_node_properties_content_start(text@, c as int)
                == spec_node_properties_content_start(text@, cursor as int),
        decreases n - c,
    {
        proof {
            lemma_skip_ascii_ws(text@, c as int);
        }
        let ghost c0 = c as int;
        c = skip_ascii_ws(text, c);
        let token_start = c;
        while c < n && !is_ascii_ws(text[c])
            invariant
                token_start <= c <= n,
                n == text@.len(),
                spec_token_end(text@, c as int) == spec_token_end(text@, token_start as int),
            decreases n - c,
        {
            c = c + 1;
        }
        if token_start < n && (text[token_start] == '!' || text[token_start] == '&') {
            proof {
                lemma_token_end(text@, token_start as int);
                assert(spec_node_properties_content_start(text@, c0)
                    == spec_node_properties_content_start(text@, c as int));
            }
            continue;
        }
        return token_start;
    }
    c
}

/// The value start of a line: after its sequence marker or mapping colon
/// and the ASCII whitespace after them, else its indentation.
pub open spec fn spec_line_value_start(s: Seq<char>) -> int {
    let indent = spec_indentation(s);
    if spec_sequence_line(s, indent) {
        spec_skip_ascii_ws(s, indent + 1)
    } else {
        match spec_mapping_colon_at(s, indent) {
            Some(c) => spec_skip_ascii_ws(s, c + 1),
            None => indent,
        }
    }
}

/// The value start of a line whose value (after node properties) opens a
/// flow collection.
pub open spec fn spec_line_flow_value_start(s: Seq<char>) -> Option<int> {
    let v = spec_line_value_start(s);
    let start = if v <= s.len() {
        v
    } else {
        s.len() as int
    };
    let cs = spec_node_properties_content_start(s, start);
    if cs < s.len() && (s[cs] == '[' || s[cs] == '{') {
        Some(start)
    } else {
        None
    }
}

/// The value start of a line that holds a flow collection value (after any
/// sequence marker or mapping colon and node properties).
pub fn line_flow_value_start(text: &[char]) -> (r: Option<usize>)
    ensures
        match spec_line_flow_value_start(text@) {
            Some(v) => r == Some(v as usize),
            None => r is None,
        },
        r matches Some(v) ==> v <= text@.len(),
        spec_line_flow_value_start(text@) matches Some(v) ==> 0 <= v <= text@.len(),
{
    let _n = text.len();
    let indent = indentation(text);
    let value_start = if let Some(marker) = sequence_line(text, indent) {
        skip_ascii_ws(text, marker + 1)
    } else if let Some(colon) = mapping_colon_at(text, indent) {
        skip_ascii_ws(text, colon + 1)
    } else {
        indent
    };
    proof {
        crate::text::lemma_skip_ascii_ws(text@, (indent + 1) as int);
    }
    let start = if value_start <= text.len() {
        value_start
    } else {
        text.len()
    };
    let collection_start = node_properties_content_start(text, start);
    if collection_start < text.len() && (text[collection_start] == '[' || text[collection_start]
        == '{') {
        Some(start)
    } else {
        None
    }
}

/// After a closing flow bracket, from `cursor` on: only whitespace up to
/// the end (`Some(None)`) or up to a comment (`Some(Some(start))`), or
/// other content (`None`).
pub open spec fn spec_after_flow_close(s: Seq<char>, value_end: int, cursor: int) -> Option<Option<int>>
    decreases s.len() - cursor,
{
    if cursor < 0 || cursor >= s.len() {
        Some(None)
    } else if s[cursor] == '#' && spec_comment_can_start(s, value_end, cursor) {
        Some(Some(cursor))
    } else if !spec_ws(s[cursor]) {
        None
    } else {
        spec_after_flow_close(s, value_end, cursor + 1)
    }
}

/// After a closing flow bracket at `value_end`, only whitespace and an
/// optional comment may follow; returns the comment span, or `None` when
/// other content follows.
pub fn trailing_comment_after_flow_close(text: &[char], value_end: usize, line_start: usize) -> (r:
    Option<Option<crate::source::Span>>)
    requires
        line_start + text@.len() <= usize::MAX,
    ensures
        match spec_after_flow_close(text@, value_end as int, value_end as int) {
            Some(Some(c)) => r matches Some(Some(sp)) && sp.start == line_start + c && sp.end == line_start
                + text@.len(),
            Some(None) => r matches Some(None),
            None => r is None,
        },
        r matches Some(Some(s)) ==> line_start <= s.start <= s.end == line_start + text@.len(),
{
    let n = text.len();
    let mut cursor = value_end;
    while cursor < n
        invariant
            n == text@.len(),
            value_end <= cursor,
            line_start + n <= usize::MAX,
            spec_after_flow_close(text@, value_end as int, cursor as int) == spec_after_flow_close(
                text@,
                value_end as int,
                value_end as int,
            ),
        decreases n - cursor,
    {
        let c = text[cursor];
        if c == '#' && comment_can_start(text, value_end, cursor) {
            return Some(Some(crate::source::Span::new(line_start + cursor, line_start + n)));
        }
        if !is_ws(c) {
            return None;
        }
        cursor = cursor + 1;
    }
    Some(None)
}

/// The scan for a line break inside quotes from `i`, in single or double
/// quotes, after a backslash or not.
pub open spec fn spec_multiline_quote_from(s: Seq<char>, i: int, single: bool, double: bool, escaped: bool) -> bool
    decreases s.len() - i,
{
    if i < 0 || i >= s.len() {
        false
    } else {
        let c = s[i];
        if double {
            if escaped {
                spec_multiline_quote_from(s, i + 1, single, double, false)
            } else if c == '\\' {
                spec_multiline_quote_from(s, i + 1, single, double, true)
            } else if c == '"' {
                spec_multiline_quote_from(s, i + 1, single, false, false)
            } else if c == '\n' || c == '\r' {
                true
            } else {
                spec_multiline_quote_from(s, i + 1, single, double, false)
            }
        } else if single {
            if c == '\'' {
                if i + 1 < s.len() && s[i + 1] == '\'' {
                    spec_multiline_quote_from(s, i + 2, single, double, escaped)
                } else {
                    spec_multiline_quote_from(s, i + 1, false, double, escaped)
                }
            } else if c == '\n' || c == '\r' {
                true
            } else {
                spec_multiline_quote_from(s, i + 1, single, double, escaped)
            }
        } else if c == '\'' {
            spec_multiline_quote_from(s, i + 1, true, double, escaped)
        } else if c == '"' {
            spec_multiline_quote_from(s, i + 1, single, true, escaped)
        } else {
            spec_multiline_quote_from(s, i + 1, single, double, escaped)
        }
    }
}

/// Whether a quoted scalar inside a flow collection spans a line break.
pub fn flow_collection_contains_multiline_quote(text: &[char]) -> (r: bool)
    ensures
        r == spec_multiline_quote_from(text@, 0, false, false, false),
{
    let n = text.len();
    let mut in_single = false;
    let mut in_double = false;
    let mut escaped = false;
    let mut i: usize = 0;
    while i < n
        invariant
            n == text@.len(),
            spec_multiline_quote_from(text@, i as int, in_single, in_double, escaped) == spec_multiline_quote_from(
                text@,
                0,
                false,
                false,
                false,
            ),
        decreases n - i,
    {
        let c = text[i];
        if in_double {
            if escaped {
                escaped = false;
            } else if c == '\\' {
                escaped = true;
            } else if c == '"' {
                in_double = false;
            } else if c == '\n' || c == '\r' {
                return true;
            }
            i = i + 1;
        } else if in_single {
            if c == '\'' {
                if i + 1 < n && text[i + 1] == '\'' {
                    i = i + 2;
                } else {
                    in_single = false;
                    i = i + 1;
                }
            } else if c == '\n' || c == '\r' {
                return true;
            } else {
                i = i + 1;
            }
        } else {
            if c == '\'' {
                in_single = true;
            } else if c == '"' {
                in_double = true;
            }
            i = i + 1;
        }
    }
    false
}

/// Whether a line belongs to the body of a block scalar indented at
/// `block_scalar_indent`: blank, tab-started or indented further.
pub fn yaml_line_is_block_scalar_body(text: &[char], indent: usize, block_scalar_indent: usize) -> (r:
    bool)
    ensures
        r == ({
            let rest = text@.subrange(spec_bom(text@), text@.len() as int);
            spec_trim(rest).len() == 0 || (rest.len() > 0 && rest[0] == '\t') || indent > block_scalar_indent
        }),
{
    let start: usize = if text.len() > 0 && text[0] == '\u{feff}' {
        1
    } else {
        0
    };
    let rest = sub_chars(text, start, text.len());
    let t = trim(rest.as_slice());
    t.len() == 0 || (rest.len() > 0 && rest[0] == '\t') || indent > block_scalar_indent
}

/// The trailing comment of a line (after a byte order mark) is a `fmt:`
/// directive.
pub open spec fn spec_fmt_directive_comment(s: Seq<char>) -> bool {
    match spec_find_unquoted(s, spec_bom(s), scan_start(), '#', spec_bom(s)) {
        None => false,
        Some(c) => spec_has_at(s, spec_skip_ws(s, c + 1), seq!['f', 'm', 't', ':']),
    }
}

/// Whether a line has a trailing comment that is a `fmt:` directive.
pub fn yaml_line_has_fmt_directive_comment(text: &[char]) -> (r: bool)
    ensures
        r == spec_fmt_directive_comment(text@),
{
    let _n = text.len();
    let value_start: usize = if text.len() > 0 && text[0] == '\u{feff}' {
        1
    } else {
        0
    };
    proof {
        lemma_find_unquoted(text@, value_start as int, scan_start(), '#', value_start as int);
    }
    match find_trailing_comment(text, value_start) {
        None => false,
        Some(c) => {
            let after = skip_ws(text, c + 1);
            let fmt = vec!['f', 'm', 't', ':'];
            has_at(text, after, fmt.as_slice())
        },
    }
}

/// The first `[` or `{` from `i` on.
pub open spec fn spec_first_flow_opener_from(s: Seq<char>, i: int) -> Option<int>
    decreases s.len() - i,
{
    if i < 0 || i >= s.len() {
        None
    } else if s[i] == '[' || s[i] == '{' {
        Some(i)
    } else {
        spec_first_flow_opener_from(s, i + 1)
    }
}

/// The first `[` or `{` of a line.
pub fn first_flow_opener(text: &[char]) -> (r: Option<usize>)
    ensures
        match spec_first_flow_opener_from(text@, 0) {
            Some(i) => r == Some(i as usize) && 0 <= i < text@.len(),
            None => r is None,
        },
        match r {
            Some(i) => i < text@.len() && (text@[i as int] == '[' || text@[i as int] == '{') && forall|k: int|
                0 <= k < i ==> text@[k] != '[' && text@[k] != '{',
            None => forall|k: int| 0 <= k < text@.len() ==> text@[k] != '[' && text@[k] != '{',
        },
{
    let mut i: usize = 0;
    while i < text.len()
        invariant
            i <= text@.len(),
            forall|k: int| 0 <= k < i ==> text@[k] != '[' && text@[k] != '{',
            spec_first_flow_opener_from(text@, i as int) == spec_first_flow_opener_from(text@, 0),
        decreases text@.len() - i,
    {
        if text[i] == '[' || text[i] == '{' {
            return Some(i);
        }
        i = i + 1;
    }
    None
}

/// The closing bracket of a flow collection opener.
pub open spec fn spec_flow_closer(open: char) -> char {
    if open == '[' {
        ']'
    } else {
        '}'
    }
}

/// The flow collection opened at `start` closes at the end of the line's
/// value: the last character before the trailing comment (and whitespace)
/// is the matching bracket.
pub open spec fn spec_flow_closes_at_line_end(s: Seq<char>, start: int) -> bool {
    if start < 0 || start >= s.len() || !(s[start] == '[' || s[start] == '{') {
        false
    } else {
        let comment = match spec_find_unquoted(s, start, scan_start(), '#', start) {
            Some(c) => c,
            None => s.len() as int,
        };
        let value_end = spec_trim_ws_end(s, start, comment);
        value_end > start && s[value_end - 1] == spec_flow_closer(s[start])
    }
}

/// Whether the flow collection opened at `collection_start` closes at the
/// end of the line's value (before any trailing comment).
pub fn flow_collection_closes_at_line_end(text: &[char], collection_start: usize) -> (r: bool)
    ensures
        r == spec_flow_closes_at_line_end(text@, collection_start as int),
        r ==> collection_start < text@.len() && (text@[collection_start as int] == '['
            || text@[collection_start as int] == '{'),
{
    let n = text.len();
    if collection_start >= n {
        return false;
    }
    let open = text[collection_start];
    let close = if open == '[' {
        ']'
    } else if open == '{' {
        '}'
    } else {
        return false;
    };
    proof {
        lemma_find_unquoted(text@, collection_start as int, scan_start(), '#', collection_start as int);
    }
    let comment_start = match find_trailing_comment(text, collection_start) {
        Some(c) => c,
        None => n,
    };
    let value_end = trim_end_before(text, collection_start, comment_start);
    value_end > collection_start && text[value_end - 1] == close
}

/// Whether `s` contains `pattern`.
pub fn contains_seq(s: &[char], pattern: &[char]) -> (r: bool)
    ensures
        r == exists|i: int| 0 <= i && i + pattern@.len() <= s@.len() && spec_has_at(s@, i, pattern@),
{
    let n = s.len();
    if pattern.len() > n {
        return false;
    }
    let last = n - pattern.len();
    let mut i: usize = 0;
    loop
        invariant
            n == s@.len(),
            last + pattern@.len() == n,
            i <= last,
            forall|k: int| 0 <= k < i ==> !spec_has_at(s@, k, pattern@),
        decreases last - i,
    {
        if has_at(s, i, pattern) {
            return true;
        }
        if i == last {
            return false;
        }
        i = i + 1;
    }
}

/// `s` contains `pattern`.
pub open spec fn spec_contains_seq(s: Seq<char>, pattern: Seq<char>) -> bool {
    exists|i: int| 0 <= i && i + pattern.len() <= s.len() && spec_has_at(s, i, pattern)
}

/// The line's first flow collection closes at its end and no `&:` or `*:`
/// precedes it.
pub open spec fn spec_single_line_flow_value(s: Seq<char>) -> bool {
    match spec_first_flow_opener_from(s, 0) {
        None => false,
        Some(start) => !(spec_contains_seq(s.subrange(0, start), seq!['&', ':']) || spec_contains_seq(
            s.subrange(0, start),
            seq!['*', ':'],
        )) && spec_flow_closes_at_line_end(s, start),
    }
}

/// A single-line flow value needs no preservation check when the line's
/// first flow collection closes at its end and no `&:` or `*:` precedes it.
pub fn single_line_flow_value_needs_no_preserve_check(text: &[char]) -> (r: bool)
    ensures
        r == spec_single_line_flow_value(text@),
{
    let _n = text.len();
    match first_flow_opener(text) {
        None => false,
        Some(start) => {
            let before = sub_chars(text, 0, start);
            let amp = vec!['&', ':'];
            let star = vec!['*', ':'];
            assert(amp@ =~= seq!['&', ':']);
            assert(star@ =~= seq!['*', ':']);
            let a = contains_seq(before.as_slice(), amp.as_slice());
            let b = contains_seq(before.as_slice(), star.as_slice());
            let c = flow_collection_closes_at_line_end(text, start);
            !(a || b) && c
        },
    }
}

/// The end of the run of non-whitespace characters that starts at `at`.
pub open spec fn spec_ws_token_end(s: Seq<char>, at: int) -> int
    decreases s.len() - at,
{
    if at < 0 || at >= s.len() || spec_ws(s[at]) {
        at
    } else {
        spec_ws_token_end(s, at + 1)
    }
}

fn ws_token_end(s: &[char], at: usize) -> (r: usize)
    ensures
        r == spec_ws_token_end(s@, at as int),
        at <= r,
        at <= s@.len() ==> r <= s@.len(),
{
    let mut end = at;
    while end < s.len() && !is_ws(s[end])
        invariant
            at <= end,
            at <= s@.len() ==> end <= s@.len(),
            spec_ws_token_end(s@, end as int) == spec_ws_token_end(s@, at as int),
        decreases s@.len() - end,
    {
        end = end + 1;
    }
    end
}

/// The text holds exactly one whitespace-separated token, an anchor or a
/// tag.
pub open spec fn spec_property_only_line(t: Seq<char>) -> bool {
    let start = spec_skip_ws(t, 0);
    start < t.len() && (t[start] == '&' || t[start] == '!') && spec_skip_ws(t, spec_ws_token_end(t, start))
        >= t.len()
}

/// A line that holds a single node property token (an anchor or tag with
/// nothing after it).
pub fn property_only_line_requires_preservation(trimmed: &[char]) -> (r: bool)
    ensures
        r == spec_property_only_line(trimmed@),
{
    let start = skip_ws(trimmed, 0);
    if start >= trimmed.len() {
        return false;
    }
    let first = trimmed[start];
    if !(first == '&' || first == '!') {
        return false;
    }
    let end = ws_token_end(trimmed, start);
    let next = skip_ws(trimmed, end);
    next >= trimmed.len()
}

/// The value after the mapping colon of a line at `indent` is an anchor or
/// alias token with a `:` in it.
pub open spec fn spec_unsupported_property_token(s: Seq<char>, indent: int) -> bool {
    match spec_mapping_colon_at(s, indent) {
        None => false,
        Some(c) => {
            let vs = spec_skip_ascii_ws(s, c + 1);
            let te = spec_ws_token_end(s, vs);
            te > vs && (s[vs] == '&' || s[vs] == '*') && s.subrange(vs + 1, te).contains(':')
        },
    }
}

/// The value after a mapping colon starts with an anchor or alias token
/// that contains a `:`.
pub fn mapping_value_has_unsupported_property_token(text: &[char], indent: usize) -> (r: bool)
    ensures
        r == spec_unsupported_property_token(text@, indent as int),
        r ==> spec_indentation(text@) == indent,
{
    let _n = text.len();
    let colon = match mapping_colon_at(text, indent) {
        Some(c) => c,
        None => {
            return false;
        },
    };
    let value_start = skip_ascii_ws(text, colon + 1);
    proof {
        crate::text::lemma_skip_ascii_ws(text@, (colon + 1) as int);
    }
    let token_end = ws_token_end(text, value_start);
    if token_end <= value_start {
        return false;
    }
    let first = text[value_start];
    if !(first == '&' || first == '*') {
        return false;
    }
    let rest = sub_chars(text, value_start + 1, token_end);
    contains_char(rest.as_slice(), ':')
}

/// A line at `indent` that is no sequence entry, explicit key or value, or
/// mapping pair, yet holds `: ` after its indentation.
pub open spec fn spec_unsupported_plain_mapping_key(s: Seq<char>, indent: int) -> bool {
    !spec_sequence_line(s, indent) && !spec_explicit_line(s, indent, '?') && !spec_explicit_line(s, indent, ':')
        && spec_mapping_colon_at(s, indent) is None && spec_contains_seq(s.subrange(indent, s.len() as int), seq![':', ' '])
}

/// A line at `indent` that is not a sequence entry, explicit key or value,
/// or mapping pair, yet contains `: `.
pub fn unsupported_plain_mapping_key_line(text: &[char], indent: usize) -> (r: bool)
    requires
        indent <= text@.len(),
    ensures
        r == spec_unsupported_plain_mapping_key(text@, indent as int),
{
    if sequence_line(text, indent).is_some() || explicit_key_line(text, indent).is_some()
        || explicit_value_line(text, indent).is_some() || mapping_colon_at(text, indent).is_some() {
        return false;
    }
    let rest = sub_chars(text, indent, text.len());
    let pat = vec![':', ' '];
    contains_seq(rest.as_slice(), pat.as_slice())
}

/// A sequence entry at `indent` whose inline value is an explicit key not
/// followed by a flow collection, a property-led value holding ` : `, or a
/// value holding `: ` that is no mapping pair.
pub open spec fn spec_unsupported_sequence_entry(s: Seq<char>, indent: int) -> bool {
    if !spec_sequence_line(s, indent) {
        false
    } else {
        let vs = spec_skip_ascii_ws(s, indent + 1);
        if vs >= s.len() {
            false
        } else {
            let value = s.subrange(vs, s.len() as int);
            let first = value[0];
            if first == '[' || first == '{' {
                false
            } else if first == '?' {
                let rest = value.subrange(1, value.len() as int);
                let k = spec_skip_ws(rest, 0);
                !(k < rest.len() && (rest[k] == '[' || rest[k] == '{'))
            } else if (first == '&' || first == '!') && spec_contains_seq(value, seq![' ', ':', ' ']) {
                true
            } else {
                spec_mapping_colon_from(s, vs) is None && spec_contains_seq(value, seq![':', ' '])
            }
        }
    }
}

/// A sequence entry whose inline value looks like an unsupported compact
/// mapping.
pub fn unsupported_sequence_entry_line(text: &[char], indent: usize) -> (r: bool)
    ensures
        r == spec_unsupported_sequence_entry(text@, indent as int),
        r ==> spec_indentation(text@) == indent && spec_indicator_at(text@, indent as int, '-'),
{
    let marker = match sequence_line(text, indent) {
        Some(m) => m,
        None => {
            return false;
        },
    };
    let n = text.len();
    let value_start = skip_ascii_ws(text, marker + 1);
    if value_start >= n {
        return false;
    }
    let value = sub_chars(text, value_start, text.len());
    let first = value[0];
    if first == '[' || first == '{' {
        return false;
    }
    if first == '?' {
        let rest = sub_chars(value.as_slice(), 1, value.len());
        let s = skip_ws(rest.as_slice(), 0);
        return !(s < rest.len() && (rest[s] == '[' || rest[s] == '{'));
    }
    let spaced_colon = vec![' ', ':', ' '];
    assert(spaced_colon@ =~= seq![' ', ':', ' ']);
    if (first == '&' || first == '!') && contains_seq(value.as_slice(), spaced_colon.as_slice()) {
        return true;
    }
    let colon_space = vec![':', ' '];
    assert(colon_space@ =~= seq![':', ' ']);
    mapping_colon_from(text, value_start).is_none() && contains_seq(
        value.as_slice(),
        colon_space.as_slice(),
    )
}

/// Where the value content of a line starts: after its sequence marker,
/// mapping colon or explicit value marker and the ASCII whitespace after
/// it, else at its indentation.
pub open spec fn spec_value_content_start(s: Seq<char>) -> int {
    let indent = spec_indentation(s);
    if spec_sequence_line(s, indent) {
        spec_skip_ascii_ws(s, indent + 1)
    } else {
        match spec_mapping_colon_at(s, indent) {
            Some(c) => spec_skip_ascii_ws(s, c + 1),
            None => if spec_explicit_line(s, indent, ':') {
                spec_skip_ascii_ws(s, indent + 1)
            } else {
                indent
            },
        }
    }
}

/// Where the value content of a line starts.
pub fn yaml_line_value_content_start(text: &[char]) -> (r: Option<usize>)
    ensures
        r == Some(spec_value_content_start(text@) as usize),
        0 <= spec_value_content_start(text@) <= text@.len(),
{
    let _n = text.len();
    let indent = indentation(text);
    proof {
        crate::text::lemma_skip_ascii_ws(text@, (indent + 1) as int);
        lemma_mapping_colon_bounds(text@, indent as int);
        if let Some(c) = spec_mapping_colon_at(text@, indent as int) {
            crate::text::lemma_skip_ascii_ws(text@, c + 1);
        }
    }
    if let Some(marker) = sequence_line(text, indent) {
        Some(skip_ascii_ws(text, marker + 1))
    } else if let Some(colon) = mapping_colon_at(text, indent) {
        Some(skip_ascii_ws(text, colon + 1))
    } else if let Some(colon) = explicit_value_line(text, indent) {
        Some(skip_ascii_ws(text, colon + 1))
    } else {
        Some(indent)
    }
}

/// The value of a line (after node properties, before the trailing
/// comment) opens a quoted scalar that does not close before the comment.
pub open spec fn spec_unclosed_quoted_scalar(s: Seq<char>) -> bool {
    let end = match spec_find_unquoted(s, 0, scan_start(), '#', 0) {
        Some(c) => c,
        None => s.len() as int,
    };
    let start = spec_value_content_start(s);
    if start >= end {
        false
    } else {
        let head = s.subrange(0, end);
        let st = spec_node_properties_content_start(head, spec_skip_ascii_ws(s, start));
        st < end && (head[st] == '\'' || head[st] == '"') && spec_quoted_scalar_close(head, st, head[st]) is None
    }
}

/// A line whose value opens a quoted scalar that does not close before its
/// trailing comment.
pub fn line_starts_unclosed_quoted_scalar(text: &[char]) -> (r: bool)
    ensures
        r == spec_unclosed_quoted_scalar(text@),
{
    let _n = text.len();
    proof {
        lemma_find_unquoted(text@, 0, scan_start(), '#', 0);
    }
    let end = match find_trailing_comment(text, 0) {
        Some(c) => c,
        None => text.len(),
    };
    let start = match yaml_line_value_content_start(text) {
        Some(s) => s,
        None => {
            return false;
        },
    };
    if start >= end {
        return false;
    }
    let start = skip_ascii_ws(text, start);
    let head = sub_chars(text, 0, end);
    let start = node_properties_content_start(head.as_slice(), start);
    if start >= end {
        return false;
    }
    let quote = head[start];
    if !(quote == '\'' || quote == '"') {
        return false;
    }
    quoted_scalar_close(head.as_slice(), start, quote).is_none()
}

/// Inline content after `---` that starts with a block scalar indicator.
pub open spec fn spec_marker_content_is_block_scalar(s: Seq<char>, marker: DocumentMarkerLine) -> bool {
    match marker.inline_content_start {
        None => false,
        Some(c) => c <= s.len() && ({
            let rest = s.subrange(c as int, s.len() as int);
            let k = spec_skip_ws(rest, 0);
            k < rest.len() && (rest[k] == '|' || rest[k] == '>')
        }),
    }
}

/// Inline content after `---` that starts a block scalar.
pub fn document_marker_inline_content_requires_preservation(text: &[char], marker: DocumentMarkerLine) -> (r:
    bool)
    ensures
        r == spec_marker_content_is_block_scalar(text@, marker),
{
    let content_start = match marker.inline_content_start {
        Some(c) => c,
        None => {
            return false;
        },
    };
    if content_start > text.len() {
        return false;
    }
    let rest = sub_chars(text, content_start, text.len());
    let s = skip_ws(rest.as_slice(), 0);
    s < rest.len() && (rest[s] == '|' || rest[s] == '>')
}

/// A nested document index as a `u32`.
pub fn compact_nested_document_index(index: usize) -> (r: u32)
    requires
        index <= u32::MAX,
    ensures
        r == index,
{
    index as u32
}

} // verus!
