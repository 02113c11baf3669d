//! A per-line lexical scan of YAML source: indentation, line kind, the
//! indicators, node properties and the scalar token of each line.
use vstd::prelude::*;
use crate::source::{spec_clamped_slice, LineEnding, SourceBuffer, SourceLine, Span};
use crate::text::{
    has_at, is_ascii_ws, lemma_skip_ascii_ws, skip_ascii_ws, skip_ws, spec_ascii_ws, spec_has_at,
    spec_skip_ascii_ws, spec_skip_ws, spec_trim, starts_with, sub_chars, trim,
};

verus! {

#[derive(Debug, Clone)]
pub struct YamlLineScan {
    pub range: Span,
    pub start_line: usize,
    pub end_line: usize,
    pub source_scans: usize,
    pub scanned_lines: usize,
    pub tab_indentation: Option<YamlTabIndentation>,
    pub lines: Vec<YamlScannedLine>,
}

#[derive(Debug, Clone, Copy, PartialEq, Eq, Structural)]
pub struct YamlTabIndentation {
    pub line_index: usize,
    pub column: usize,
}

#[derive(Debug, Clone)]
pub struct YamlScannedLine {
    pub index: usize,
    pub full: Span,
    pub content: Span,
    pub ending: LineEnding,
    pub indent: usize,
    pub kind: YamlLineKind,
    pub indicators: Vec<YamlIndicator>,
    pub properties: Vec<YamlPropertyToken>,
    pub scalar: Option<YamlScalarToken>,
}

#[derive(Debug, Clone, Copy, PartialEq, Eq, Structural)]
pub enum YamlLineKind {
    Blank,
    Comment,
    Directive,
    DocumentMarker,
    Other,
}

#[derive(Debug, Clone, Copy, PartialEq, Eq, Structural)]
pub struct YamlIndicator {
    pub kind: YamlIndicatorKind,
    pub span: Span,
}

#[derive(Debug, Clone, Copy, PartialEq, Eq, Structural)]
pub enum YamlIndicatorKind {
    SequenceEntry,
    MappingValue,
    FlowSequenceStart,
    FlowSequenceEnd,
    FlowMappingStart,
    FlowMappingEnd,
    FlowEntrySeparator,
    ExplicitKey,
    BlockScalarHeader,
}

#[derive(Debug, Clone, Copy, PartialEq, Eq, Structural)]
pub struct YamlPropertyToken {
    pub kind: YamlPropertyTokenKind,
    pub span: Span,
}

#[derive(Debug, Clone, Copy, PartialEq, Eq, Structural)]
pub enum YamlPropertyTokenKind {
    Tag,
    Anchor,
    Alias,
}

#[derive(Debug, Clone, Copy, PartialEq, Eq, Structural)]
pub struct YamlScalarToken {
    pub kind: YamlScalarTokenKind,
    pub span: Span,
}

#[derive(Debug, Clone, Copy, PartialEq, Eq, Structural)]
pub enum YamlScalarTokenKind {
    Plain,
    SingleQuoted,
    DoubleQuoted,
    BlockScalarHeader,
}

/// Whether a scan position lies outside quotes or inside a single- or
/// double-quoted run.
#[derive(Debug, Clone, Copy, PartialEq, Eq, Structural)]
pub enum QuoteState {
    Outside,
    Single,
    Double,
}

/// The number of consecutive spaces starting at `from`.
pub open spec fn spec_spaces_from(s: Seq<char>, from: int) -> int
    decreases s.len() - from,
{
    if from < 0 || from >= s.len() || s[from] != ' ' {
        0
    } else {
        1 + spec_spaces_from(s, from + 1)
    }
}

pub open spec fn spec_bom_len(s: Seq<char>) -> int {
    if s.len() > 0 && s[0] == '\u{feff}' {
        1
    } else {
        0
    }
}

/// Indentation: the spaces after an optional byte order mark.
pub open spec fn spec_indentation(s: Seq<char>) -> int {
    spec_spaces_from(s, spec_bom_len(s))
}

pub fn spaces_from(s: &[char], from: usize) -> (r: usize)
    ensures
        r == spec_spaces_from(s@, from as int),
        from + r <= s@.len() || r == 0,
{
    let mut i = from;
    while i < s.len() && s[i] == ' '
        invariant
            from <= i,
            i <= s@.len() || i == from,
            spec_spaces_from(s@, from as int) == (i - from) + spec_spaces_from(s@, i as int),
        decreases s@.len() - i,
    {
        i = i + 1;
    }
    i - from
}

/// The indentation of a line, not counting a leading byte order mark.
pub fn indentation(text: &[char]) -> (r: usize)
    ensures
        r == spec_indentation(text@),
        r <= text@.len(),
{
    let bom: usize = if text.len() > 0 && text[0] == '\u{feff}' {
        1
    } else {
        0
    };
    spaces_from(text, bom)
}

/// The column of a tab found among the leading blanks of a line.
pub open spec fn spec_tab_in_indentation(s: Seq<char>, from: int) -> Option<usize>
    decreases s.len() - from,
{
    if from < 0 || from >= s.len() {
        None
    } else if s[from] == ' ' {
        spec_tab_in_indentation(s, from + 1)
    } else if s[from] == '\t' {
        Some(from as usize)
    } else {
        None
    }
}

pub fn tab_in_indentation(text: &[char]) -> (r: Option<usize>)
    ensures
        r == spec_tab_in_indentation(text@, 0),
        r matches Some(c) ==> c < text@.len() && text@[c as int] == '\t',
{
    let mut i: usize = 0;
    while i < text.len()
        invariant
            i <= text@.len(),
            spec_tab_in_indentation(text@, i as int) == spec_tab_in_indentation(text@, 0),
        decreases text@.len() - i,
    {
        if text[i] == '\t' {
            return Some(i);
        }
        if text[i] != ' ' {
            return None;
        }
        i = i + 1;
    }
    None
}

/// `text` starts with `marker` followed by the end or ASCII whitespace.
pub open spec fn spec_document_marker_line(text: Seq<char>, marker: Seq<char>) -> bool {
    spec_has_at(text, 0, marker) && (text.len() == marker.len() || spec_ascii_ws(
        text[marker.len() as int],
    ))
}

fn document_marker_line(text: &[char], marker: &[char]) -> (r: bool)
    ensures
        r == spec_document_marker_line(text@, marker@),
{
    if !starts_with(text, marker) {
        return false;
    }
    text.len() == marker.len() || is_ascii_ws(text[marker.len()])
}

/// The characters of `s` after every leading byte order mark.
pub open spec fn spec_skip_bom(s: Seq<char>, from: int) -> int
    decreases s.len() - from,
{
    if from < 0 || from >= s.len() || s[from] != '\u{feff}' {
        from
    } else {
        spec_skip_bom(s, from + 1)
    }
}

fn skip_bom(s: &[char]) -> (r: usize)
    ensures
        r == spec_skip_bom(s@, 0),
        r <= s@.len(),
{
    let mut i: usize = 0;
    while i < s.len() && s[i] == '\u{feff}'
        invariant
            i <= s@.len(),
            spec_skip_bom(s@, i as int) == spec_skip_bom(s@, 0),
        decreases s@.len() - i,
    {
        i = i + 1;
    }
    i
}

/// The line with byte order marks dropped from the start and Unicode
/// whitespace trimmed on both sides.
pub open spec fn spec_classify_trimmed(text: Seq<char>) -> Seq<char> {
    spec_trim(text.subrange(spec_skip_bom(text, 0), text.len() as int))
}

pub open spec fn spec_is_fmt_comment(t: Seq<char>) -> bool {
    t.len() > 0 && t[0] == '#' && spec_has_at(
        t,
        spec_skip_ws(t, 1),
        seq!['f', 'm', 't', ':'],
    )
}

pub open spec fn spec_classify_line(text: Seq<char>) -> YamlLineKind {
    let t = spec_classify_trimmed(text);
    if t.len() == 0 {
        YamlLineKind::Blank
    } else if spec_document_marker_line(t, seq!['-', '-', '-']) || spec_document_marker_line(
        t,
        seq!['.', '.', '.'],
    ) {
        YamlLineKind::DocumentMarker
    } else if spec_is_fmt_comment(t) || spec_has_at(t, 0, seq!['%', 'Y', 'A', 'M', 'L', ' '])
        || spec_has_at(t, 0, seq!['%', 'T', 'A', 'G', ' ']) {
        YamlLineKind::Directive
    } else if t[0] == '#' {
        YamlLineKind::Comment
    } else {
        YamlLineKind::Other
    }
}

/// The kind of a line: blank, comment, directive, document marker or other.
fn classify_line(text: &[char]) -> (r: YamlLineKind)
    ensures
        r == spec_classify_line(text@),
{
    let b = skip_bom(text);
    let rest = sub_chars(text, b, text.len());
    let t = trim(rest.as_slice());
    if t.len() == 0 {
        return YamlLineKind::Blank;
    }
    let dashes = vec!['-', '-', '-'];
    let dots = vec!['.', '.', '.'];
    if document_marker_line(t.as_slice(), dashes.as_slice()) || document_marker_line(
        t.as_slice(),
        dots.as_slice(),
    ) {
        return YamlLineKind::DocumentMarker;
    }
    let fmt = vec!['f', 'm', 't', ':'];
    let yaml_directive = vec!['%', 'Y', 'A', 'M', 'L', ' '];
    let tag_directive = vec!['%', 'T', 'A', 'G', ' '];
    let fmt_comment = t[0] == '#' && has_at(t.as_slice(), skip_ws(t.as_slice(), 1), fmt.as_slice());
    if fmt_comment || starts_with(t.as_slice(), yaml_directive.as_slice()) || starts_with(
        t.as_slice(),
        tag_directive.as_slice(),
    ) {
        return YamlLineKind::Directive;
    }
    if t[0] == '#' {
        YamlLineKind::Comment
    } else {
        YamlLineKind::Other
    }
}

/// The character after `i` is missing or ASCII whitespace.
pub open spec fn spec_next_is_blank(s: Seq<char>, i: int) -> bool {
    i + 1 >= s.len() || spec_ascii_ws(s[i + 1])
}

fn next_is_blank(s: &[char], i: usize) -> (r: bool)
    requires
        i < s@.len(),
    ensures
        r == spec_next_is_blank(s@, i as int),
{
    let n = s.len();
    i + 1 >= n || is_ascii_ws(s[i + 1])
}

/// The last `:` before `index`, if any.
pub open spec fn spec_last_colon_before(s: Seq<char>, index: int) -> Option<int>
    decreases index,
{
    if index <= 0 {
        None
    } else if s[index - 1] == ':' {
        Some(index - 1)
    } else {
        spec_last_colon_before(s, index - 1)
    }
}

pub open spec fn spec_all_ascii_ws(s: Seq<char>, from: int, to: int) -> bool {
    forall|k: int| from <= k < to ==> spec_ascii_ws(#[trigger] s[k])
}

/// Whether a scalar token can begin at `index`: at the start of the content,
/// right after a sequence or explicit-key marker, or after a `:` followed by
/// whitespace only.
pub open spec fn spec_scalar_token_start(s: Seq<char>, content_start: int, index: int) -> bool {
    if index == content_start {
        true
    } else {
        let after_marker = if content_start < s.len() && (s[content_start] == '-'
            || s[content_start] == '?') {
            spec_skip_ascii_ws(s, content_start + 1)
        } else {
            content_start
        };
        if after_marker == index {
            true
        } else {
            match spec_last_colon_before(s, index) {
                Some(colon) => spec_all_ascii_ws(s, colon + 1, index),
                None => false,
            }
        }
    }
}

fn scalar_token_start(bytes: &[char], content_start: usize, index: usize) -> (r: bool)
    requires
        index <= bytes@.len(),
    ensures
        r == spec_scalar_token_start(bytes@, content_start as int, index as int),
{
    if index == content_start {
        return true;
    }
    let mut i = content_start;
    if i < bytes.len() && (bytes[i] == '-' || bytes[i] == '?') {
        i = skip_ascii_ws(bytes, i + 1);
    }
    if i == index {
        return true;
    }
    let mut j = index;
    while j > 0 && bytes[j - 1] != ':'
        invariant
            j <= index <= bytes@.len(),
            spec_last_colon_before(bytes@, j as int) == spec_last_colon_before(
                bytes@,
                index as int,
            ),
        decreases j,
    {
        j = j - 1;
    }
    if j == 0 {
        return false;
    }
    assert(spec_last_colon_before(bytes@, j as int) == Some(j - 1));
    let mut k = j;
    while k < index
        invariant
            j <= k <= index <= bytes@.len(),
            spec_all_ascii_ws(bytes@, j as int, k as int),
        decreases index - k,
    {
        if !is_ascii_ws(bytes[k]) {
            assert(!spec_ascii_ws(bytes@[k as int]));
            return false;
        }
        k = k + 1;
    }
    true
}

/// The kind of indicator a character stands for outside quotes, if any.
pub open spec fn spec_indicator_kind(s: Seq<char>, content_start: int, i: int) -> Option<
    YamlIndicatorKind,
> {
    let c = s[i];
    if c == '-' && i == content_start && spec_next_is_blank(s, i) {
        Some(YamlIndicatorKind::SequenceEntry)
    } else if c == ':' {
        Some(YamlIndicatorKind::MappingValue)
    } else if c == '[' {
        Some(YamlIndicatorKind::FlowSequenceStart)
    } else if c == ']' {
        Some(YamlIndicatorKind::FlowSequenceEnd)
    } else if c == '{' {
        Some(YamlIndicatorKind::FlowMappingStart)
    } else if c == '}' {
        Some(YamlIndicatorKind::FlowMappingEnd)
    } else if c == ',' {
        Some(YamlIndicatorKind::FlowEntrySeparator)
    } else if c == '?' && i == content_start && spec_next_is_blank(s, i) {
        Some(YamlIndicatorKind::ExplicitKey)
    } else if (c == '|' || c == '>') && spec_scalar_token_start(s, content_start, i) {
        Some(YamlIndicatorKind::BlockScalarHeader)
    } else {
        None
    }
}

/// The indicators of a line from position `i` on, as (position, kind)
/// pairs, given the quoting state at `i`: quoted runs are skipped and a `#`
/// outside quotes ends the scan.
pub open spec fn spec_indicators_from(
    s: Seq<char>,
    cs: int,
    i: int,
    quote: QuoteState,
    escaped: bool,
) -> Seq<(int, YamlIndicatorKind)>
    decreases s.len() - i,
{
    if i < 0 || i >= s.len() {
        Seq::empty()
    } else {
        let c = s[i];
        match quote {
            QuoteState::Outside => {
                if c == '#' {
                    Seq::empty()
                } else if c == '\'' {
                    spec_indicators_from(s, cs, i + 1, QuoteState::Single, escaped)
                } else if c == '"' {
                    spec_indicators_from(s, cs, i + 1, QuoteState::Double, false)
                } else {
                    match spec_indicator_kind(s, cs, i) {
                        Some(k) => seq![(i, k)] + spec_indicators_from(
                            s,
                            cs,
                            i + 1,
                            QuoteState::Outside,
                            escaped,
                        ),
                        None => spec_indicators_from(s, cs, i + 1, QuoteState::Outside, escaped),
                    }
                }
            },
            QuoteState::Single => {
                if c == '\'' {
                    spec_indicators_from(s, cs, i + 1, QuoteState::Outside, escaped)
                } else {
                    spec_indicators_from(s, cs, i + 1, QuoteState::Single, escaped)
                }
            },
            QuoteState::Double => {
                if escaped {
                    spec_indicators_from(s, cs, i + 1, QuoteState::Double, false)
                } else if c == '\\' {
                    spec_indicators_from(s, cs, i + 1, QuoteState::Double, true)
                } else if c == '"' {
                    spec_indicators_from(s, cs, i + 1, QuoteState::Outside, escaped)
                } else {
                    spec_indicators_from(s, cs, i + 1, QuoteState::Double, escaped)
                }
            },
        }
    }
}

/// Where the content of a line with the given indentation starts.
pub open spec fn spec_content_start(s: Seq<char>, indent: int) -> int {
    vstd::math::min(indent, s.len() as int)
}

/// The indicators of a line, relative to its start.
pub open spec fn spec_line_indicators(s: Seq<char>, indent: int) -> Seq<(int, YamlIndicatorKind)> {
    let cs = spec_content_start(s, indent);
    spec_indicators_from(s, cs, cs, QuoteState::Outside, false)
}

/// `v` holds the indicators `expected`, shifted by `base`, each one
/// character wide.
pub open spec fn spec_indicators_match(
    v: Seq<YamlIndicator>,
    base: int,
    expected: Seq<(int, YamlIndicatorKind)>,
) -> bool {
    &&& v.len() == expected.len()
    &&& forall|k: int|
        0 <= k < v.len() ==> {
            &&& (#[trigger] v[k]).kind == expected[k].1
            &&& v[k].span.start == base + expected[k].0
            &&& v[k].span.end == base + expected[k].0 + 1
        }
}

/// The structural indicators of a line, outside quoted scalars and before
/// any comment.
fn scan_indicators(line_start: usize, text: &[char], indent: usize) -> (r: Vec<YamlIndicator>)
    requires
        line_start + text@.len() <= usize::MAX,
    ensures
        spec_indicators_match(r@, line_start as int, spec_line_indicators(text@, indent as int)),
        forall|k: int|
            0 <= k < r@.len() ==> line_start <= (#[trigger] r@[k]).span.start < line_start
                + text@.len(),
{
    let mut indicators: Vec<YamlIndicator> = Vec::new();
    let mut quote = QuoteState::Outside;
    let mut escaped = false;
    let content_start = if indent < text.len() {
        indent
    } else {
        text.len()
    };
    let ghost cs = content_start as int;
    let ghost whole = spec_indicators_from(text@, cs, cs, QuoteState::Outside, false);
    let ghost mut acc: Seq<(int, YamlIndicatorKind)> = Seq::empty();
    let mut i = content_start;
    while i < text.len()
        invariant
            content_start <= i <= text@.len(),
            cs == content_start,
            content_start == spec_content_start(text@, indent as int),
            whole == spec_indicators_from(text@, cs, cs, QuoteState::Outside, false),
            line_start + text@.len() <= usize::MAX,
            acc + spec_indicators_from(text@, cs, i as int, quote, escaped) == whole,
            spec_indicators_match(indicators@, line_start as int, acc),
            forall|k: int|
                0 <= k < indicators@.len() ==> line_start <= (#[trigger] indicators@[k]).span.start
                    < line_start + i,
        decreases text@.len() - i,
    {
        let c = text[i];
        match quote {
            QuoteState::Outside => {
                if c == '#' {
                    assert(spec_indicators_from(text@, cs, i as int, quote, escaped) =~= Seq::empty());
                    assert(acc =~= whole);
                    break;
                }
                let kind = if c == '\'' {
                    quote = QuoteState::Single;
                    None
                } else if c == '"' {
                    quote = QuoteState::Double;
                    escaped = false;
                    None
                } else if c == '-' && i == content_start && next_is_blank(text, i) {
                    Some(YamlIndicatorKind::SequenceEntry)
                } else if c == ':' {
                    Some(YamlIndicatorKind::MappingValue)
                } else if c == '[' {
                    Some(YamlIndicatorKind::FlowSequenceStart)
                } else if c == ']' {
                    Some(YamlIndicatorKind::FlowSequenceEnd)
                } else if c == '{' {
                    Some(YamlIndicatorKind::FlowMappingStart)
                } else if c == '}' {
                    Some(YamlIndicatorKind::FlowMappingEnd)
                } else if c == ',' {
                    Some(YamlIndicatorKind::FlowEntrySeparator)
                } else if c == '?' && i == content_start && next_is_blank(text, i) {
                    Some(YamlIndicatorKind::ExplicitKey)
                } else if (c == '|' || c == '>') && scalar_token_start(text, content_start, i) {
                    Some(YamlIndicatorKind::BlockScalarHeader)
                } else {
                    None
                };
                if c != '\'' && c != '"' {
                    assert(kind == spec_indicator_kind(text@, cs, i as int));
                }
                if let Some(kind) = kind {
                    indicators.push(
                        YamlIndicator {
                            kind,
                            span: Span { start: line_start + i, end: line_start + i + 1 },
                        },
                    );
                    proof {
                        let tail = spec_indicators_from(
                            text@,
                            cs,
                            i + 1,
                            QuoteState::Outside,
                            escaped,
                        );
                        assert(acc + (seq![(i as int, kind)] + tail) =~= acc.push((i as int, kind)) + tail);
                        acc = acc.push((i as int, kind));
                    }
                }
            },
            QuoteState::Single => {
                if c == '\'' {
                    quote = QuoteState::Outside;
                }
            },
            QuoteState::Double => {
                if escaped {
                    escaped = false;
                } else if c == '\\' {
                    escaped = true;
                } else if c == '"' {
                    quote = QuoteState::Outside;
                }
            },
        }
        i = i + 1;
    }
    proof {
        if i >= text.len() {
            assert(spec_indicators_from(text@, cs, i as int, quote, escaped) =~= Seq::empty());
            assert(acc =~= whole);
        }
    }
    indicators
}

/// The character after `index` is missing, ASCII whitespace, `,`, `]` or `}`.
pub open spec fn spec_colon_starts_mapping_value(s: Seq<char>, index: int) -> bool {
    index + 1 >= s.len() || spec_ascii_ws(s[index + 1]) || s[index + 1] == ',' || s[index + 1]
        == ']' || s[index + 1] == '}'
}

fn colon_starts_mapping_value(bytes: &[char], index: usize) -> (r: bool)
    requires
        index < bytes@.len(),
    ensures
        r == spec_colon_starts_mapping_value(bytes@, index as int),
{
    let n = bytes.len();
    index + 1 >= n || is_ascii_ws(bytes[index + 1]) || bytes[index + 1] == ','
        || bytes[index + 1] == ']' || bytes[index + 1] == '}'
}

pub open spec fn spec_property_token_delimiter(c: char) -> bool {
    spec_ascii_ws(c) || c == '#' || c == ',' || c == '[' || c == ']' || c == '{' || c == '}'
}

fn property_token_delimiter(c: char) -> (r: bool)
    ensures
        r == spec_property_token_delimiter(c),
{
    is_ascii_ws(c) || c == '#' || c == ',' || c == '[' || c == ']' || c == '{' || c == '}'
}

/// Just after the first `q` at or after `i`, or the end of `s`.
pub open spec fn spec_past_char(s: Seq<char>, i: int, q: char) -> int
    decreases s.len() - i,
{
    if i < 0 || i >= s.len() {
        s.len() as int
    } else if s[i] == q {
        i + 1
    } else {
        spec_past_char(s, i + 1, q)
    }
}

pub proof fn lemma_past_char(s: Seq<char>, i: int, q: char)
    requires
        0 <= i <= s.len(),
    ensures
        i <= spec_past_char(s, i, q) <= s.len(),
        i < s.len() ==> i < spec_past_char(s, i, q),
    decreases s.len() - i,
{
    if i < s.len() && s[i] != q {
        lemma_past_char(s, i + 1, q);
    }
}

/// Just after the closing `"` of a double-quoted run continuing at `i`,
/// honouring backslash escapes, or the end of `s`.
pub open spec fn spec_double_quoted_end_from(s: Seq<char>, i: int, escaped: bool) -> int
    decreases s.len() - i,
{
    if i < 0 || i >= s.len() {
        s.len() as int
    } else if escaped {
        spec_double_quoted_end_from(s, i + 1, false)
    } else if s[i] == '\\' {
        spec_double_quoted_end_from(s, i + 1, true)
    } else if s[i] == '"' {
        i + 1
    } else {
        spec_double_quoted_end_from(s, i + 1, false)
    }
}

pub proof fn lemma_double_quoted_end(s: Seq<char>, i: int, escaped: bool)
    requires
        0 <= i <= s.len(),
    ensures
        i <= spec_double_quoted_end_from(s, i, escaped) <= s.len(),
        i < s.len() ==> i < spec_double_quoted_end_from(s, i, escaped),
    decreases s.len() - i,
{
    if i < s.len() {
        lemma_double_quoted_end(s, i + 1, false);
        lemma_double_quoted_end(s, i + 1, true);
    }
}

/// The first position at or after `i` holding a property-token delimiter
/// (or, with `colon`, a `:`), or the end of `s`.
pub open spec fn spec_delimiter_from(s: Seq<char>, i: int, colon: bool) -> int
    decreases s.len() - i,
{
    if i < 0 || i >= s.len() {
        s.len() as int
    } else if spec_property_token_delimiter(s[i]) || (colon && s[i] == ':') {
        i
    } else {
        spec_delimiter_from(s, i + 1, colon)
    }
}

pub proof fn lemma_delimiter_from(s: Seq<char>, i: int, colon: bool)
    requires
        0 <= i <= s.len(),
    ensures
        i <= spec_delimiter_from(s, i, colon) <= s.len(),
    decreases s.len() - i,
{
    if i < s.len() {
        lemma_delimiter_from(s, i + 1, colon);
    }
}

/// The end of a tag token starting at `start`: after the closing `>` of a
/// verbatim tag, otherwise at the first delimiter.
pub open spec fn spec_tag_token_end(s: Seq<char>, start: int) -> int {
    if start + 1 < s.len() && s[start + 1] == '<' {
        spec_past_char(s, start + 2, '>')
    } else {
        spec_delimiter_from(s, start + 1, false)
    }
}

fn tag_token_end(bytes: &[char], start: usize) -> (r: usize)
    requires
        start < bytes@.len(),
    ensures
        r == spec_tag_token_end(bytes@, start as int),
        start < r <= bytes@.len(),
{
    let n = bytes.len();
    if start + 1 < n && bytes[start + 1] == '<' {
        let mut i = start + 2;
        while i < bytes.len()
            invariant
                start + 2 <= i <= bytes@.len(),
                spec_past_char(bytes@, i as int, '>') == spec_past_char(
                    bytes@,
                    start + 2,
                    '>',
                ),
            decreases bytes@.len() - i,
        {
            if bytes[i] == '>' {
                return i + 1;
            }
            i = i + 1;
        }
        return bytes.len();
    }
    let mut i = start + 1;
    while i < bytes.len() && !property_token_delimiter(bytes[i])
        invariant
            start < i <= bytes@.len(),
            spec_delimiter_from(bytes@, i as int, false) == spec_delimiter_from(
                bytes@,
                start + 1,
                false,
            ),
        decreases bytes@.len() - i,
    {
        i = i + 1;
    }
    i
}

/// The end of an anchor or alias token starting at `start`.
fn anchor_or_alias_token_end(bytes: &[char], start: usize) -> (r: usize)
    requires
        start < bytes@.len(),
    ensures
        r == spec_delimiter_from(bytes@, start + 1, true),
        start < r <= bytes@.len(),
{
    let _n = bytes.len();
    let mut i = start + 1;
    while i < bytes.len() && !property_token_delimiter(bytes[i]) && bytes[i] != ':'
        invariant
            start < i <= bytes@.len(),
            spec_delimiter_from(bytes@, i as int, true) == spec_delimiter_from(
                bytes@,
                start + 1,
                true,
            ),
        decreases bytes@.len() - i,
    {
        i = i + 1;
    }
    i
}

/// The end of a quoted run: just after the next `quote`, or the end.
fn quoted_end(bytes: &[char], start: usize, quote: char) -> (r: usize)
    requires
        start < bytes@.len(),
    ensures
        r == spec_past_char(bytes@, start + 1, quote),
        start < r <= bytes@.len(),
{
    let _n = bytes.len();
    let mut i = start + 1;
    while i < bytes.len()
        invariant
            start < i <= bytes@.len(),
            spec_past_char(bytes@, i as int, quote) == spec_past_char(bytes@, start + 1, quote),
        decreases bytes@.len() - i,
    {
        if bytes[i] == quote {
            return i + 1;
        }
        i = i + 1;
    }
    bytes.len()
}

/// The end of a double-quoted run, honouring backslash escapes.
fn double_quoted_end(bytes: &[char], start: usize) -> (r: usize)
    requires
        start < bytes@.len(),
    ensures
        r == spec_double_quoted_end_from(bytes@, start + 1, false),
        start < r <= bytes@.len(),
{
    let _n = bytes.len();
    let mut i = start + 1;
    let mut escaped = false;
    while i < bytes.len()
        invariant
            start < i <= bytes@.len(),
            spec_double_quoted_end_from(bytes@, i as int, escaped)
                == spec_double_quoted_end_from(bytes@, start + 1, false),
        decreases bytes@.len() - i,
    {
        if escaped {
            escaped = false;
        } else if bytes[i] == '\\' {
            escaped = true;
        } else if bytes[i] == '"' {
            return i + 1;
        }
        i = i + 1;
    }
    bytes.len()
}

/// A `#` that starts a comment: at `start` or after ASCII whitespace.
pub open spec fn spec_comment_at(s: Seq<char>, start: int, k: int) -> bool {
    s[k] == '#' && (k == start || spec_ascii_ws(s[k - 1]))
}

/// The first comment start at or after `i`, or the end of `s`.
pub open spec fn spec_comment_start_from(s: Seq<char>, start: int, i: int) -> int
    decreases s.len() - i,
{
    if i < 0 || i >= s.len() {
        s.len() as int
    } else if spec_comment_at(s, start, i) {
        i
    } else {
        spec_comment_start_from(s, start, i + 1)
    }
}

/// `end` moved back over ASCII whitespace, but not before `start`.
pub open spec fn spec_trim_ascii_ws_back(s: Seq<char>, start: int, end: int) -> int
    decreases end - start,
{
    if end > start && end - 1 < s.len() && spec_ascii_ws(s[end - 1]) {
        spec_trim_ascii_ws_back(s, start, end - 1)
    } else {
        end
    }
}

/// The end of a plain scalar starting at `start`: before any comment, with
/// trailing ASCII whitespace trimmed.
pub open spec fn spec_plain_scalar_end(s: Seq<char>, start: int) -> int {
    spec_trim_ascii_ws_back(s, start, spec_comment_start_from(s, start, start))
}

/// The end of a plain scalar: before a comment (`#` at the start or after
/// whitespace), with trailing ASCII whitespace trimmed.
fn plain_scalar_end(bytes: &[char], start: usize) -> (r: usize)
    requires
        start <= bytes@.len(),
    ensures
        r == spec_plain_scalar_end(bytes@, start as int),
        start <= r <= bytes@.len(),
{
    let n = bytes.len();
    let mut i = start;
    while i < n && !(bytes[i] == '#' && (i == start || is_ascii_ws(bytes[i - 1])))
        invariant
            start <= i <= n,
            n == bytes@.len(),
            spec_comment_start_from(bytes@, start as int, i as int) == spec_comment_start_from(
                bytes@,
                start as int,
                start as int,
            ),
        decreases n - i,
    {
        i = i + 1;
    }
    let mut end = i;
    while end > start && is_ascii_ws(bytes[end - 1])
        invariant
            start <= end <= i <= n,
            n == bytes@.len(),
            spec_trim_ascii_ws_back(bytes@, start as int, end as int) == spec_plain_scalar_end(
                bytes@,
                start as int,
            ),
        decreases end,
    {
        end = end - 1;
    }
    end
}

/// The tags, anchors and aliases of a line from position `i` on, as (kind,
/// start, end) triples: `expect` says whether a node may start at `i`,
/// `depth` counts the open flow collections. Quoted runs are skipped and a
/// `#` ends the scan.
pub open spec fn spec_properties_from(
    s: Seq<char>,
    cs: int,
    i: int,
    expect: bool,
    depth: int,
) -> Seq<(YamlPropertyTokenKind, int, int)>
    decreases s.len() - i,
{
    if i < 0 || i >= s.len() {
        Seq::empty()
    } else {
        let c = s[i];
        if spec_ascii_ws(c) {
            spec_properties_from(s, cs, i + 1, expect, depth)
        } else if c == '#' {
            Seq::empty()
        } else if c == '\'' {
            proof {
                lemma_past_char(s, i + 1, '\'');
            }
            spec_properties_from(s, cs, spec_past_char(s, i + 1, '\''), false, depth)
        } else if c == '"' {
            proof {
                lemma_double_quoted_end(s, i + 1, false);
            }
            spec_properties_from(s, cs, spec_double_quoted_end_from(s, i + 1, false), false, depth)
        } else if (c == '-' || c == '?') && i == cs && spec_next_is_blank(s, i) {
            spec_properties_from(s, cs, i + 1, true, depth)
        } else if c == '[' || c == '{' {
            spec_properties_from(s, cs, i + 1, true, depth + 1)
        } else if c == ',' {
            spec_properties_from(s, cs, i + 1, depth > 0, depth)
        } else if c == ':' && spec_colon_starts_mapping_value(s, i) {
            spec_properties_from(s, cs, i + 1, true, depth)
        } else if c == ':' {
            spec_properties_from(s, cs, i + 1, false, depth)
        } else if c == ']' || c == '}' {
            spec_properties_from(s, cs, i + 1, false, if depth > 0 { depth - 1 } else { 0 })
        } else if c == '!' && expect {
            proof {
                if i + 1 < s.len() {
                    lemma_past_char(s, i + 2, '>');
                }
                lemma_delimiter_from(s, i + 1, false);
            }
            let e = spec_tag_token_end(s, i);
            seq![(YamlPropertyTokenKind::Tag, i, e)] + spec_properties_from(s, cs, e, true, depth)
        } else if c == '&' && expect {
            proof {
                lemma_delimiter_from(s, i + 1, true);
            }
            let e = spec_delimiter_from(s, i + 1, true);
            seq![(YamlPropertyTokenKind::Anchor, i, e)] + spec_properties_from(
                s,
                cs,
                e,
                true,
                depth,
            )
        } else if c == '*' && expect {
            proof {
                lemma_delimiter_from(s, i + 1, true);
            }
            let e = spec_delimiter_from(s, i + 1, true);
            seq![(YamlPropertyTokenKind::Alias, i, e)] + spec_properties_from(
                s,
                cs,
                e,
                false,
                depth,
            )
        } else {
            spec_properties_from(s, cs, i + 1, false, depth)
        }
    }
}

/// The property tokens of a line, relative to its start.
pub open spec fn spec_line_properties(s: Seq<char>, indent: int) -> Seq<
    (YamlPropertyTokenKind, int, int),
> {
    let cs = spec_content_start(s, indent);
    spec_properties_from(s, cs, cs, true, 0)
}

/// `v` holds the property tokens `expected`, shifted by `base`.
pub open spec fn spec_properties_match(
    v: Seq<YamlPropertyToken>,
    base: int,
    expected: Seq<(YamlPropertyTokenKind, int, int)>,
) -> bool {
    &&& v.len() == expected.len()
    &&& forall|k: int|
        0 <= k < v.len() ==> {
            &&& (#[trigger] v[k]).kind == expected[k].0
            &&& v[k].span.start == base + expected[k].1
            &&& v[k].span.end == base + expected[k].2
        }
}

/// The tags, anchors and aliases of a line, where a node may start.
fn scan_property_tokens(line_start: usize, text: &[char], indent: usize) -> (r: Vec<
    YamlPropertyToken,
>)
    requires
        line_start + text@.len() <= usize::MAX,
    ensures
        spec_properties_match(r@, line_start as int, spec_line_properties(text@, indent as int)),
        forall|k: int|
            0 <= k < r@.len() ==> line_start <= (#[trigger] r@[k]).span.start < r@[k].span.end
                <= line_start + text@.len(),
{
    let n = text.len();
    let content_start = if indent < n {
        indent
    } else {
        n
    };
    let ghost cs = content_start as int;
    let ghost whole = spec_properties_from(text@, cs, cs, true, 0);
    let ghost mut acc: Seq<(YamlPropertyTokenKind, int, int)> = Seq::empty();
    let mut properties: Vec<YamlPropertyToken> = Vec::new();
    let mut expect_node_start = true;
    let mut flow_depth: usize = 0;
    let mut i = content_start;
    while i < n
        invariant
            n == text@.len(),
            content_start <= i <= n,
            cs == content_start,
            content_start == spec_content_start(text@, indent as int),
            whole == spec_properties_from(text@, cs, cs, true, 0),
            line_start + n <= usize::MAX,
            flow_depth <= i,
            acc + spec_properties_from(text@, cs, i as int, expect_node_start, flow_depth as int)
                == whole,
            spec_properties_match(properties@, line_start as int, acc),
            forall|k: int|
                0 <= k < properties@.len() ==> line_start <= (#[trigger] properties@[k]).span.start
                    < properties@[k].span.end <= line_start + i,
        decreases n - i,
    {
        let c = text[i];
        let ghost d = flow_depth as int;
        if is_ascii_ws(c) {
            i = i + 1;
        } else if c == '#' {
            assert(spec_properties_from(text@, cs, i as int, expect_node_start, d) =~= Seq::empty());
            assert(acc =~= whole);
            break;
        } else if c == '\'' {
            i = quoted_end(text, i, '\'');
            expect_node_start = false;
        } else if c == '"' {
            i = double_quoted_end(text, i);
            expect_node_start = false;
        } else if (c == '-' || c == '?') && i == content_start && next_is_blank(text, i) {
            i = i + 1;
            expect_node_start = true;
        } else if c == '[' || c == '{' {
            flow_depth = flow_depth + 1;
            i = i + 1;
            expect_node_start = true;
        } else if c == ',' {
            i = i + 1;
            expect_node_start = flow_depth > 0;
        } else if c == ':' && colon_starts_mapping_value(text, i) {
            i = i + 1;
            expect_node_start = true;
        } else if c == ':' {
            i = i + 1;
            expect_node_start = false;
        } else if c == ']' || c == '}' {
            flow_depth = if flow_depth > 0 {
                flow_depth - 1
            } else {
                0
            };
            i = i + 1;
            expect_node_start = false;
        } else if (c == '!' || c == '&' || c == '*') && expect_node_start {
            let (kind, end) = if c == '!' {
                (YamlPropertyTokenKind::Tag, tag_token_end(text, i))
            } else if c == '&' {
                (YamlPropertyTokenKind::Anchor, anchor_or_alias_token_end(text, i))
            } else {
                (YamlPropertyTokenKind::Alias, anchor_or_alias_token_end(text, i))
            };
            properties.push(
                YamlPropertyToken { kind, span: Span { start: line_start + i, end: line_start + end } },
            );
            proof {
                let tail = spec_properties_from(text@, cs, end as int, c != '*', d);
                assert(acc + (seq![(kind, i as int, end as int)] + tail) =~= acc.push(
                    (kind, i as int, end as int),
                ) + tail);
                acc = acc.push((kind, i as int, end as int));
            }
            i = end;
            expect_node_start = c != '*';
        } else {
            i = i + 1;
            expect_node_start = false;
        }
    }
    proof {
        if i >= n {
            assert(spec_properties_from(text@, cs, i as int, expect_node_start, flow_depth as int)
                =~= Seq::empty());
            assert(acc =~= whole);
        }
    }
    properties
}

/// The end of the property token that starts at `at`, searching from the
/// `k`-th token on.
pub open spec fn spec_property_end_at(
    p: Seq<(YamlPropertyTokenKind, int, int)>,
    at: int,
    k: int,
) -> Option<int>
    decreases p.len() - k,
{
    if k < 0 || k >= p.len() {
        None
    } else if p[k].1 == at {
        Some(p[k].2)
    } else {
        spec_property_end_at(p, at, k + 1)
    }
}

/// From `start`, skips ASCII whitespace and every property token of `p`
/// that begins where the skipping stopped.
pub open spec fn spec_skip_properties(
    s: Seq<char>,
    p: Seq<(YamlPropertyTokenKind, int, int)>,
    start: int,
) -> int
    decreases s.len() - start,
{
    if start < 0 {
        start
    } else {
        let st = spec_skip_ascii_ws(s, start);
        proof {
            lemma_skip_ascii_ws(s, start);
        }
        match spec_property_end_at(p, st, 0) {
            None => st,
            Some(e) => if st < e <= s.len() {
                spec_skip_properties(s, p, e)
            } else {
                st
            },
        }
    }
}

/// Property tokens with positions taken relative to `base`.
pub open spec fn spec_relative_properties(v: Seq<YamlPropertyToken>, base: int) -> Seq<
    (YamlPropertyTokenKind, int, int),
> {
    Seq::new(v.len(), |k: int| (v[k].kind, v[k].span.start - base, v[k].span.end - base))
}

/// Indicators with positions taken relative to `base`.
pub open spec fn spec_relative_indicators(v: Seq<YamlIndicator>, base: int) -> Seq<
    (int, YamlIndicatorKind),
> {
    Seq::new(v.len(), |k: int| (v[k].span.start - base, v[k].kind))
}

/// The position of the first mapping-value indicator from the `k`-th on.
pub open spec fn spec_first_mapping_value(ind: Seq<(int, YamlIndicatorKind)>, k: int) -> Option<
    int,
>
    decreases ind.len() - k,
{
    if k < 0 || k >= ind.len() {
        None
    } else if ind[k].1 == YamlIndicatorKind::MappingValue {
        Some(ind[k].0)
    } else {
        spec_first_mapping_value(ind, k + 1)
    }
}

/// Where the search for a scalar begins: past a leading `-` and a leading
/// `?` with the whitespace after each.
pub open spec fn spec_scalar_search_start(s: Seq<char>, cs: int) -> int {
    let st = if 0 <= cs < s.len() && s[cs] == '-' {
        spec_skip_ascii_ws(s, cs + 1)
    } else {
        cs
    };
    if 0 <= st < s.len() && s[st] == '?' {
        spec_skip_ascii_ws(s, st + 1)
    } else {
        st
    }
}

/// The first ASCII whitespace or `#` at or after `i`, or the end of `s`.
pub open spec fn spec_header_end_from(s: Seq<char>, i: int) -> int
    decreases s.len() - i,
{
    if i < 0 || i >= s.len() {
        s.len() as int
    } else if spec_ascii_ws(s[i]) || s[i] == '#' {
        i
    } else {
        spec_header_end_from(s, i + 1)
    }
}

/// The scalar token that starts at `start`, if any, as (kind, start, end).
pub open spec fn spec_scalar_token_at(s: Seq<char>, cs: int, start: int) -> Option<
    (YamlScalarTokenKind, int, int),
> {
    if start < 0 || start >= s.len() || s[start] == '#' {
        None
    } else {
        let c = s[start];
        let (kind, end) = if c == '\'' {
            (YamlScalarTokenKind::SingleQuoted, spec_past_char(s, start + 1, '\''))
        } else if c == '"' {
            (YamlScalarTokenKind::DoubleQuoted, spec_double_quoted_end_from(s, start + 1, false))
        } else if (c == '|' || c == '>') && spec_scalar_token_start(s, cs, start) {
            (YamlScalarTokenKind::BlockScalarHeader, spec_header_end_from(s, start))
        } else {
            (YamlScalarTokenKind::Plain, spec_plain_scalar_end(s, start))
        };
        if end <= start {
            None
        } else {
            Some((kind, start, end))
        }
    }
}

/// The scalar token of a line with content start `cs`, indicators `ind`
/// and property tokens `p`: after the markers, the first mapping colon at
/// or after them and the property tokens.
pub open spec fn spec_scalar_token(
    s: Seq<char>,
    cs: int,
    ind: Seq<(int, YamlIndicatorKind)>,
    p: Seq<(YamlPropertyTokenKind, int, int)>,
) -> Option<(YamlScalarTokenKind, int, int)> {
    let st = spec_scalar_search_start(s, cs);
    let after_colon = match spec_first_mapping_value(ind, 0) {
        Some(rc) => if st <= rc < s.len() {
            spec_skip_ascii_ws(s, rc + 1)
        } else {
            st
        },
        None => st,
    };
    let st2 = spec_skip_properties(s, p, spec_skip_ascii_ws(s, after_colon));
    spec_scalar_token_at(s, cs, st2)
}

/// The scalar token of a line, relative to its start.
pub open spec fn spec_line_scalar(s: Seq<char>, indent: int) -> Option<
    (YamlScalarTokenKind, int, int),
> {
    spec_scalar_token(
        s,
        spec_content_start(s, indent),
        spec_line_indicators(s, indent),
        spec_line_properties(s, indent),
    )
}

/// `v` is the scalar token `expected`, shifted by `base`.
pub open spec fn spec_scalar_match(
    v: Option<YamlScalarToken>,
    base: int,
    expected: Option<(YamlScalarTokenKind, int, int)>,
) -> bool {
    match v {
        None => expected is None,
        Some(t) => match expected {
            None => false,
            Some(e) => t.kind == e.0 && t.span.start == base + e.1 && t.span.end == base + e.2,
        },
    }
}

/// Skips whitespace and any property tokens that begin at the cursor.
fn skip_property_tokens_at_start(
    bytes: &[char],
    line_start: usize,
    from: usize,
    properties: &[YamlPropertyToken],
) -> (r: usize)
    requires
        from <= bytes@.len(),
        line_start + bytes@.len() <= usize::MAX,
        forall|k: int|
            0 <= k < properties@.len() ==> line_start <= (#[trigger] properties@[k]).span.start
                < properties@[k].span.end <= line_start + bytes@.len(),
    ensures
        r == spec_skip_properties(
            bytes@,
            spec_relative_properties(properties@, line_start as int),
            from as int,
        ),
        r <= bytes@.len(),
{
    let n = bytes.len();
    let ghost p = spec_relative_properties(properties@, line_start as int);
    let mut start = from;
    loop
        invariant
            n == bytes@.len(),
            start <= n,
            line_start + n <= usize::MAX,
            p == spec_relative_properties(properties@, line_start as int),
            forall|k: int|
                0 <= k < properties@.len() ==> line_start <= (#[trigger] properties@[k]).span.start
                    < properties@[k].span.end <= line_start + n,
            spec_skip_properties(bytes@, p, start as int) == spec_skip_properties(
                bytes@,
                p,
                from as int,
            ),
        decreases n - start,
    {
        let st = skip_ascii_ws(bytes, start);
        proof {
            lemma_skip_ascii_ws(bytes@, start as int);
        }
        let absolute = line_start + st;
        let mut found: Option<usize> = None;
        let mut k: usize = 0;
        while k < properties.len()
            invariant
                k <= properties@.len(),
                found is None,
                absolute == line_start + st,
                p == spec_relative_properties(properties@, line_start as int),
                spec_property_end_at(p, st as int, k as int) == spec_property_end_at(
                    p,
                    st as int,
                    0,
                ),
            decreases properties@.len() - k,
        {
            if properties[k].span.start == absolute {
                found = Some(properties[k].span.end);
                break;
            }
            k = k + 1;
        }
        match found {
            None => {
                return st;
            },
            Some(end) => {
                start = end - line_start;
            },
        }
    }
}

/// The scalar token of a line: the value after any sequence marker,
/// explicit-key marker, mapping colon and node properties.
fn scan_scalar_token(
    line_start: usize,
    text: &[char],
    indent: usize,
    indicators: &[YamlIndicator],
    properties: &[YamlPropertyToken],
) -> (r: Option<YamlScalarToken>)
    requires
        line_start + text@.len() <= usize::MAX,
        forall|k: int| 0 <= k < indicators@.len() ==> line_start <= (#[trigger] indicators@[k]).span.start,
        forall|k: int|
            0 <= k < properties@.len() ==> line_start <= (#[trigger] properties@[k]).span.start
                < properties@[k].span.end <= line_start + text@.len(),
    ensures
        spec_scalar_match(
            r,
            line_start as int,
            spec_scalar_token(
                text@,
                spec_content_start(text@, indent as int),
                spec_relative_indicators(indicators@, line_start as int),
                spec_relative_properties(properties@, line_start as int),
            ),
        ),
{
    let n = text.len();
    let ghost ind = spec_relative_indicators(indicators@, line_start as int);
    let content_start = if indent < n {
        indent
    } else {
        n
    };
    let mut start = content_start;
    if start < n && text[start] == '-' {
        start = skip_ascii_ws(text, start + 1);
        proof {
            lemma_skip_ascii_ws(text@, content_start + 1);
        }
    }
    if start < n && text[start] == '?' {
        let before = start;
        start = skip_ascii_ws(text, start + 1);
        proof {
            lemma_skip_ascii_ws(text@, before + 1);
        }
    }
    assert(start == spec_scalar_search_start(text@, content_start as int));
    let ghost search = start as int;
    let mut k: usize = 0;
    while k < indicators.len()
        invariant
            k <= indicators@.len(),
            start == search,
            search <= n,
            ind == spec_relative_indicators(indicators@, line_start as int),
            forall|j: int| 0 <= j < indicators@.len() ==> line_start <= (#[trigger] indicators@[j]).span.start,
            spec_first_mapping_value(ind, k as int) == spec_first_mapping_value(ind, 0),
        decreases indicators@.len() - k,
    {
        if indicators[k].kind == YamlIndicatorKind::MappingValue {
            let relative_colon = indicators[k].span.start - line_start;
            if relative_colon >= start && relative_colon < n {
                start = skip_ascii_ws(text, relative_colon + 1);
                proof {
                    lemma_skip_ascii_ws(text@, relative_colon + 1);
                }
            }
            break;
        }
        k = k + 1;
    }
    let st = skip_ascii_ws(text, start);
    proof {
        lemma_skip_ascii_ws(text@, start as int);
    }
    start = skip_property_tokens_at_start(text, line_start, st, properties);
    if start >= n || text[start] == '#' {
        return None;
    }
    let c = text[start];
    let (kind, end) = if c == '\'' {
        (YamlScalarTokenKind::SingleQuoted, quoted_end(text, start, '\''))
    } else if c == '"' {
        (YamlScalarTokenKind::DoubleQuoted, double_quoted_end(text, start))
    } else if (c == '|' || c == '>') && scalar_token_start(text, content_start, start) {
        let mut e = start;
        while e < n && !is_ascii_ws(text[e]) && text[e] != '#'
            invariant
                start <= e <= n,
                n == text@.len(),
                spec_header_end_from(text@, e as int) == spec_header_end_from(
                    text@,
                    start as int,
                ),
            decreases n - e,
        {
            e = e + 1;
        }
        (YamlScalarTokenKind::BlockScalarHeader, e)
    } else {
        (YamlScalarTokenKind::Plain, plain_scalar_end(text, start))
    };
    if end <= start {
        return None;
    }
    Some(YamlScalarToken { kind, span: Span { start: line_start + start, end: line_start + end } })
}

/// The first tab in the indentation of the scanned lines before `to`.
pub open spec fn spec_first_scanned_tab(
    text: Seq<char>,
    lines: Seq<YamlScannedLine>,
    to: int,
) -> Option<YamlTabIndentation>
    decreases to,
{
    if to <= 0 || to > lines.len() {
        None
    } else {
        match spec_first_scanned_tab(text, lines, to - 1) {
            Some(t) => Some(t),
            None => match spec_tab_in_indentation(
                spec_clamped_slice(text, lines[to - 1].content),
                0,
            ) {
                Some(column) => Some(YamlTabIndentation { line_index: lines[to - 1].index, column }),
                None => None,
            },
        }
    }
}

/// The text of source line `i`, without its line break.
pub open spec fn spec_line_text(text: Seq<char>, lines: Seq<SourceLine>, i: int) -> Seq<char> {
    text.subrange(lines[i].text.start as int, lines[i].text.end as int)
}

/// The first tab in the indentation of the source lines `from..to`.
pub open spec fn spec_first_tab_line(
    text: Seq<char>,
    lines: Seq<SourceLine>,
    from: int,
    to: int,
) -> Option<YamlTabIndentation>
    decreases to - from,
{
    if to <= from || to > lines.len() || from < 0 {
        None
    } else {
        match spec_first_tab_line(text, lines, from, to - 1) {
            Some(t) => Some(t),
            None => match spec_tab_in_indentation(spec_line_text(text, lines, to - 1), 0) {
                Some(column) => Some(YamlTabIndentation { line_index: (to - 1) as usize, column }),
                None => None,
            },
        }
    }
}

impl YamlLineScan {
    /// The first tab found in the indentation of a scanned line.
    pub fn has_tab_indentation(&self, source: &SourceBuffer) -> (r: Option<YamlTabIndentation>)
        ensures
            r == (match self.tab_indentation {
                Some(t) => Some(t),
                None => spec_first_scanned_tab(source.text@, self.lines@, self.lines@.len() as int),
            }),
    {
        match self.tab_indentation {
            Some(tab) => {
                return Some(tab);
            },
            None => {},
        }
        let mut i: usize = 0;
        while i < self.lines.len()
            invariant
                self.tab_indentation is None,
                i <= self.lines@.len(),
                spec_first_scanned_tab(source.text@, self.lines@, i as int) is None,
            decreases self.lines@.len() - i,
        {
            let line = &self.lines[i];
            let text = source.slice(line.content);
            if let Some(column) = tab_in_indentation(text.as_slice()) {
                proof {
                    lemma_first_scanned_tab_found(source.text@, self.lines@, i as int, self.lines@.len() as int);
                }
                return Some(YamlTabIndentation { line_index: line.index, column });
            }
            i = i + 1;
        }
        None
    }
}

proof fn lemma_first_scanned_tab_found(text: Seq<char>, lines: Seq<YamlScannedLine>, i: int, to: int)
    requires
        0 <= i < to <= lines.len(),
        spec_first_scanned_tab(text, lines, i) is None,
        spec_tab_in_indentation(spec_clamped_slice(text, lines[i].content), 0) is Some,
    ensures
        spec_first_scanned_tab(text, lines, to) == spec_first_scanned_tab(text, lines, i + 1),
    decreases to - i,
{
    if to > i + 1 {
        lemma_first_scanned_tab_found(text, lines, i, to - 1);
    }
}

proof fn lemma_first_tab_line_found(
    text: Seq<char>,
    lines: Seq<SourceLine>,
    from: int,
    i: int,
    to: int,
)
    requires
        0 <= from <= i < to <= lines.len(),
        spec_first_tab_line(text, lines, from, i) is None,
        spec_tab_in_indentation(spec_line_text(text, lines, i), 0) is Some,
    ensures
        spec_first_tab_line(text, lines, from, to) == spec_first_tab_line(text, lines, from, i + 1),
    decreases to - i,
{
    if to > i + 1 {
        lemma_first_tab_line_found(text, lines, from, i, to - 1);
    }
}

proof fn lemma_first_tab_line_keeps(
    text: Seq<char>,
    lines: Seq<SourceLine>,
    from: int,
    i: int,
    to: int,
)
    requires
        0 <= from <= i <= to <= lines.len(),
        spec_first_tab_line(text, lines, from, i) is Some,
    ensures
        spec_first_tab_line(text, lines, from, to) == spec_first_tab_line(text, lines, from, i),
    decreases to - i,
{
    if to > i {
        lemma_first_tab_line_keeps(text, lines, from, i, to - 1);
    }
}

proof fn lemma_relative_indicators(v: Seq<YamlIndicator>, base: int, e: Seq<(int, YamlIndicatorKind)>)
    requires
        spec_indicators_match(v, base, e),
    ensures
        spec_relative_indicators(v, base) == e,
{
    assert(spec_relative_indicators(v, base) =~= e);
}

proof fn lemma_relative_properties(
    v: Seq<YamlPropertyToken>,
    base: int,
    e: Seq<(YamlPropertyTokenKind, int, int)>,
)
    requires
        spec_properties_match(v, base, e),
    ensures
        spec_relative_properties(v, base) == e,
{
    assert(spec_relative_properties(v, base) =~= e);
}

/// A scanned line agrees with source line `i`: its spans, ending,
/// indentation, kind, indicators, property tokens and scalar token.
pub open spec fn spec_scanned_line(text: Seq<char>, lines: Seq<SourceLine>, i: int, l: YamlScannedLine) -> bool {
    let t = spec_line_text(text, lines, i);
    let base = lines[i].text.start as int;
    &&& l.index == i
    &&& l.full == lines[i].full
    &&& l.content == lines[i].text
    &&& l.ending == lines[i].ending
    &&& l.indent == spec_indentation(t)
    &&& l.kind == spec_classify_line(t)
    &&& spec_indicators_match(l.indicators@, base, spec_line_indicators(t, l.indent as int))
    &&& spec_properties_match(l.properties@, base, spec_line_properties(t, l.indent as int))
    &&& spec_scalar_match(l.scalar, base, spec_line_scalar(t, l.indent as int))
}

/// The first line whose end lies after `pos`.
fn first_line_ending_after(source: &SourceBuffer, pos: usize) -> (r: usize)
    ensures
        r <= source.lines@.len(),
        forall|j: int| 0 <= j < r ==> source.lines@[j].full.end <= pos,
        r < source.lines@.len() ==> source.lines@[r as int].full.end > pos,
{
    let mut i: usize = 0;
    while i < source.lines.len() && source.lines[i].full.end <= pos
        invariant
            i <= source.lines@.len(),
            forall|j: int| 0 <= j < i ==> source.lines@[j].full.end <= pos,
        decreases source.lines@.len() - i,
    {
        i = i + 1;
    }
    i
}

/// The first line that starts at or after `pos`.
fn first_line_starting_at(source: &SourceBuffer, pos: usize) -> (r: usize)
    ensures
        r <= source.lines@.len(),
        forall|j: int| 0 <= j < r ==> source.lines@[j].full.start < pos,
        r < source.lines@.len() ==> source.lines@[r as int].full.start >= pos,
{
    let mut i: usize = 0;
    while i < source.lines.len() && source.lines[i].full.start < pos
        invariant
            i <= source.lines@.len(),
            forall|j: int| 0 <= j < i ==> source.lines@[j].full.start < pos,
        decreases source.lines@.len() - i,
    {
        i = i + 1;
    }
    i
}

/// Scans every line that overlaps `range`.
pub fn scan_yaml_lines(source: &SourceBuffer, range: Span) -> (r: YamlLineScan)
    requires
        source.wf(),
    ensures
        r.range == range,
        r.source_scans == 1,
        r.scanned_lines == r.lines@.len(),
        r.start_line <= source.lines@.len(),
        r.end_line <= source.lines@.len(),
        forall|j: int| 0 <= j < r.start_line ==> source.lines@[j].full.end <= range.start,
        r.start_line < source.lines@.len() ==> source.lines@[r.start_line as int].full.end
            > range.start,
        forall|j: int| 0 <= j < r.end_line ==> source.lines@[j].full.start < range.end,
        r.end_line < source.lines@.len() ==> source.lines@[r.end_line as int].full.start
            >= range.end,
        r.lines@.len() == (if r.start_line <= r.end_line {
            r.end_line - r.start_line
        } else {
            0
        }),
        forall|k: int|
            0 <= k < r.lines@.len() ==> spec_scanned_line(
                source.text@,
                source.lines@,
                r.start_line + k,
                #[trigger] r.lines@[k],
            ),
        r.tab_indentation == spec_first_tab_line(
            source.text@,
            source.lines@,
            r.start_line as int,
            r.end_line as int,
        ),
{
    let start_line = first_line_ending_after(source, range.start);
    let end_line = first_line_starting_at(source, range.end);
    let mut lines: Vec<YamlScannedLine> = Vec::new();
    let mut tab_indentation: Option<YamlTabIndentation> = None;
    let mut index = start_line;
    while index < end_line
        invariant
            start_line <= index,
            start_line <= end_line ==> index <= end_line,
            start_line > end_line ==> index == start_line,
            end_line <= source.lines@.len(),
            source.wf(),
            lines@.len() == index - start_line,
            forall|k: int|
                0 <= k < lines@.len() ==> spec_scanned_line(
                    source.text@,
                    source.lines@,
                    start_line + k,
                    #[trigger] lines@[k],
                ),
            tab_indentation == spec_first_tab_line(
                source.text@,
                source.lines@,
                start_line as int,
                index as int,
            ),
        decreases end_line - index,
    {
        let line = source.lines[index];
        let text = source.line_text(index);
        let ghost t = spec_line_text(source.text@, source.lines@, index as int);
        assert(text@ == t);
        let ghost before = tab_indentation;
        if tab_indentation.is_none() {
            if let Some(column) = tab_in_indentation(text.as_slice()) {
                tab_indentation = Some(YamlTabIndentation { line_index: index, column });
            }
        }
        assert(tab_indentation == spec_first_tab_line(
            source.text@,
            source.lines@,
            start_line as int,
            index + 1,
        ));
        let indent = indentation(text.as_slice());
        let kind = classify_line(text.as_slice());
        let indicators = scan_indicators(line.text.start, text.as_slice(), indent);
        let properties = scan_property_tokens(line.text.start, text.as_slice(), indent);
        proof {
            lemma_relative_indicators(
                indicators@,
                line.text.start as int,
                spec_line_indicators(t, indent as int),
            );
            lemma_relative_properties(
                properties@,
                line.text.start as int,
                spec_line_properties(t, indent as int),
            );
        }
        let scalar = scan_scalar_token(
            line.text.start,
            text.as_slice(),
            indent,
            indicators.as_slice(),
            properties.as_slice(),
        );
        let scanned = YamlScannedLine {
            index,
            full: line.full,
            content: line.text,
            ending: line.ending,
            indent,
            kind,
            indicators,
            properties,
            scalar,
        };
        assert(spec_scanned_line(source.text@, source.lines@, index as int, scanned));
        lines.push(scanned);
        index = index + 1;
    }
    let scanned = lines.len();
    YamlLineScan {
        range,
        start_line,
        end_line,
        source_scans: 1,
        scanned_lines: scanned,
        tab_indentation,
        lines,
    }
}

/// Finds the line range of `range` and the first tab in indentation
/// without scanning line contents.
pub fn scan_yaml_lines_basic(source: &SourceBuffer, range: Span) -> (r: YamlLineScan)
    requires
        source.wf(),
    ensures
        r.range == range,
        r.lines@.len() == 0,
        r.start_line <= source.lines@.len(),
        r.end_line <= source.lines@.len(),
        forall|j: int| 0 <= j < r.start_line ==> source.lines@[j].full.end <= range.start,
        r.start_line < source.lines@.len() ==> source.lines@[r.start_line as int].full.end
            > range.start,
        forall|j: int| 0 <= j < r.end_line ==> source.lines@[j].full.start < range.end,
        r.end_line < source.lines@.len() ==> source.lines@[r.end_line as int].full.start
            >= range.end,
        r.source_scans == 1,
        r.scanned_lines == (if r.end_line >= r.start_line { r.end_line - r.start_line } else { 0 }),
        r.tab_indentation == spec_first_tab_line(
            source.text@,
            source.lines@,
            r.start_line as int,
            r.end_line as int,
        ),
{
    let start_line = first_line_ending_after(source, range.start);
    let end_line = first_line_starting_at(source, range.end);
    let mut tab_indentation: Option<YamlTabIndentation> = None;
    let mut index = start_line;
    while index < end_line
        invariant
            start_line <= index,
            start_line <= end_line ==> index <= end_line,
            end_line <= source.lines@.len(),
            source.wf(),
            tab_indentation is None,
            spec_first_tab_line(source.text@, source.lines@, start_line as int, index as int) is None,
        decreases end_line - index,
    {
        let text = source.line_text(index);
        if let Some(column) = tab_in_indentation(text.as_slice()) {
            tab_indentation = Some(YamlTabIndentation { line_index: index, column });
            proof {
                lemma_first_tab_line_found(
                    source.text@,
                    source.lines@,
                    start_line as int,
                    index as int,
                    end_line as int,
                );
            }
            break;
        }
        index = index + 1;
    }
    YamlLineScan {
        range,
        start_line,
        end_line,
        source_scans: 1,
        scanned_lines: if end_line >= start_line {
            end_line - start_line
        } else {
            0
        },
        tab_indentation,
        lines: Vec::new(),
    }
}

} // verus!
