//! Multi-line constructs found in YAML source before parsing: node
//! properties in front of a scalar, tab-indented blocks, block scalars,
//! quoted scalars that continue over lines and flow collections.
use vstd::prelude::*;
use crate::source::{spec_clamped_slice, spec_line_at, SourceBuffer, SourceLine, Span};
use crate::text::{
    is_ascii_ws, spec_ascii_ws, spec_trim, spec_trim_ascii_end_at, spec_trim_ws_end, sub_chars,
    trim, trim_ascii_end_at,
};
use crate::yaml_lines::{
    block_scalar_header_info, block_scalar_metadata_prefix, block_scalar_value_start,
    find_trailing_comment, indentation, scan_start, skip_ascii_ws_until, spaces,
    spec_all_tokens_are_properties, spec_block_scalar_header, spec_block_scalar_value_start,
    spec_find_unquoted, spec_indentation, spec_skip_ascii_ws_until, spec_spaces,
    spec_tab_in_indentation, tab_in_indentation, trim_end_before,
};
use crate::yaml_block_text::{spec_split_line_value_comment, split_line_value_comment};
use crate::yaml_lines::{
    comment_can_start, quoted_scalar_close, spec_after_flow_close, spec_comment_can_start,
    spec_quoted_scalar_close, trailing_comment_after_flow_close,
};
use crate::yaml_lines::{
    contains_seq, explicit_key_line, explicit_value_line, flow_collection_closes_at_line_end,
    flow_collection_contains_multiline_quote, line_flow_value_start,
    line_starts_unclosed_quoted_scalar, mapping_colon_at,
    mapping_value_has_unsupported_property_token, node_properties_content_start,
    property_only_line_requires_preservation, single_line_flow_value_needs_no_preserve_check,
    spec_contains_seq, spec_flow_closes_at_line_end, spec_indicator_at, spec_line_flow_value_start,
    spec_mapping_colon_at, spec_multiline_quote_from, spec_node_properties_content_start,
    spec_property_only_line, spec_single_line_flow_value, spec_strip_newline,
    spec_unclosed_quoted_scalar, spec_unsupported_plain_mapping_key, spec_unsupported_property_token,
    spec_unsupported_sequence_entry, strip_newline, unsupported_plain_mapping_key_line,
    unsupported_sequence_entry_line,
};
use crate::yaml_lines::{
    document_marker_inline_content_requires_preservation, document_marker_line_info, spec_bom,
    spec_document_marker_line, spec_fmt_directive_comment, spec_marker_content_is_block_scalar,
    yaml_line_has_fmt_directive_comment, yaml_line_is_block_scalar_body,
};
use crate::yaml_model::{YamlBlockChomp, YamlBlockScalarHeader};
use crate::yaml_scan::{YamlLineScan, YamlScalarTokenKind, YamlScannedLine};
use crate::yaml_lines::{mapping_colon_from, sequence_line, spec_mapping_colon_from};
use crate::text::{skip_ascii_ws, spec_skip_ascii_ws};

verus! {

/// The node properties in front of a scalar and where its content lies.
#[derive(Debug, Clone, Copy, PartialEq, Eq, Structural)]
pub struct ScalarMetadata {
    pub tag: Option<Span>,
    pub anchor: Option<Span>,
    pub content: Span,
}

/// The bounds of `t` without leading and trailing ASCII whitespace.
pub open spec fn spec_trim_ascii_bounds(t: Seq<char>) -> (int, int) {
    let a = spec_skip_ascii_ws_until(t, 0, t.len() as int);
    (a, spec_trim_ascii_end_at(t, a, t.len() as int))
}

pub fn trim_ascii_bounds(t: &[char]) -> (r: (usize, usize))
    ensures
        r.0 == spec_trim_ascii_bounds(t@).0,
        r.1 == spec_trim_ascii_bounds(t@).1,
        r.0 <= r.1 <= t@.len(),
{
    let n = t.len();
    let a = skip_ascii_ws_until(t, 0, n);
    let b = trim_ascii_end_at(t, a, n);
    (a, b)
}

/// The end of the run of non-ASCII-whitespace characters from `i`, not
/// past `limit`.
pub open spec fn spec_token_end_until(t: Seq<char>, i: int, limit: int) -> int
    decreases limit - i,
{
    if i >= limit || i < 0 || i >= t.len() || spec_ascii_ws(t[i]) {
        i
    } else {
        spec_token_end_until(t, i + 1, limit)
    }
}

pub proof fn lemma_skip_until_bounds(t: Seq<char>, i: int, limit: int)
    requires
        0 <= i <= limit <= t.len(),
    ensures
        i <= spec_skip_ascii_ws_until(t, i, limit) <= limit,
        spec_skip_ascii_ws_until(t, i, limit) < limit ==> !spec_ascii_ws(
            t[spec_skip_ascii_ws_until(t, i, limit)],
        ),
    decreases limit - i,
{
    if i < limit && spec_ascii_ws(t[i]) {
        lemma_skip_until_bounds(t, i + 1, limit);
    }
}

pub proof fn lemma_token_end_bounds(t: Seq<char>, i: int, limit: int)
    requires
        0 <= i <= limit <= t.len(),
    ensures
        i <= spec_token_end_until(t, i, limit) <= limit,
        i < limit && !spec_ascii_ws(t[i]) ==> i < spec_token_end_until(t, i, limit),
    decreases limit - i,
{
    if i < limit && !spec_ascii_ws(t[i]) {
        lemma_token_end_bounds(t, i + 1, limit);
    }
}

/// The tag, anchor and content start found from `cursor` on, given those
/// found so far: `!` and `&` tokens are taken until another token starts.
pub open spec fn spec_metadata_tokens(
    t: Seq<char>,
    limit: int,
    cursor: int,
    tag: Option<(int, int)>,
    anchor: Option<(int, int)>,
    content_start: int,
) -> (Option<(int, int)>, Option<(int, int)>, int)
    decreases limit - cursor,
{
    if cursor < 0 || cursor >= limit || limit > t.len() {
        (tag, anchor, content_start)
    } else {
        let c1 = spec_skip_ascii_ws_until(t, cursor, limit);
        if c1 >= limit {
            (tag, anchor, limit)
        } else {
            proof {
                lemma_skip_until_bounds(t, cursor, limit);
                lemma_token_end_bounds(t, c1, limit);
            }
            let e = spec_token_end_until(t, c1, limit);
            if t[c1] == '!' {
                spec_metadata_tokens(t, limit, e, Some((c1, e)), anchor, e)
            } else if t[c1] == '&' {
                spec_metadata_tokens(t, limit, e, tag, Some((c1, e)), e)
            } else {
                (tag, anchor, c1)
            }
        }
    }
}

/// The metadata of a scalar's text `t`, relative to its start: tag,
/// anchor, and the content bounds.
pub open spec fn spec_scalar_metadata(t: Seq<char>) -> (Option<(int, int)>, Option<(int, int)>, int, int) {
    if t.len() > 0 && !spec_ascii_ws(t[0]) && !spec_ascii_ws(t[t.len() - 1]) && t[0] != '!' && t[0]
        != '&' {
        (None, None, 0, t.len() as int)
    } else {
        let (ts, te) = spec_trim_ascii_bounds(t);
        let (tag, anchor, cs) = spec_metadata_tokens(t, te, ts, None, None, ts);
        (tag, anchor, spec_skip_ascii_ws_until(t, cs, te), te)
    }
}

/// A span `rel` of a slice that starts at `base`, as a span of the source.
pub open spec fn spec_shift_span(base: int, rel: Option<(int, int)>, s: Option<Span>) -> bool {
    match rel {
        None => s is None,
        Some((a, b)) => s matches Some(x) && x.start == base + a && x.end == base + b,
    }
}

/// The node properties in front of a scalar: a leading `!` token is its
/// tag, a leading `&` token its anchor; the content is the rest, trimmed.
pub fn scalar_metadata(source: &SourceBuffer, value: Span) -> (r: ScalarMetadata)
    requires
        value.start <= value.end <= source.text@.len(),
    ensures
        ({
            let (tag, anchor, cs, ce) = spec_scalar_metadata(
                source.text@.subrange(value.start as int, value.end as int),
            );
            &&& spec_shift_span(value.start as int, tag, r.tag)
            &&& spec_shift_span(value.start as int, anchor, r.anchor)
            &&& r.content.start == value.start + cs
            &&& r.content.end == value.start + ce
        }),
        value.start <= r.content.start <= r.content.end <= value.end,
{
    let text = source.slice(value);
    let ghost t = text@;
    assert(t == source.text@.subrange(value.start as int, value.end as int));
    let n = text.len();
    if n > 0 && !is_ascii_ws(text[0]) && !is_ascii_ws(text[n - 1]) && text[0] != '!' && text[0]
        != '&' {
        return ScalarMetadata { tag: None, anchor: None, content: value };
    }
    let (trimmed_start, trimmed_end) = trim_ascii_bounds(text.as_slice());
    let mut cursor = trimmed_start;
    let mut tag: Option<Span> = None;
    let mut anchor: Option<Span> = None;
    let mut content_start = trimmed_start;
    let ghost mut rtag: Option<(int, int)> = None;
    let ghost mut ranchor: Option<(int, int)> = None;
    let ghost target = spec_metadata_tokens(
        t,
        trimmed_end as int,
        trimmed_start as int,
        None,
        None,
        trimmed_start as int,
    );
    while cursor < trimmed_end
        invariant
            n == t.len(),
            t == text@,
            trimmed_start <= cursor,
            trimmed_start <= content_start <= trimmed_end <= n,
            cursor <= trimmed_end,
            value.start + n <= usize::MAX,
            n == value.end - value.start,
            spec_metadata_tokens(t, trimmed_end as int, cursor as int, rtag, ranchor, content_start as int)
                == target,
            spec_shift_span(value.start as int, rtag, tag),
            spec_shift_span(value.start as int, ranchor, anchor),
            rtag matches Some((a, b)) ==> 0 <= a <= b <= n,
            ranchor matches Some((a, b)) ==> 0 <= a <= b <= n,
        decreases trimmed_end - cursor,
    {
        let c1 = skip_ascii_ws_until(text.as_slice(), cursor, trimmed_end);
        if c1 >= trimmed_end {
            content_start = trimmed_end;
            cursor = c1;
            break;
        }
        proof {
            lemma_skip_until_bounds(t, cursor as int, trimmed_end as int);
            lemma_token_end_bounds(t, c1 as int, trimmed_end as int);
        }
        let mut e = c1;
        while e < trimmed_end && !is_ascii_ws(text[e])
            invariant
                c1 <= e <= trimmed_end <= n,
                n == t.len(),
                t == text@,
                spec_token_end_until(t, e as int, trimmed_end as int) == spec_token_end_until(
                    t,
                    c1 as int,
                    trimmed_end as int,
                ),
            decreases trimmed_end - e,
        {
            e = e + 1;
        }
        if text[c1] == '!' {
            tag = Some(Span { start: value.start + c1, end: value.start + e });
            proof {
                rtag = Some((c1 as int, e as int));
            }
            content_start = e;
            cursor = e;
        } else if text[c1] == '&' {
            anchor = Some(Span { start: value.start + c1, end: value.start + e });
            proof {
                ranchor = Some((c1 as int, e as int));
            }
            content_start = e;
            cursor = e;
        } else {
            content_start = c1;
            cursor = c1;
            break;
        }
    }
    let content = skip_ascii_ws_until(text.as_slice(), content_start, trimmed_end);
    proof {
        lemma_skip_until_bounds(t, content_start as int, trimmed_end as int);
    }
    ScalarMetadata {
        tag,
        anchor,
        content: Span { start: value.start + content, end: value.start + trimmed_end },
    }
}

/// `span` without ASCII whitespace at either end.
pub fn trim_span_ascii(source: &SourceBuffer, span: Span) -> (r: Span)
    requires
        span.start <= span.end <= source.text@.len(),
    ensures
        ({
            let (a, b) = spec_trim_ascii_bounds(
                source.text@.subrange(span.start as int, span.end as int),
            );
            r.start == span.start + a && r.end == span.start + b
        }),
        span.start <= r.start <= r.end <= span.end,
{
    let text = source.slice(span);
    let (start, end) = trim_ascii_bounds(text.as_slice());
    Span { start: span.start + start, end: span.start + end }
}

/// The text of source line `i`, without its line break.
pub open spec fn spec_line(text: Seq<char>, lines: Seq<SourceLine>, i: int) -> Seq<char> {
    text.subrange(lines[i].text.start as int, lines[i].text.end as int)
}

/// The first line from `scan` on (before `end`) that ends a tab-indented
/// block whose first line has indentation `base`: a non-blank line
/// without a tab in its indentation and not indented past `base`.
pub open spec fn spec_tab_block_end(
    text: Seq<char>,
    lines: Seq<SourceLine>,
    scan: int,
    end: int,
    base: int,
) -> int
    decreases end - scan,
{
    if scan >= end {
        scan
    } else {
        let t = spec_line(text, lines, scan);
        if spec_trim(t).len() == 0 || spec_tab_in_indentation(t) is Some || spec_indentation(t)
            > base {
            spec_tab_block_end(text, lines, scan + 1, end, base)
        } else {
            scan
        }
    }
}

pub proof fn lemma_tab_block_end_bounds(
    text: Seq<char>,
    lines: Seq<SourceLine>,
    scan: int,
    end: int,
    base: int,
)
    requires
        scan <= end,
    ensures
        scan <= spec_tab_block_end(text, lines, scan, end, base) <= end,
    decreases end - scan,
{
    if scan < end {
        lemma_tab_block_end_bounds(text, lines, scan + 1, end, base);
    }
}

/// The block that starts at a line with a tab in its indentation: that line
/// and the lines after it that are blank, tab-indented or indented deeper.
pub fn tab_indented_block_at(source: &SourceBuffer, line: usize, end: usize) -> (r: Span)
    requires
        source.wf(),
        line < source.lines@.len(),
        end <= source.lines@.len(),
    ensures
        ({
            let first = spec_line(source.text@, source.lines@, line as int);
            let base = match spec_tab_in_indentation(first) {
                Some(p) => p,
                None => spec_indentation(first),
            };
            let last = if line + 1 <= end {
                spec_tab_block_end(source.text@, source.lines@, line + 1, end as int, base)
            } else {
                line + 1
            };
            r.start == source.lines@[line as int].full.start && r.end == source.lines@[last
                - 1].full.end
        }),
{
    let _count = source.lines.len();
    let start = source.lines[line].full.start;
    let first_text = source.line_text(line);
    let base_indent = match tab_in_indentation(first_text.as_slice()) {
        Some(p) => p,
        None => indentation(first_text.as_slice()),
    };
    let mut scan = line + 1;
    proof {
        if line + 1 <= end {
            lemma_tab_block_end_bounds(
                source.text@,
                source.lines@,
                line + 1,
                end as int,
                base_indent as int,
            );
        }
    }
    while scan < end
        invariant
            line + 1 <= scan,
            line + 1 <= end ==> scan <= end,
            line + 1 > end ==> scan == line + 1,
            end <= source.lines@.len(),
            source.wf(),
            line + 1 <= end ==> spec_tab_block_end(
                source.text@,
                source.lines@,
                scan as int,
                end as int,
                base_indent as int,
            ) == spec_tab_block_end(
                source.text@,
                source.lines@,
                line + 1,
                end as int,
                base_indent as int,
            ),
        decreases end - scan,
    {
        let text = source.line_text(scan);
        let t = trim(text.as_slice());
        if t.len() == 0 || tab_in_indentation(text.as_slice()).is_some() || indentation(
            text.as_slice(),
        ) > base_indent {
            scan = scan + 1;
            continue;
        }
        assert(spec_tab_block_end(
            source.text@,
            source.lines@,
            scan as int,
            end as int,
            base_indent as int,
        ) == scan);
        break;
    }
    Span { start, end: source.lines[scan - 1].full.end }
}

/// A block scalar: its header line, the value on that line (properties and
/// header), the body lines and the header's trailing comment.
#[derive(Debug, Clone, Copy, PartialEq, Eq, Structural)]
pub struct BlockScalar {
    pub full: Span,
    pub header: Span,
    pub header_info: YamlBlockScalarHeader,
    pub value: Span,
    pub body: Span,
    pub trailing_comment: Option<Span>,
}

/// The last `|` or `>` before `end`.
pub open spec fn spec_last_block_marker(t: Seq<char>, end: int) -> Option<int>
    decreases end,
{
    if end <= 0 || end > t.len() {
        None
    } else if t[end - 1] == '|' || t[end - 1] == '>' {
        Some(end - 1)
    } else {
        spec_last_block_marker(t, end - 1)
    }
}

/// A character allowed after a block scalar indicator.
pub open spec fn spec_header_char(c: char) -> bool {
    c == '+' || c == '-' || ('0' <= c && c <= '9') || c == ' '
}

/// The first line from `i` on (before `end`) that is not blank and not
/// indented past `base` spaces: where a block scalar body stops.
pub open spec fn spec_block_body_end(
    text: Seq<char>,
    lines: Seq<SourceLine>,
    i: int,
    end: int,
    base: int,
) -> int
    decreases end - i,
{
    if i >= end {
        i
    } else {
        let t = spec_line(text, lines, i);
        if spec_trim(t).len() == 0 || spec_spaces(t, 0) > base {
            spec_block_body_end(text, lines, i + 1, end, base)
        } else {
            i
        }
    }
}

pub proof fn lemma_block_body_end_bounds(
    text: Seq<char>,
    lines: Seq<SourceLine>,
    i: int,
    end: int,
    base: int,
)
    requires
        i <= end,
    ensures
        i <= spec_block_body_end(text, lines, i, end, base) <= end,
    decreases end - i,
{
    if i < end {
        lemma_block_body_end_bounds(text, lines, i + 1, end, base);
    }
}

/// What a block scalar header line `t` holds, relative to the line: the
/// indicator position, the header's indentation indicator and chomping,
/// where the value starts, where it ends and the trailing comment; none
/// when the line is no block scalar header.
pub open spec fn spec_block_header_line(t: Seq<char>) -> Option<
    (int, Option<int>, YamlBlockChomp, int, int, Option<int>),
> {
    let tc = spec_find_unquoted(t, 0, scan_start(), '#', 0);
    let content_end = match tc {
        Some(c) => spec_trim_ws_end(t, 0, c),
        None => t.len() as int,
    };
    let trimmed_end = spec_trim_ws_end(t, 0, content_end);
    match spec_last_block_marker(t, trimmed_end) {
        None => None,
        Some(m) => if !(forall|k: int| m < k < trimmed_end ==> spec_header_char(#[trigger] t[k])) {
            None
        } else {
            match spec_block_scalar_header(t.subrange(m + 1, trimmed_end)) {
                None => None,
                Some((indent, chomp)) => match spec_block_scalar_value_start(t, m) {
                    None => None,
                    Some(vs) => {
                        let prefix = spec_trim(t.subrange(vs, m));
                        if prefix.len() == 0 || spec_all_tokens_are_properties(prefix) {
                            Some((m, indent, chomp, vs, trimmed_end, tc))
                        } else {
                            None
                        }
                    },
                },
            }
        },
    }
}

/// Where the block scalar with its header on line `line` ends: after the
/// last body line, or after the header line when it has no body.
pub open spec fn spec_block_scalar_end(
    text: Seq<char>,
    lines: Seq<SourceLine>,
    line: int,
    end: int,
) -> int {
    let t = spec_line(text, lines, line);
    let i = if line + 1 <= end {
        spec_block_body_end(text, lines, line + 1, end, spec_spaces(t, 0))
    } else {
        line + 1
    };
    if i == line + 1 {
        lines[line].full.end as int
    } else {
        lines[i - 1].full.end as int
    }
}

/// `r` is the block scalar whose header is source line `line`, with body
/// lines before `end`.
pub open spec fn spec_block_scalar_at(
    text: Seq<char>,
    lines: Seq<SourceLine>,
    line: int,
    end: int,
    r: Option<BlockScalar>,
) -> bool {
    let t = spec_line(text, lines, line);
    let l = lines[line];
    match spec_block_header_line(t) {
        None => r is None,
        Some((m, indent, chomp, vs, te, tc)) => {
            let body_end = spec_block_scalar_end(text, lines, line, end);
            &&& r matches Some(b)
            &&& b.header == l.full
            &&& b.header_info.chomp == chomp
            &&& b.header_info.base_indent == 0
            &&& match indent {
                Some(d) => b.header_info.indent matches Some(x) && x == d,
                None => b.header_info.indent is None,
            }
            &&& b.value.start == l.text.start + vs
            &&& b.value.end == l.text.start + te
            &&& b.body.start == l.full.end
            &&& b.body.end == body_end
            &&& b.full.start == l.full.start
            &&& b.full.end == body_end
            &&& match tc {
                Some(c) => b.trailing_comment matches Some(sp) && sp.start == l.text.start + c
                    && sp.end == l.text.end,
                None => b.trailing_comment is None,
            }
        },
    }
}

fn header_char(c: char) -> (r: bool)
    ensures
        r == spec_header_char(c),
{
    c == '+' || c == '-' || ('0' <= c && c <= '9') || c == ' '
}

/// The block scalar whose header is on line `line`: the header must end in
/// `|` or `>` with only chomping and indentation indicators after it, come
/// after a mapping colon, sequence marker or explicit key, and have only
/// node properties in between; the body is the following lines that are
/// blank or indented past the header line.
pub fn block_scalar_at(source: &SourceBuffer, line: usize, end: usize) -> (r: Option<BlockScalar>)
    requires
        source.wf(),
        line < source.lines@.len(),
        end <= source.lines@.len(),
    ensures
        spec_block_scalar_at(source.text@, source.lines@, line as int, end as int, r),
{
    let _count = source.lines.len();
    let text = source.line_text(line);
    let ghost t = text@;
    let n = text.len();
    proof {
        crate::yaml_lines::lemma_find_unquoted(t, 0, scan_start(), '#', 0);
    }
    let tc = find_trailing_comment(text.as_slice(), 0);
    let content_end = match tc {
        Some(c) => trim_end_before(text.as_slice(), 0, c),
        None => n,
    };
    let trimmed_end = trim_end_before(text.as_slice(), 0, content_end);
    let mut m = trimmed_end;
    while m > 0 && text[m - 1] != '|' && text[m - 1] != '>'
        invariant
            m <= trimmed_end <= n,
            n == t.len(),
            t == text@,
            spec_last_block_marker(t, m as int) == spec_last_block_marker(t, trimmed_end as int),
        decreases m,
    {
        m = m - 1;
    }
    if m == 0 {
        return None;
    }
    let marker = m - 1;
    let mut k = marker + 1;
    while k < trimmed_end
        invariant
            marker < k,
            marker + 1 <= k <= trimmed_end <= n,
            n == t.len(),
            t == text@,
            forall|j: int| marker < j < k ==> spec_header_char(#[trigger] t[j]),
        decreases trimmed_end - k,
    {
        if !header_char(text[k]) {
            return None;
        }
        k = k + 1;
    }
    let indicators = sub_chars(text.as_slice(), marker + 1, trimmed_end);
    let header_info = match block_scalar_header_info(indicators.as_slice()) {
        Some(h) => h,
        None => {
            return None;
        },
    };
    let value_start = match block_scalar_value_start(text.as_slice(), marker) {
        Some(v) => v,
        None => {
            return None;
        },
    };
    let prefix = sub_chars(text.as_slice(), value_start, marker);
    if !block_scalar_metadata_prefix(prefix.as_slice()) {
        return None;
    }
    let base_indent = spaces(text.as_slice(), 0);
    let mut i = line + 1;
    proof {
        if line + 1 <= end {
            lemma_block_body_end_bounds(
                source.text@,
                source.lines@,
                line + 1,
                end as int,
                base_indent as int,
            );
        }
    }
    while i < end
        invariant
            line + 1 <= i,
            line + 1 <= end ==> i <= end,
            line + 1 > end ==> i == line + 1,
            end <= source.lines@.len(),
            source.wf(),
            line + 1 <= end ==> spec_block_body_end(
                source.text@,
                source.lines@,
                i as int,
                end as int,
                base_indent as int,
            ) == spec_block_body_end(
                source.text@,
                source.lines@,
                line + 1,
                end as int,
                base_indent as int,
            ),
        decreases end - i,
    {
        let candidate = source.line_text(i);
        let trimmed = trim(candidate.as_slice());
        if trimmed.len() == 0 || spaces(candidate.as_slice(), 0) > base_indent {
            i = i + 1;
            continue;
        }
        assert(spec_block_body_end(
            source.text@,
            source.lines@,
            i as int,
            end as int,
            base_indent as int,
        ) == i);
        break;
    }
    let l = source.lines[line];
    let body = if i == line + 1 {
        Span { start: l.full.end, end: l.full.end }
    } else {
        Span { start: l.full.end, end: source.lines[i - 1].full.end }
    };
    let trailing_comment = match tc {
        Some(c) => Some(Span { start: l.text.start + c, end: l.text.end }),
        None => None,
    };
    Some(
        BlockScalar {
            full: Span { start: l.full.start, end: body.end },
            header: l.full,
            header_info,
            value: Span { start: l.text.start + value_start, end: l.text.start + trimmed_end },
            body,
            trailing_comment,
        },
    )
}

/// A quoted scalar that starts on one line and closes on a later one.
#[derive(Debug, Clone, Copy, PartialEq, Eq, Structural)]
pub struct QuotedScalarBlock {
    pub full: Span,
    pub value: Span,
    pub trailing_comment: Option<Span>,
}

/// Where the content of the value at `value_start` on line `line` starts,
/// past its node properties and whitespace.
pub open spec fn spec_value_content_start(
    text: Seq<char>,
    lines: Seq<SourceLine>,
    line: int,
    value_start: int,
) -> int {
    let l = lines[line];
    let (vs, ve, _) = spec_split_line_value_comment(
        spec_line(text, lines, line),
        value_start,
        l.text.start as int,
    );
    let (_, _, cs, ce) = spec_scalar_metadata(text.subrange(vs, ve));
    vs + cs + spec_trim_ascii_bounds(text.subrange(vs + cs, vs + ce)).0
}

/// `r` is the quoted scalar that starts at `value_start` on line `line`
/// (after any node properties) and closes on a later line before `end`,
/// followed there only by whitespace and a comment.
pub open spec fn spec_quoted_scalar_block(
    text: Seq<char>,
    lines: Seq<SourceLine>,
    line: int,
    end: int,
    value_start: int,
    span_start: int,
    r: Option<QuotedScalarBlock>,
) -> bool {
    if line >= lines.len() {
        r is None
    } else {
        let l = lines[line];
        let start = spec_value_content_start(text, lines, line, value_start);
        if start >= text.len() || (text[start] != '\'' && text[start] != '"') {
            r is None
        } else {
            match spec_quoted_scalar_close(text, start, text[start]) {
                None => r is None,
                Some(close) => {
                    let cl = spec_line_at(lines, close, 0);
                    let c = lines[cl];
                    let local = close + 1 - c.text.start;
                    if cl == line || cl >= end || local < 0 {
                        r is None
                    } else {
                        match spec_after_flow_close(spec_line(text, lines, cl), local, local) {
                            None => r is None,
                            Some(tc) => {
                                &&& r matches Some(q)
                                &&& q.full.start == span_start
                                &&& q.full.end == c.full.end
                                &&& q.value.start == l.text.start + value_start
                                &&& q.value.end == close + 1
                                &&& match tc {
                                    Some(k) => q.trailing_comment matches Some(sp) && sp.start
                                        == c.text.start + k && sp.end == c.text.end,
                                    None => q.trailing_comment is None,
                                }
                            },
                        }
                    }
                },
            }
        }
    }
}

/// The quoted scalar that starts at `value_start` on line `line` and ends
/// on a later line before `end`, when nothing but whitespace and a comment
/// follows its closing quote.
pub fn quoted_scalar_block_from_value(
    source: &SourceBuffer,
    line: usize,
    end: usize,
    value_start: usize,
    span_start: usize,
) -> (r: Option<QuotedScalarBlock>)
    requires
        source.wf(),
        line < source.lines@.len() ==> value_start <= source.lines@[line as int].text.end
            - source.lines@[line as int].text.start,
    ensures
        spec_quoted_scalar_block(
            source.text@,
            source.lines@,
            line as int,
            end as int,
            value_start as int,
            span_start as int,
            r,
        ),
{
    if line >= source.lines.len() {
        return None;
    }
    let l = source.lines[line];
    let text = source.line_text(line);
    let lv = split_line_value_comment(text.as_slice(), value_start, l.text.start);
    let metadata = scalar_metadata(source, lv.value);
    let content = trim_span_ascii(source, metadata.content);
    if content.start >= source.text.len() {
        return None;
    }
    let first = source.text[content.start];
    if first != '\'' && first != '"' {
        return None;
    }
    let close = match quoted_scalar_close(source.text.as_slice(), content.start, first) {
        Some(c) => c,
        None => {
            return None;
        },
    };
    let close_line = source.line_at(close);
    if close_line == line || close_line >= end {
        return None;
    }
    let c = source.lines[close_line];
    let close_text = source.line_text(close_line);
    let value_end = close + 1;
    if value_end < c.text.start {
        return None;
    }
    let local = value_end - c.text.start;
    let trailing_comment = match trailing_comment_after_flow_close(
        close_text.as_slice(),
        local,
        c.text.start,
    ) {
        Some(tc) => tc,
        None => {
            return None;
        },
    };
    Some(
        QuotedScalarBlock {
            full: Span { start: span_start, end: c.full.end },
            value: Span { start: l.text.start + value_start, end: value_end },
            trailing_comment,
        },
    )
}

/// A flow collection that may span lines, with what follows its close.
#[derive(Debug, Clone, Copy, PartialEq, Eq, Structural)]
pub struct FlowCollectionBlock {
    pub span: Span,
    pub value: Span,
    pub collection: Span,
    pub trailing_comment: Option<Span>,
}

/// A flow collection scan: closed, or still open at the end of the range.
#[derive(Debug, Clone, Copy, PartialEq, Eq, Structural)]
pub enum FlowCollectionScan {
    Complete(FlowCollectionBlock),
    Incomplete,
}

/// The state of a flow collection scan between characters: the bracket
/// depth, inside single or double quotes, and after a backslash.
#[derive(Debug, Clone, Copy, PartialEq, Eq, Structural)]
pub struct FlowScanState {
    pub depth: usize,
    pub single: bool,
    pub double: bool,
    pub escaped: bool,
}

/// Scans line `t` from `index` in state `st`: the position just after the
/// bracket that closes the collection, or the state at the end of the line
/// (or at a comment inside the collection, which ends the line).
pub open spec fn spec_flow_line_scan(
    t: Seq<char>,
    scan_start: int,
    index: int,
    st: (int, bool, bool, bool),
) -> Result<(int, bool, bool, bool), int>
    decreases t.len() - index,
{
    let (depth, single, double, escaped) = st;
    if index < 0 || index >= t.len() {
        Ok(st)
    } else {
        let b = t[index];
        if double {
            if escaped {
                spec_flow_line_scan(t, scan_start, index + 1, (depth, single, double, false))
            } else if b == '\\' {
                spec_flow_line_scan(t, scan_start, index + 1, (depth, single, double, true))
            } else if b == '"' {
                spec_flow_line_scan(t, scan_start, index + 1, (depth, single, false, escaped))
            } else {
                spec_flow_line_scan(t, scan_start, index + 1, st)
            }
        } else if single {
            if b == '\'' {
                if index + 1 < t.len() && t[index + 1] == '\'' {
                    spec_flow_line_scan(t, scan_start, index + 2, st)
                } else {
                    spec_flow_line_scan(t, scan_start, index + 1, (depth, false, double, escaped))
                }
            } else {
                spec_flow_line_scan(t, scan_start, index + 1, st)
            }
        } else if b == '\'' {
            spec_flow_line_scan(t, scan_start, index + 1, (depth, true, double, escaped))
        } else if b == '"' {
            spec_flow_line_scan(t, scan_start, index + 1, (depth, single, true, escaped))
        } else if b == '#' && depth > 0 && spec_comment_can_start(t, scan_start, index) {
            Ok(st)
        } else if b == '[' || b == '{' {
            spec_flow_line_scan(t, scan_start, index + 1, (depth + 1, single, double, escaped))
        } else if (b == ']' || b == '}') && depth > 0 {
            if depth == 1 {
                Err(index + 1)
            } else {
                spec_flow_line_scan(t, scan_start, index + 1, (depth - 1, single, double, escaped))
            }
        } else {
            spec_flow_line_scan(t, scan_start, index + 1, st)
        }
    }
}

/// Scans source lines `i..end` for the bracket that closes a flow
/// collection opened at `collection_start` on line `first`: the line and
/// the position after the bracket on it.
pub open spec fn spec_flow_lines_scan(
    text: Seq<char>,
    lines: Seq<SourceLine>,
    first: int,
    collection_start: int,
    i: int,
    end: int,
    st: (int, bool, bool, bool),
) -> Option<(int, int)>
    decreases end - i,
{
    if i >= end || i < 0 || i >= lines.len() {
        None
    } else {
        let ss = if i == first {
            collection_start
        } else {
            0
        };
        match spec_flow_line_scan(spec_line(text, lines, i), ss, ss, st) {
            Err(value_end) => Some((i, value_end)),
            Ok(next) => spec_flow_lines_scan(text, lines, first, collection_start, i + 1, end, next),
        }
    }
}

/// What scanning a flow collection opened at `collection_start` on line
/// `line` finds: nothing when no `[` or `{` stands there or something other
/// than a comment follows the close; an open collection; or the closing
/// line, the position after the close on it and the trailing comment.
pub open spec fn spec_flow_collection_at(
    text: Seq<char>,
    lines: Seq<SourceLine>,
    line: int,
    end: int,
    collection_start: int,
) -> Option<Option<(int, int, Option<int>)>> {
    if line < 0 || line >= lines.len() {
        None
    } else {
        let t = spec_line(text, lines, line);
        if collection_start < 0 || collection_start >= t.len() || (t[collection_start] != '['
            && t[collection_start] != '{') {
            None
        } else {
            match spec_flow_lines_scan(
                text,
                lines,
                line,
                collection_start,
                line,
                end,
                (0, false, false, false),
            ) {
                None => Some(None),
                Some((i, value_end)) => match spec_after_flow_close(
                    spec_line(text, lines, i),
                    value_end,
                    value_end,
                ) {
                    None => None,
                    Some(tc) => Some(Some((i, value_end, tc))),
                },
            }
        }
    }
}

/// `r` is the scan result `res` for a collection that starts at column
/// `collection_start` of line `line`, with the value starting at `value_start`
/// of the source and the span at `span_start`.
pub open spec fn spec_flow_scan_matches(
    lines: Seq<SourceLine>,
    line: int,
    collection_start: int,
    value_start: int,
    span_start: int,
    res: Option<Option<(int, int, Option<int>)>>,
    r: Option<FlowCollectionScan>,
) -> bool {
    match res {
        None => r is None,
        Some(None) => r matches Some(FlowCollectionScan::Incomplete),
        Some(Some((i, value_end, tc))) => {
            let c = lines[i];
            &&& r matches Some(FlowCollectionScan::Complete(b))
            &&& b.span.start == span_start
            &&& b.span.end == c.full.end
            &&& b.collection.start == lines[line].text.start + collection_start
            &&& b.collection.end == c.text.start + value_end
            &&& b.value.start == value_start
            &&& b.value.end == b.collection.end
            &&& match tc {
                Some(k) => b.trailing_comment matches Some(sp) && sp.start == c.text.start + k
                    && sp.end == c.text.end,
                None => b.trailing_comment is None,
            }
        },
    }
}

/// The view of a scan state.
pub open spec fn spec_state(st: FlowScanState) -> (int, bool, bool, bool) {
    (st.depth as int, st.single, st.double, st.escaped)
}

/// Scans one line from `scan_start` in state `st`: `Err` with the position
/// after the closing bracket, or `Ok` with the state at the end of the
/// line.
fn scan_flow_line(t: &[char], scan_start: usize, st: FlowScanState, base: usize) -> (r: Result<
    FlowScanState,
    usize,
>)
    requires
        scan_start <= t@.len(),
        st.depth <= base + scan_start,
        base + t@.len() <= usize::MAX,
    ensures
        match spec_flow_line_scan(t@, scan_start as int, scan_start as int, spec_state(st)) {
            Ok(next) => r matches Ok(s) && spec_state(s) == next && s.depth <= base + t@.len(),
            Err(value_end) => r == Err::<FlowScanState, usize>(value_end as usize) && scan_start
                < value_end <= t@.len(),
        },
{
    let n = t.len();
    let mut depth = st.depth;
    let mut single = st.single;
    let mut double = st.double;
    let mut escaped = st.escaped;
    let mut index = scan_start;
    let ghost target = spec_flow_line_scan(t@, scan_start as int, scan_start as int, spec_state(st));
    while index < n
        invariant
            n == t@.len(),
            scan_start <= index <= n,
            depth <= base + index,
            base + n <= usize::MAX,
            spec_flow_line_scan(
                t@,
                scan_start as int,
                index as int,
                (depth as int, single, double, escaped),
            ) == target,
        decreases n - index,
    {
        let b = t[index];
        if double {
            if escaped {
                escaped = false;
            } else if b == '\\' {
                escaped = true;
            } else if b == '"' {
                double = false;
            }
            index = index + 1;
        } else if single {
            if b == '\'' && index + 1 < n && t[index + 1] == '\'' {
                index = index + 2;
            } else {
                if b == '\'' {
                    single = false;
                }
                index = index + 1;
            }
        } else if b == '\'' {
            single = true;
            index = index + 1;
        } else if b == '"' {
            double = true;
            index = index + 1;
        } else if b == '#' && depth > 0 && comment_can_start(t, scan_start, index) {
            assert(spec_flow_line_scan(
                t@,
                scan_start as int,
                index as int,
                (depth as int, single, double, escaped),
            ) == Ok::<(int, bool, bool, bool), int>((depth as int, single, double, escaped)));
            break;
        } else if b == '[' || b == '{' {
            depth = depth + 1;
            index = index + 1;
        } else if (b == ']' || b == '}') && depth > 0 {
            if depth == 1 {
                return Err(index + 1);
            }
            depth = depth - 1;
            index = index + 1;
        } else {
            index = index + 1;
        }
    }
    Ok(FlowScanState { depth, single, double, escaped })
}

/// Scans a flow collection opened by the `[` or `{` at column
/// `collection_start` of line `line`, across lines before `end`, honouring
/// quotes; a comment inside the collection ends its line. A collection
/// that closes must be followed on its line only by whitespace and a
/// comment.
pub fn flow_collection_block_at(
    source: &SourceBuffer,
    line: usize,
    end: usize,
    collection_start: usize,
    span_start: usize,
) -> (r: Option<FlowCollectionScan>)
    requires
        source.wf(),
        end <= source.lines@.len(),
    ensures
        ({
            let res = spec_flow_collection_at(
                source.text@,
                source.lines@,
                line as int,
                end as int,
                collection_start as int,
            );
            spec_flow_scan_matches(
                source.lines@,
                line as int,
                collection_start as int,
                source.lines@[line as int].text.start + collection_start,
                span_start as int,
                res,
                r,
            )
        }),
{
    if line >= source.lines.len() {
        return None;
    }
    let first = source.lines[line];
    let first_text = source.line_text(line);
    if collection_start >= first_text.len() || (first_text[collection_start] != '['
        && first_text[collection_start] != '{') {
        return None;
    }
    let mut st = FlowScanState { depth: 0, single: false, double: false, escaped: false };
    let mut i = line;
    let ghost target = spec_flow_lines_scan(
        source.text@,
        source.lines@,
        line as int,
        collection_start as int,
        line as int,
        end as int,
        (0, false, false, false),
    );
    while i < end
        invariant
            source.wf(),
            end <= source.lines@.len(),
            line < source.lines@.len(),
            line <= i,
            collection_start < first_text@.len(),
            first_text@ == spec_line(source.text@, source.lines@, line as int),
            i == line ==> st.depth == 0,
            i > line ==> st.depth <= source.lines@[i - 1].text.end,
            spec_flow_lines_scan(
                source.text@,
                source.lines@,
                line as int,
                collection_start as int,
                i as int,
                end as int,
                spec_state(st),
            ) == target,
        decreases end - i,
    {
        let l = source.lines[i];
        let text = source.line_text(i);
        let scan_start = if i == line {
            collection_start
        } else {
            0
        };
        proof {
            if i > line {
                assert(source.lines@[i - 1].full.end <= source.lines@[i as int].full.start);
            }
        }
        match scan_flow_line(text.as_slice(), scan_start, st, l.text.start) {
            Err(value_end) => {
                let tc = match trailing_comment_after_flow_close(
                    text.as_slice(),
                    value_end,
                    l.text.start,
                ) {
                    Some(tc) => tc,
                    None => {
                        return None;
                    },
                };
                let collection = Span {
                    start: first.text.start + collection_start,
                    end: l.text.start + value_end,
                };
                return Some(
                    FlowCollectionScan::Complete(
                        FlowCollectionBlock {
                            span: Span { start: span_start, end: l.full.end },
                            value: collection,
                            collection,
                            trailing_comment: tc,
                        },
                    ),
                );
            },
            Ok(next) => {
                st = next;
            },
        }
        i = i + 1;
    }
    Some(FlowCollectionScan::Incomplete)
}

/// Where a flow collection in the value at `value_start` of line `line`
/// would open: the value itself when it starts with `[` or `{`, else past
/// its node properties when it starts with a property or whitespace.
pub open spec fn spec_flow_value_collection_start(
    text: Seq<char>,
    lines: Seq<SourceLine>,
    line: int,
    value_start: int,
) -> Option<int> {
    let t = spec_line(text, lines, line);
    if value_start < 0 || value_start >= t.len() {
        None
    } else if t[value_start] == '[' || t[value_start] == '{' {
        Some(value_start)
    } else if t[value_start] == '!' || t[value_start] == '&' || spec_ascii_ws(t[value_start]) {
        let base = lines[line].text.start as int;
        let (vs, ve, _) = spec_split_line_value_comment(t, value_start, base);
        let (_, _, cs, _) = spec_scalar_metadata(text.subrange(vs, ve));
        Some(vs + cs - base)
    } else {
        None
    }
}

/// The flow collection that forms the value at `value_start` of line
/// `line`, possibly after node properties; the block's value starts at the
/// value, before the properties.
pub fn flow_collection_block_from_value(
    source: &SourceBuffer,
    line: usize,
    end: usize,
    value_start: usize,
    span_start: usize,
) -> (r: Option<FlowCollectionScan>)
    requires
        source.wf(),
        end <= source.lines@.len(),
    ensures
        line >= source.lines@.len() ==> r is None,
        line < source.lines@.len() ==> match spec_flow_value_collection_start(
            source.text@,
            source.lines@,
            line as int,
            value_start as int,
        ) {
            None => r is None,
            Some(cs) => spec_flow_scan_matches(
                source.lines@,
                line as int,
                cs,
                source.lines@[line as int].text.start + value_start,
                span_start as int,
                spec_flow_collection_at(source.text@, source.lines@, line as int, end as int, cs),
                r,
            ),
        },
{
    if line >= source.lines.len() {
        return None;
    }
    let l = source.lines[line];
    let text = source.line_text(line);
    if value_start >= text.len() {
        return None;
    }
    let c = text[value_start];
    let collection_start = if c == '[' || c == '{' {
        value_start
    } else if c == '!' || c == '&' || is_ascii_ws(c) {
        let lv = split_line_value_comment(text.as_slice(), value_start, l.text.start);
        let metadata = scalar_metadata(source, lv.value);
        metadata.content.start - l.text.start
    } else {
        return None;
    };
    let scan = flow_collection_block_at(source, line, end, collection_start, span_start);
    match scan {
        Some(FlowCollectionScan::Complete(block)) => {
            let mut b = block;
            b.value = Span { start: l.text.start + value_start, end: block.collection.end };
            Some(FlowCollectionScan::Complete(b))
        },
        other => other,
    }
}

/// `t` with leading Unicode whitespace removed.
pub open spec fn spec_trim_start(t: Seq<char>) -> Seq<char> {
    t.subrange(crate::text::spec_skip_ws(t, 0), t.len() as int)
}

/// After an explicit key at `indent`, the first line from `next` on (before
/// `end`) that is neither blank nor a comment is not an explicit value at
/// the same indentation.
pub open spec fn spec_explicit_key_multiline(
    text: Seq<char>,
    lines: Seq<SourceLine>,
    next: int,
    end: int,
    indent: int,
) -> bool
    decreases end - next,
{
    if next >= end || next < 0 {
        false
    } else {
        let t = spec_line(text, lines, next);
        let ts = spec_trim_start(t);
        if ts.len() == 0 || ts[0] == '#' {
            spec_explicit_key_multiline(text, lines, next + 1, end, indent)
        } else {
            !(spec_indentation(t) == indent && spec_indicator_at(t, indent, ':'))
        }
    }
}

/// Whether the explicit key on line `line` continues over lines instead
/// of being followed by its `:` value line.
pub fn explicit_key_has_unsupported_multiline_key(
    source: &SourceBuffer,
    line: usize,
    end: usize,
    indent: usize,
) -> (r: bool)
    requires
        source.wf(),
        line < source.lines@.len(),
        end <= source.lines@.len(),
    ensures
        r == spec_explicit_key_multiline(
            source.text@,
            source.lines@,
            line + 1,
            end as int,
            indent as int,
        ),
{
    let _count = source.lines.len();
    let mut next = line + 1;
    while next < end
        invariant
            line + 1 <= next,
            end <= source.lines@.len(),
            source.wf(),
            spec_explicit_key_multiline(
                source.text@,
                source.lines@,
                next as int,
                end as int,
                indent as int,
            ) == spec_explicit_key_multiline(
                source.text@,
                source.lines@,
                line + 1,
                end as int,
                indent as int,
            ),
        decreases end - next,
    {
        let next_text = source.line_text(next);
        let k = crate::text::skip_ws(next_text.as_slice(), 0);
        if k >= next_text.len() || next_text[k] == '#' {
            next = next + 1;
            continue;
        }
        return explicit_value_line(next_text.as_slice(), indent).is_none();
    }
    false
}

/// The characters of `text` between `a` and `b`, clamped to the text.
pub open spec fn spec_clamped_range(text: Seq<char>, a: int, b: int) -> Seq<char> {
    let e = vstd::math::min(b, text.len() as int);
    text.subrange(vmin(a, e), e)
}

pub open spec fn vmin(a: int, b: int) -> int {
    vstd::math::min(a, b)
}

/// Whether the raw text of a multi-line flow collection holds syntax the
/// formatter leaves alone: `?` or `:` at the start of a line, ` : `,
/// `::`, a comment or a quoted scalar over several lines.
pub open spec fn spec_unsupported_collection_text(c: Seq<char>) -> bool {
    spec_contains_seq(c, seq!['\n', '?']) || spec_contains_seq(c, seq!['\n', ':'])
        || spec_contains_seq(c, seq![' ', ':', ' ']) || spec_contains_seq(c, seq![':', ':'])
        || spec_contains_seq(c, seq!['#']) || spec_multiline_quote_from(c, 0, false, false, false)
}

/// Whether line `line` opens a flow collection that closes on a later line
/// (before `end`) and holds syntax the formatter leaves alone.
pub open spec fn spec_unsupported_multiline_flow(
    text: Seq<char>,
    lines: Seq<SourceLine>,
    line: int,
    end: int,
) -> bool {
    let t = spec_line(text, lines, line);
    match spec_line_flow_value_start(t) {
        None => false,
        Some(vs) => {
            let cs = spec_node_properties_content_start(t, vs);
            if spec_flow_closes_at_line_end(t, cs) {
                false
            } else {
                match spec_flow_value_collection_start(text, lines, line, vs) {
                    None => false,
                    Some(start) => match spec_flow_collection_at(text, lines, line, end, start) {
                        Some(Some((i, value_end, _))) => {
                            let a = lines[line].text.start + start;
                            let b = lines[i].text.start + value_end;
                            let last = if b > 0 {
                                b - 1
                            } else {
                                0
                            };
                            spec_line_at(lines, last, 0) != line
                                && spec_unsupported_collection_text(spec_clamped_range(text, a, b))
                        },
                        _ => false,
                    },
                }
            }
        },
    }
}

/// Whether the flow collection that line `line` opens spans lines and holds
/// syntax the formatter leaves alone.
pub fn unsupported_multiline_flow_collection(source: &SourceBuffer, line: usize, end: usize) -> (r:
    bool)
    requires
        source.wf(),
        line < source.lines@.len(),
        end <= source.lines@.len(),
    ensures
        r == spec_unsupported_multiline_flow(source.text@, source.lines@, line as int, end as int),
{
    let text = source.line_text(line);
    let value_start = match line_flow_value_start(text.as_slice()) {
        Some(v) => v,
        None => {
            return false;
        },
    };
    let collection_start = node_properties_content_start(text.as_slice(), value_start);
    if flow_collection_closes_at_line_end(text.as_slice(), collection_start) {
        return false;
    }
    let block = match flow_collection_block_from_value(
        source,
        line,
        end,
        value_start,
        source.lines[line].full.start,
    ) {
        Some(FlowCollectionScan::Complete(block)) => block,
        _ => {
            return false;
        },
    };
    let last = if block.collection.end > 0 {
        block.collection.end - 1
    } else {
        0
    };
    if source.line_at(last) == line {
        return false;
    }
    let collection = source.slice(block.collection);
    assert(collection@ == spec_clamped_range(
        source.text@,
        block.collection.start as int,
        block.collection.end as int,
    ));
    let c = collection.as_slice();
    let line_question = vec!['\n', '?'];
    let line_colon = vec!['\n', ':'];
    let spaced_colon = vec![' ', ':', ' '];
    let double_colon = vec![':', ':'];
    let hash = vec!['#'];
    assert(line_question@ == seq!['\n', '?']);
    assert(line_colon@ == seq!['\n', ':']);
    assert(spaced_colon@ == seq![' ', ':', ' ']);
    assert(double_colon@ == seq![':', ':']);
    assert(hash@ == seq!['#']);
    contains_seq(c, line_question.as_slice()) || contains_seq(c, line_colon.as_slice())
        || contains_seq(c, spaced_colon.as_slice()) || contains_seq(c, double_colon.as_slice())
        || contains_seq(c, hash.as_slice()) || flow_collection_contains_multiline_quote(c)
}

/// Line `t` without its line break and a leading byte order mark, with
/// leading Unicode whitespace trimmed.
pub open spec fn spec_line_trimmed_start(t: Seq<char>) -> Seq<char> {
    let body = t.subrange(0, spec_strip_newline(t).0);
    let b = if body.len() > 0 && body[0] == '\u{feff}' {
        body.subrange(1, body.len() as int)
    } else {
        body
    };
    spec_trim_start(b)
}

/// Whether line `line` holds YAML syntax that the formatter leaves alone:
/// directives, multi-line flow collections with unusual syntax, unclosed
/// quoted scalars, bare `:` values, explicit keys over several lines,
/// properties before a key or alone on a line, aliases as keys, and the
/// unsupported forms of mapping keys, property tokens and sequence entries.
pub open spec fn spec_unsupported_line(
    text: Seq<char>,
    lines: Seq<SourceLine>,
    line: int,
    end: int,
) -> bool {
    let t = spec_line(text, lines, line);
    let trimmed = spec_line_trimmed_start(t);
    let indent = spec_indentation(t);
    let colon = spec_mapping_colon_at(t, indent) is Some;
    if trimmed.len() == 0 || trimmed[0] == '#' {
        false
    } else if spec_single_line_flow_value(t) {
        false
    } else if trimmed[0] == '%' || spec_unsupported_multiline_flow(text, lines, line, end) {
        true
    } else if spec_unclosed_quoted_scalar(t) {
        true
    } else if trimmed[0] == ':' && !(spec_indicator_at(t, indent, ':')) {
        true
    } else if spec_indicator_at(t, indent, '?') {
        spec_explicit_key_multiline(text, lines, line + 1, end, indent)
    } else if (trimmed[0] == '&' || trimmed[0] == '!') && (colon || spec_property_only_line(
        trimmed,
    )) {
        true
    } else if trimmed[0] == '*' && colon {
        true
    } else {
        spec_unsupported_property_token(t, indent) || spec_unsupported_plain_mapping_key(t, indent)
            || spec_unsupported_sequence_entry(t, indent)
    }
}

/// Whether line `line` holds YAML syntax that the formatter leaves alone.
pub fn unsupported_yaml_line_syntax(source: &SourceBuffer, line: usize, end: usize) -> (r: bool)
    requires
        source.wf(),
        line < source.lines@.len(),
        end <= source.lines@.len(),
    ensures
        r == spec_unsupported_line(source.text@, source.lines@, line as int, end as int),
{
    let text = source.line_text(line);
    let (body_len, _) = strip_newline(text.as_slice());
    let body = sub_chars(text.as_slice(), 0, body_len);
    let b = if body.len() > 0 && body[0] == '\u{feff}' {
        sub_chars(body.as_slice(), 1, body.len())
    } else {
        body
    };
    let k = crate::text::skip_ws(b.as_slice(), 0);
    let trimmed = sub_chars(b.as_slice(), k, b.len());
    assert(trimmed@ == spec_line_trimmed_start(text@));
    if trimmed.len() == 0 || trimmed[0] == '#' {
        return false;
    }
    if single_line_flow_value_needs_no_preserve_check(text.as_slice()) {
        return false;
    }
    if trimmed[0] == '%' || unsupported_multiline_flow_collection(source, line, end) {
        return true;
    }
    if line_starts_unclosed_quoted_scalar(text.as_slice()) {
        return true;
    }
    let indent = indentation(text.as_slice());
    if trimmed[0] == ':' && explicit_value_line(text.as_slice(), indent).is_none() {
        return true;
    }
    if explicit_key_line(text.as_slice(), indent).is_some() {
        return explicit_key_has_unsupported_multiline_key(source, line, end, indent);
    }
    let colon = mapping_colon_at(text.as_slice(), indent).is_some();
    if (trimmed[0] == '&' || trimmed[0] == '!') && (colon
        || property_only_line_requires_preservation(trimmed.as_slice())) {
        return true;
    }
    if trimmed[0] == '*' && colon {
        return true;
    }
    mapping_value_has_unsupported_property_token(text.as_slice(), indent)
        || unsupported_plain_mapping_key_line(text.as_slice(), indent)
        || unsupported_sequence_entry_line(text.as_slice(), indent)
}

/// Whether lines `line..end` hold syntax the formatter leaves alone: a
/// document marker followed by a block scalar, or an unsupported line
/// outside block scalars (whose bodies are skipped).
pub open spec fn spec_unsupported_preserve_from(
    text: Seq<char>,
    lines: Seq<SourceLine>,
    line: int,
    end: int,
) -> bool
    decreases end - line,
{
    if line < 0 || line >= end || line >= lines.len() {
        false
    } else {
        let t = spec_line(text, lines, line);
        if spec_document_marker_line(t) matches Some(m) && spec_marker_content_is_block_scalar(
            t,
            m,
        ) {
            true
        } else if spec_block_header_line(t) is Some {
            let block_end = spec_block_scalar_end(text, lines, line, end);
            let next = spec_line_at(
                lines,
                if block_end > 0 {
                    block_end - 1
                } else {
                    0
                },
                0,
            ) + 1;
            if next > end {
                false
            } else if next > line {
                spec_unsupported_preserve_from(text, lines, next, end)
            } else {
                spec_unsupported_preserve_from(text, lines, line + 1, end)
            }
        } else if spec_unsupported_line(text, lines, line, end) {
            true
        } else {
            spec_unsupported_preserve_from(text, lines, line + 1, end)
        }
    }
}

/// Whether the scanned lines hold syntax the formatter leaves alone.
pub fn yaml_scan_has_unsupported_preserve_syntax(source: &SourceBuffer, scan: &YamlLineScan) -> (r:
    bool)
    requires
        source.wf(),
        scan.end_line <= source.lines@.len(),
    ensures
        r == spec_unsupported_preserve_from(
            source.text@,
            source.lines@,
            scan.start_line as int,
            scan.end_line as int,
        ),
{
    let end = scan.end_line;
    let mut line = scan.start_line;
    while line < end
        invariant
            source.wf(),
            end == scan.end_line,
            end <= source.lines@.len(),
            spec_unsupported_preserve_from(source.text@, source.lines@, line as int, end as int)
                == spec_unsupported_preserve_from(
                source.text@,
                source.lines@,
                scan.start_line as int,
                end as int,
            ),
        decreases end - line,
    {
        let text = source.line_text(line);
        match document_marker_line_info(text.as_slice()) {
            Some(marker) => {
                if document_marker_inline_content_requires_preservation(text.as_slice(), marker) {
                    return true;
                }
            },
            None => {},
        }
        match block_scalar_at(source, line, end) {
            Some(block) => {
                let last = if block.full.end > 0 {
                    block.full.end - 1
                } else {
                    0
                };
                proof {
                    let t = spec_line(source.text@, source.lines@, line as int);
                    if line + 1 <= end {
                        lemma_block_body_end_bounds(
                            source.text@,
                            source.lines@,
                            line + 1,
                            end as int,
                            spec_spaces(t, 0),
                        );
                    }
                    let i = if line + 1 <= end {
                        spec_block_body_end(source.text@, source.lines@, line + 1, end as int, spec_spaces(t, 0))
                    } else {
                        line + 1
                    };
                    if i != line + 1 {
                        assert(source.lines@[line as int].full.end <= source.lines@[i - 1].full.start);
                    }
                    assert(block.full.end >= source.lines@[line as int].full.end);
                }
                let at = source.line_at(last);
                proof {
                    if at < line {
                        assert(source.lines@[at as int].full.end <= source.lines@[line as int].full.start);
                    }
                }
                line = at + 1;
                continue;
            },
            None => {},
        }
        if unsupported_yaml_line_syntax(source, line, end) {
            return true;
        }
        line = line + 1;
    }
    false
}

/// Whether line text `t` at indentation `indent` continues a block scalar
/// whose header has indentation `header_indent`: blank, tab-led or indented
/// deeper.
pub open spec fn spec_block_body_line(t: Seq<char>, indent: int, header_indent: int) -> bool {
    let rest = t.subrange(spec_bom(t), t.len() as int);
    spec_trim(rest).len() == 0 || (rest.len() > 0 && rest[0] == '\t') || indent > header_indent
}

/// Whether a `# fmt:` directive comment stands among the scanned lines from
/// the `k`-th on, outside block scalar bodies; `header_indent` is the
/// indentation of the open block scalar's header, if any.
pub open spec fn spec_fmt_directive_from(
    text: Seq<char>,
    lines: Seq<YamlScannedLine>,
    k: int,
    header_indent: Option<int>,
) -> bool
    decreases lines.len() - k,
{
    if k < 0 || k >= lines.len() {
        false
    } else {
        let l = lines[k];
        let t = spec_clamped_slice(text, l.content);
        if header_indent matches Some(h) && spec_block_body_line(t, l.indent as int, h) {
            spec_fmt_directive_from(text, lines, k + 1, header_indent)
        } else if spec_fmt_directive_comment(t) {
            true
        } else if l.scalar matches Some(s) && s.kind == YamlScalarTokenKind::BlockScalarHeader {
            spec_fmt_directive_from(text, lines, k + 1, Some(l.indent as int))
        } else {
            spec_fmt_directive_from(text, lines, k + 1, None)
        }
    }
}

/// Whether the scanned lines hold an active `# fmt:` directive comment,
/// one outside block scalar bodies.
pub fn yaml_scan_has_active_fmt_directive(source: &SourceBuffer, scan: &YamlLineScan) -> (r: bool)
    ensures
        r == spec_fmt_directive_from(source.text@, scan.lines@, 0, None),
{
    let mut block_scalar_indent: Option<usize> = None;
    let mut k: usize = 0;
    while k < scan.lines.len()
        invariant
            k <= scan.lines@.len(),
            spec_fmt_directive_from(
                source.text@,
                scan.lines@,
                k as int,
                match block_scalar_indent {
                    Some(h) => Some(h as int),
                    None => None,
                },
            ) == spec_fmt_directive_from(source.text@, scan.lines@, 0, None),
        decreases scan.lines@.len() - k,
    {
        let line = &scan.lines[k];
        let text = source.slice(line.content);
        match block_scalar_indent {
            Some(indent) => {
                if yaml_line_is_block_scalar_body(text.as_slice(), line.indent, indent) {
                    k = k + 1;
                    continue;
                }
                block_scalar_indent = None;
            },
            None => {},
        }
        if yaml_line_has_fmt_directive_comment(text.as_slice()) {
            return true;
        }
        block_scalar_indent = match line.scalar {
            Some(s) => if s.kind == YamlScalarTokenKind::BlockScalarHeader {
                Some(line.indent)
            } else {
                None
            },
            None => None,
        };
        k = k + 1;
    }
    false
}

/// What follows the opener of a flow collection that the formatter may
/// collapse: nothing on its line, or an inline mapping key.
#[derive(Debug, Clone, Copy, PartialEq, Eq, Structural)]
pub enum FlowCollapseRest {
    Empty,
    InlineMapping { key_start: usize },
}

/// An unclosed flow collection opener whose content continues in block
/// style.
#[derive(Debug, Clone, Copy, PartialEq, Eq, Structural)]
pub struct FlowCollapseHint {
    pub opener: Span,
    pub rest: FlowCollapseRest,
}

/// Line `line` (before `end`) starts a block collection: it is not blank,
/// not a comment, has no tab in its indentation and is a sequence entry, a
/// mapping entry or an explicit key.
pub open spec fn spec_next_line_block_collection(
    text: Seq<char>,
    lines: Seq<SourceLine>,
    line: int,
    end: int,
) -> bool {
    if line >= end || line < 0 || line >= lines.len() {
        false
    } else {
        let t = spec_line(text, lines, line);
        let ts = spec_trim_start(t);
        let indent = spec_indentation(t);
        if ts.len() == 0 || ts[0] == '#' || spec_tab_in_indentation(t) is Some {
            false
        } else {
            spec_indicator_at(t, indent, '-') || spec_mapping_colon_at(t, indent) is Some
                || spec_indicator_at(t, indent, '?')
        }
    }
}

fn flow_collapse_hint_next_line_is_block_collection(source: &SourceBuffer, line: usize, end: usize) -> (r:
    bool)
    requires
        source.wf(),
        end <= source.lines@.len(),
    ensures
        r == spec_next_line_block_collection(source.text@, source.lines@, line as int, end as int),
{
    if line >= end {
        return false;
    }
    let text = source.line_text(line);
    let k = crate::text::skip_ws(text.as_slice(), 0);
    if k >= text.len() || text[k] == '#' || tab_in_indentation(text.as_slice()).is_some() {
        return false;
    }
    let indent = indentation(text.as_slice());
    sequence_line(text.as_slice(), indent).is_some() || mapping_colon_at(
        text.as_slice(),
        indent,
    ).is_some() || explicit_key_line(text.as_slice(), indent).is_some()
}

/// The collapse hint for an opener at column `opener_column` of line
/// `line`: none unless a `[` or `{` stands there that does not close; then
/// what follows it on its line: nothing (`Some(None)`, when the next line
/// starts a block collection) or, for `{` where allowed, a mapping key
/// (`Some(Some(key_start))`).
pub open spec fn spec_flow_collapse_hint_at(
    text: Seq<char>,
    lines: Seq<SourceLine>,
    line: int,
    end: int,
    opener_column: int,
    allow_inline_mapping: bool,
) -> Option<Option<int>> {
    if line < 0 || line >= lines.len() {
        None
    } else {
        let t = spec_line(text, lines, line);
        if opener_column < 0 || opener_column >= t.len() || (t[opener_column] != '['
            && t[opener_column] != '{') {
            None
        } else if spec_flow_collection_at(text, lines, line, end, opener_column) matches Some(
            Some(_),
        ) {
            None
        } else {
            let after = spec_skip_ascii_ws(t, opener_column + 1);
            if after == t.len() {
                if spec_next_line_block_collection(text, lines, line + 1, end) {
                    Some(None)
                } else {
                    None
                }
            } else if t[opener_column] == '{' && allow_inline_mapping && spec_mapping_colon_from(
                t,
                after,
            ) is Some {
                Some(Some(after))
            } else {
                None
            }
        }
    }
}

/// `r` is the hint `res` for the opener at column `opener_column` of line
/// `line`.
pub open spec fn spec_flow_collapse_matches(
    lines: Seq<SourceLine>,
    line: int,
    opener_column: int,
    res: Option<Option<int>>,
    r: Option<FlowCollapseHint>,
) -> bool {
    match res {
        None => r is None,
        Some(rest) => {
            &&& r matches Some(h)
            &&& h.opener.start == lines[line].text.start + opener_column
            &&& h.opener.end == lines[line].text.start + opener_column + 1
            &&& match rest {
                None => h.rest is Empty,
                Some(k) => h.rest matches FlowCollapseRest::InlineMapping { key_start } && key_start
                    == k,
            }
        },
    }
}

/// The collapse hint for the opener at column `opener_column` of line
/// `line`, if it is an unclosed `[` or `{` followed by block content.
pub fn flow_collapse_hint_at(
    source: &SourceBuffer,
    line: usize,
    end: usize,
    opener_column: usize,
    allow_inline_mapping: bool,
) -> (r: Option<FlowCollapseHint>)
    requires
        source.wf(),
        end <= source.lines@.len(),
    ensures
        spec_flow_collapse_matches(
            source.lines@,
            line as int,
            opener_column as int,
            spec_flow_collapse_hint_at(
                source.text@,
                source.lines@,
                line as int,
                end as int,
                opener_column as int,
                allow_inline_mapping,
            ),
            r,
        ),
{
    if line >= source.lines.len() {
        return None;
    }
    let l = source.lines[line];
    let text = source.line_text(line);
    if opener_column >= text.len() {
        return None;
    }
    let opener = text[opener_column];
    if opener != '[' && opener != '{' {
        return None;
    }
    match flow_collection_block_from_value(source, line, end, opener_column, l.full.start) {
        Some(FlowCollectionScan::Complete(_)) => {
            return None;
        },
        _ => {},
    }
    let after_opener = skip_ascii_ws(text.as_slice(), opener_column + 1);
    proof {
        crate::text::lemma_skip_ascii_ws(text@, opener_column + 1);
    }
    let rest = if after_opener == text.len() {
        if !flow_collapse_hint_next_line_is_block_collection(source, line + 1, end) {
            return None;
        }
        FlowCollapseRest::Empty
    } else if opener == '{' && allow_inline_mapping && mapping_colon_from(
        text.as_slice(),
        after_opener,
    ).is_some() {
        FlowCollapseRest::InlineMapping { key_start: after_opener }
    } else {
        return None;
    };
    Some(
        FlowCollapseHint {
            opener: Span {
                start: l.text.start + opener_column,
                end: l.text.start + opener_column + 1,
            },
            rest,
        },
    )
}

/// The collapse hint for the value at `value_start` of line `line`: none
/// when the value has a tag or anchor, else that of the opener where its
/// content starts.
pub open spec fn spec_flow_collapse_opener_column(
    text: Seq<char>,
    lines: Seq<SourceLine>,
    line: int,
    value_start: int,
) -> Option<int> {
    let l = lines[line];
    let (tag, anchor, cs, _) = spec_scalar_metadata(
        text.subrange(l.text.start + value_start, l.text.end as int),
    );
    if tag is Some || anchor is Some {
        None
    } else {
        Some(value_start + cs)
    }
}

/// The collapse hint of the value at `value_start` of line `line`.
pub fn flow_collapse_hint_from_value(
    source: &SourceBuffer,
    line: usize,
    end: usize,
    value_start: usize,
    allow_inline_mapping: bool,
) -> (r: Option<FlowCollapseHint>)
    requires
        source.wf(),
        end <= source.lines@.len(),
        line < source.lines@.len() ==> value_start <= source.lines@[line as int].text.end
            - source.lines@[line as int].text.start,
    ensures
        line >= source.lines@.len() ==> r is None,
        line < source.lines@.len() ==> match spec_flow_collapse_opener_column(
            source.text@,
            source.lines@,
            line as int,
            value_start as int,
        ) {
            None => r is None,
            Some(column) => spec_flow_collapse_matches(
                source.lines@,
                line as int,
                column,
                spec_flow_collapse_hint_at(
                    source.text@,
                    source.lines@,
                    line as int,
                    end as int,
                    column,
                    allow_inline_mapping,
                ),
                r,
            ),
        },
{
    if line >= source.lines.len() {
        return None;
    }
    let l = source.lines[line];
    let value = Span { start: l.text.start + value_start, end: l.text.end };
    let metadata = scalar_metadata(source, value);
    if metadata.tag.is_some() || metadata.anchor.is_some() {
        return None;
    }
    let opener_column = metadata.content.start - l.text.start;
    flow_collapse_hint_at(source, line, end, opener_column, allow_inline_mapping)
}

/// The collapse hint of a line that holds only an opener at its
/// indentation, not below `min_indent`.
pub fn flow_collapse_hint_from_standalone_opener(
    source: &SourceBuffer,
    line: usize,
    end: usize,
    min_indent: usize,
) -> (r: Option<FlowCollapseHint>)
    requires
        source.wf(),
        end <= source.lines@.len(),
    ensures
        ({
            let indent = spec_indentation(spec_line(source.text@, source.lines@, line as int));
            if line >= end || indent < min_indent {
                r is None
            } else {
                match spec_flow_collapse_hint_at(
                    source.text@,
                    source.lines@,
                    line as int,
                    end as int,
                    indent,
                    false,
                ) {
                    Some(None) => spec_flow_collapse_matches(
                        source.lines@,
                        line as int,
                        indent,
                        Some(None),
                        r,
                    ),
                    _ => r is None,
                }
            }
        }),
{
    if line >= end {
        return None;
    }
    let text = source.line_text(line);
    let indent = indentation(text.as_slice());
    if indent < min_indent {
        return None;
    }
    let hint = match flow_collapse_hint_at(source, line, end, indent, false) {
        Some(h) => h,
        None => {
            return None;
        },
    };
    match hint.rest {
        FlowCollapseRest::Empty => Some(hint),
        _ => None,
    }
}

/// Whether line `line` has a sequence, mapping or explicit value whose
/// content is a flow collection the formatter may collapse.
pub open spec fn spec_line_has_collapse_hint(
    text: Seq<char>,
    lines: Seq<SourceLine>,
    line: int,
    end: int,
) -> bool {
    if line >= end || line < 0 || line >= lines.len() {
        false
    } else {
        let t = spec_line(text, lines, line);
        let indent = spec_indentation(t);
        let start = if spec_indicator_at(t, indent, '-') {
            Some(spec_skip_ascii_ws(t, indent + 1))
        } else {
            match spec_mapping_colon_at(t, indent) {
                Some(c) => Some(spec_skip_ascii_ws(t, c + 1)),
                None => if spec_indicator_at(t, indent, ':') {
                    Some(spec_skip_ascii_ws(t, indent + 1))
                } else {
                    None
                },
            }
        };
        match start {
            None => false,
            Some(vs) => match spec_flow_collapse_opener_column(text, lines, line, vs) {
                None => false,
                Some(column) => spec_flow_collapse_hint_at(text, lines, line, end, column, true) is Some,
            },
        }
    }
}

/// Whether line `line` has a value that is a collapsible flow collection.
pub fn line_has_flow_collapse_hint_value(source: &SourceBuffer, line: usize, end: usize) -> (r: bool)
    requires
        source.wf(),
        end <= source.lines@.len(),
    ensures
        r == spec_line_has_collapse_hint(source.text@, source.lines@, line as int, end as int),
{
    if line >= end {
        return false;
    }
    let text = source.line_text(line);
    let indent = indentation(text.as_slice());
    let value_start = if let Some(marker) = sequence_line(text.as_slice(), indent) {
        proof {
            crate::text::lemma_skip_ascii_ws(text@, marker + 1);
        }
        skip_ascii_ws(text.as_slice(), marker + 1)
    } else if let Some(colon) = mapping_colon_at(text.as_slice(), indent) {
        proof {
            crate::text::lemma_skip_ascii_ws(text@, colon + 1);
        }
        skip_ascii_ws(text.as_slice(), colon + 1)
    } else if let Some(colon) = explicit_value_line(text.as_slice(), indent) {
        proof {
            crate::text::lemma_skip_ascii_ws(text@, colon + 1);
        }
        skip_ascii_ws(text.as_slice(), colon + 1)
    } else {
        return false;
    };
    flow_collapse_hint_from_value(source, line, end, value_start, true).is_some()
}

} // verus!
