//! Line-level YAML rewrites: a header line of a simple YAML block, flow
//! values with normalized spacing, and aligned tables of flow mapping rows.
use vstd::prelude::*;
use crate::text::{
    is_ws, lemma_skip_ws_bounds, lemma_trim_ws_end_bounds, lemma_trim_idempotent, lemma_trim_leading_ws, lemma_trim_shape, lemma_trim_trimmed, push_all,
    push_repeat, skip_ws, spec_skip_ws, spec_trim, spec_trim_ws_end, spec_ws, sub_chars, trim, trim_ws_end,
};
use crate::yaml_lines::{
    lemma_find_unquoted, newline_chars, simple_mapping_colon, spec_find_unquoted, spec_newline_chars,
    spec_scan_hit, spec_scan_step, spec_strip_newline, scan_start, strip_newline, Newline, ScanState,
};

verus! {

/// The views of a sequence of character vectors.
pub open spec fn char_views(v: Seq<Vec<char>>) -> Seq<Seq<char>> {
    v.map_values(|x: Vec<char>| x@)
}

/// `str::split` on one separator character, from the piece that starts at
/// `start` with the scan at `i`.
pub open spec fn spec_split_from(s: Seq<char>, start: int, i: int, sep: char) -> Seq<Seq<char>>
    decreases s.len() - i,
{
    if i < 0 || i >= s.len() {
        seq![s.subrange(start, s.len() as int)]
    } else if s[i] == sep {
        seq![s.subrange(start, i)] + spec_split_from(s, i + 1, i + 1, sep)
    } else {
        spec_split_from(s, start, i + 1, sep)
    }
}

/// `str::split(sep)`: the pieces between the separators.
pub open spec fn spec_split(s: Seq<char>, sep: char) -> Seq<Seq<char>> {
    spec_split_from(s, 0, 0, sep)
}

pub proof fn lemma_split_from_nonempty(s: Seq<char>, start: int, i: int, sep: char)
    ensures
        spec_split_from(s, start, i, sep).len() >= 1,
    decreases s.len() - i,
{
    if 0 <= i < s.len() {
        if s[i] == sep {
            lemma_split_from_nonempty(s, i + 1, i + 1, sep);
        } else {
            lemma_split_from_nonempty(s, start, i + 1, sep);
        }
    }
}

/// `str::split` always gives at least one piece.
pub proof fn lemma_split_nonempty(s: Seq<char>, sep: char)
    ensures
        spec_split(s, sep).len() >= 1,
{
    lemma_split_from_nonempty(s, 0, 0, sep);
}

/// Splits `s` at every `sep`.
pub fn split_char(s: &[char], sep: char) -> (r: Vec<Vec<char>>)
    ensures
        char_views(r@) == spec_split(s@, sep),
        forall|k: int| 0 <= k < r@.len() ==> (#[trigger] r@[k])@.len() <= s@.len(),
{
    let n = s.len();
    let mut pieces: Vec<Vec<char>> = Vec::new();
    let mut start: usize = 0;
    let mut i: usize = 0;
    while i < n
        invariant
            n == s@.len(),
            start <= i <= n,
            char_views(pieces@) + spec_split_from(s@, start as int, i as int, sep) == spec_split(s@, sep),
            forall|k: int| 0 <= k < pieces@.len() ==> (#[trigger] pieces@[k])@.len() <= s@.len(),
        decreases n - i,
    {
        if s[i] == sep {
            let piece = sub_chars(s, start, i);
            let ghost before = pieces@;
            pieces.push(piece);
            proof {
                assert(char_views(pieces@) == char_views(before).push(piece@));
                assert(spec_split_from(s@, start as int, i as int, sep) == seq![piece@] + spec_split_from(
                    s@,
                    i + 1,
                    i + 1,
                    sep,
                ));
                assert(char_views(pieces@) + spec_split_from(s@, i + 1, i + 1, sep) == char_views(before)
                    + spec_split_from(s@, start as int, i as int, sep));
            }
            i = i + 1;
            start = i;
        } else {
            i = i + 1;
        }
    }
    let piece = sub_chars(s, start, n);
    let ghost before = pieces@;
    pieces.push(piece);
    assert(char_views(pieces@) == char_views(before).push(piece@));
    pieces
}

/// The pieces joined with `, ` between them.
pub open spec fn spec_join(items: Seq<Seq<char>>) -> Seq<char>
    decreases items.len(),
{
    if items.len() == 0 {
        seq![]
    } else if items.len() == 1 {
        items[0]
    } else {
        spec_join(items.drop_last()) + seq![',', ' '] + items.last()
    }
}

proof fn lemma_join_step(items: Seq<Seq<char>>, k: int)
    requires
        0 <= k < items.len(),
    ensures
        spec_join(items.subrange(0, k + 1)) == if k == 0 {
            items[0]
        } else {
            spec_join(items.subrange(0, k)) + seq![',', ' '] + items[k]
        },
{
    assert(items.subrange(0, k + 1).drop_last() == items.subrange(0, k));
}

/// The first position of `c` in `s` at or after `from`.
pub open spec fn spec_first_index(s: Seq<char>, c: char, from: int) -> Option<int>
    decreases s.len() - from,
{
    if from < 0 || from >= s.len() {
        None
    } else if s[from] == c {
        Some(from)
    } else {
        spec_first_index(s, c, from + 1)
    }
}

pub proof fn lemma_first_index(s: Seq<char>, c: char, from: int)
    requires
        0 <= from,
    ensures
        spec_first_index(s, c, from) matches Some(k) ==> from <= k < s.len() && s[k] == c,
    decreases s.len() - from,
{
    if from < s.len() && s[from] != c {
        lemma_first_index(s, c, from + 1);
    }
}

/// Finds the first `c` in `s`.
pub fn first_index(s: &[char], c: char) -> (r: Option<usize>)
    ensures
        match spec_first_index(s@, c, 0) {
            Some(k) => r == Some(k as usize),
            None => r is None,
        },
{
    let mut i: usize = 0;
    while i < s.len()
        invariant
            i <= s@.len(),
            spec_first_index(s@, c, i as int) == spec_first_index(s@, c, 0),
        decreases s@.len() - i,
    {
        if s[i] == c {
            return Some(i);
        }
        i = i + 1;
    }
    None
}

/// One item of a flow mapping: `key: value` with both sides trimmed when it
/// holds a colon, else the trimmed item.
pub open spec fn spec_flow_pair(p: Seq<char>) -> Seq<char> {
    match spec_first_index(p, ':', 0) {
        Some(k) => spec_trim(p.subrange(0, k)) + seq![':', ' '] + spec_trim(p.subrange(k + 1, p.len() as int)),
        None => spec_trim(p),
    }
}

/// A flow value with normalized spacing: a one-line flow sequence gets one
/// space after each comma, a one-line flow mapping gets `key: value` items,
/// anything else is only trimmed.
pub open spec fn spec_normalize_flow_value(value: Seq<char>) -> Seq<char> {
    let t = spec_trim(value);
    if t.len() >= 2 && t[0] == '[' && t[t.len() - 1] == ']' {
        seq!['['] + spec_join(spec_split(t.subrange(1, t.len() - 1), ',').map_values(|p: Seq<char>| spec_trim(p)))
            + seq![']']
    } else if t.len() >= 2 && t[0] == '{' && t[t.len() - 1] == '}' {
        seq!['{'] + spec_join(
            spec_split(t.subrange(1, t.len() - 1), ',').map_values(|p: Seq<char>| spec_flow_pair(p)),
        ) + seq!['}']
    } else {
        t
    }
}

/// The item of a flow mapping, rendered.
fn flow_pair(p: &[char]) -> (r: Vec<char>)
    ensures
        r@ == spec_flow_pair(p@),
{
    match first_index(p, ':') {
        Some(k) => {
            proof {
                lemma_first_index(p@, ':', 0);
            }
            let n = p.len();
            let key = sub_chars(p, 0, k);
            let value = sub_chars(p, k + 1, n);
            let mut out = trim(key.as_slice());
            out.push(':');
            out.push(' ');
            let v = trim(value.as_slice());
            push_all(&mut out, v.as_slice());
            out
        },
        None => trim(p),
    }
}

/// Normalizes the spacing of a one-line flow value.
pub fn normalize_flow_value(value: &[char]) -> (r: Vec<char>)
    ensures
        r@ == spec_normalize_flow_value(value@),
{
    let t = trim(value);
    let n = t.len();
    let is_seq = n >= 2 && t[0] == '[' && t[n - 1] == ']';
    let is_map = n >= 2 && t[0] == '{' && t[n - 1] == '}';
    if !is_seq && !is_map {
        return t;
    }
    let inner = sub_chars(t.as_slice(), 1, n - 1);
    let pieces = split_char(inner.as_slice(), ',');
    let ghost items = if is_seq {
        spec_split(inner@, ',').map_values(|p: Seq<char>| spec_trim(p))
    } else {
        spec_split(inner@, ',').map_values(|p: Seq<char>| spec_flow_pair(p))
    };
    let mut out: Vec<char> = Vec::new();
    out.push(if is_seq {
        '['
    } else {
        '{'
    });
    let ghost open = out@;
    let mut k: usize = 0;
    assert(items.subrange(0, 0) == Seq::<Seq<char>>::empty());
    while k < pieces.len()
        invariant
            k <= pieces@.len(),
            char_views(pieces@) == spec_split(inner@, ','),
            items.len() == pieces@.len(),
            is_seq ==> items == spec_split(inner@, ',').map_values(|p: Seq<char>| spec_trim(p)),
            !is_seq ==> items == spec_split(inner@, ',').map_values(|p: Seq<char>| spec_flow_pair(p)),
            out@ == open + spec_join(items.subrange(0, k as int)),
        decreases pieces@.len() - k,
    {
        proof {
            lemma_join_step(items, k as int);
            assert(pieces@[k as int]@ == char_views(pieces@)[k as int]);
        }
        if k > 0 {
            out.push(',');
            out.push(' ');
        }
        let item = if is_seq {
            trim(pieces[k].as_slice())
        } else {
            flow_pair(pieces[k].as_slice())
        };
        push_all(&mut out, item.as_slice());
        k = k + 1;
    }
    assert(items.subrange(0, items.len() as int) == items);
    out.push(if is_seq {
        ']'
    } else {
        '}'
    });
    out
}

/// The number of spaces at the start of `s[from..]`.
pub open spec fn spec_space_run(s: Seq<char>, from: int) -> int
    decreases s.len() - from,
{
    if from < 0 || from >= s.len() || s[from] != ' ' {
        from
    } else {
        spec_space_run(s, from + 1)
    }
}

fn space_run(s: &[char], from: usize) -> (r: usize)
    requires
        from <= s@.len(),
    ensures
        r == spec_space_run(s@, from as int),
        from <= r <= s@.len(),
{
    let mut i = from;
    while i < s.len() && s[i] == ' '
        invariant
            from <= i <= s@.len(),
            spec_space_run(s@, i as int) == spec_space_run(s@, from as int),
        decreases s@.len() - i,
    {
        i = i + 1;
    }
    i
}

/// A header line rebuilt from its indentation, its trimmed content and its
/// line break: a sequence entry gets one space after its `-`, a mapping
/// entry `key: value` with the value's flow spacing normalized.
pub open spec fn spec_format_yaml_parts(indent: Seq<char>, trimmed: Seq<char>, nl: Seq<char>) -> Seq<char> {
    if trimmed.len() == 1 && trimmed[0] == '-' {
        indent + seq!['-'] + nl
    } else if trimmed.len() >= 2 && trimmed[0] == '-' && spec_ws(trimmed[1]) {
        let rest = trimmed.subrange(1, trimmed.len() as int);
        indent + seq!['-', ' '] + spec_normalize_flow_value(rest.subrange(spec_skip_ws(rest, 0), rest.len() as int))
            + nl
    } else {
        match spec_find_unquoted(trimmed, 0, scan_start(), ':', 0) {
            Some(colon) => {
                let key = trimmed.subrange(0, spec_trim_ws_end(trimmed, 0, colon));
                let after = trimmed.subrange(colon + 1, trimmed.len() as int);
                let value = spec_normalize_flow_value(after.subrange(spec_skip_ws(after, 0), after.len() as int));
                if value.len() == 0 {
                    indent + key + seq![':'] + nl
                } else {
                    indent + key + seq![':', ' '] + value + nl
                }
            },
            None => indent + trimmed + nl,
        }
    }
}

/// How a simple YAML block header line is reformatted: the indentation
/// (with a leading byte-order mark) is kept, trailing whitespace goes, and
/// the line break is kept.
pub open spec fn spec_format_simple_yaml_line(line: Seq<char>) -> Seq<char> {
    let (body_len, newline) = spec_strip_newline(line);
    let body = line.subrange(0, body_len);
    let bom = if body.len() > 0 && body[0] == '\u{feff}' {
        1int
    } else {
        0int
    };
    let indent_len = spec_space_run(body, bom);
    spec_format_yaml_parts(
        body.subrange(0, indent_len),
        body.subrange(indent_len, spec_trim_ws_end(body, indent_len, body.len() as int)),
        spec_newline_chars(newline),
    )
}

/// Rebuilds a header line from its parts.
fn format_yaml_parts(indent: Vec<char>, trimmed: &[char], nl: &[char]) -> (r: Vec<char>)
    ensures
        r@ == spec_format_yaml_parts(indent@, trimmed@, nl@),
{
    let mut out = indent;
    let ghost indent_v = indent@;
    let tn = trimmed.len();
    if tn == 1 && trimmed[0] == '-' {
        out.push('-');
        push_all(&mut out, nl);
        return out;
    }
    if tn >= 2 && trimmed[0] == '-' && is_ws(trimmed[1]) {
        let rest = sub_chars(trimmed, 1, tn);
        let start = skip_ws(rest.as_slice(), 0);
        let rest_start = sub_chars(rest.as_slice(), start, rest.len());
        let value = normalize_flow_value(rest_start.as_slice());
        out.push('-');
        out.push(' ');
        push_all(&mut out, value.as_slice());
        push_all(&mut out, nl);
        return out;
    }
    proof {
        crate::yaml_lines::lemma_find_unquoted(trimmed@, 0, scan_start(), ':', 0);
    }
    match simple_mapping_colon(trimmed) {
        Some(colon) => {
            let key_end = trim_ws_end(trimmed, 0, colon);
            let key = sub_chars(trimmed, 0, key_end);
            let after = sub_chars(trimmed, colon + 1, tn);
            let start = skip_ws(after.as_slice(), 0);
            let after_start = sub_chars(after.as_slice(), start, after.len());
            let value = normalize_flow_value(after_start.as_slice());
            push_all(&mut out, key.as_slice());
            out.push(':');
            if value.len() > 0 {
                out.push(' ');
                push_all(&mut out, value.as_slice());
            }
            push_all(&mut out, nl);
            assert(value.len() == 0 ==> out@ == indent_v + key@ + seq![':'] + nl@);
            assert(value.len() > 0 ==> out@ == indent_v + key@ + seq![':', ' '] + value@ + nl@);
        },
        None => {
            push_all(&mut out, trimmed);
            push_all(&mut out, nl);
        },
    }
    out
}

/// Reformats one header line of a simple YAML block.
pub fn format_simple_yaml_line(line: &str) -> (r: String)
    ensures
        r@ == spec_format_simple_yaml_line(line@),
{
    let chars = crate::text::str_chars(line);
    let (body_len, newline) = strip_newline(chars.as_slice());
    let body = sub_chars(chars.as_slice(), 0, body_len);
    let bom: usize = if body.len() > 0 && body[0] == '\u{feff}' {
        1
    } else {
        0
    };
    let indent_len = space_run(body.as_slice(), bom);
    let indent = sub_chars(body.as_slice(), 0, indent_len);
    let trimmed_end = trim_ws_end(body.as_slice(), indent_len, body.len());
    let trimmed = sub_chars(body.as_slice(), indent_len, trimmed_end);
    let nl = newline_chars(newline);
    let out = format_yaml_parts(indent, trimmed.as_slice(), nl.as_slice());
    crate::text::chars_to_string(out.as_slice())
}

/// `str::split_inclusive('\n')`: the lines with their `\n`, the last one
/// without it when the text does not end in `\n`; no line for empty text.
pub open spec fn spec_split_lines_from(s: Seq<char>, start: int, i: int) -> Seq<Seq<char>>
    decreases s.len() - i,
{
    if i < 0 || i >= s.len() {
        if 0 <= start < s.len() {
            seq![s.subrange(start, s.len() as int)]
        } else {
            seq![]
        }
    } else if s[i] == '\n' {
        seq![s.subrange(start, i + 1)] + spec_split_lines_from(s, i + 1, i + 1)
    } else {
        spec_split_lines_from(s, start, i + 1)
    }
}

/// Splits `s` into lines that keep their `\n`.
pub fn split_lines_inclusive(s: &[char]) -> (r: Vec<Vec<char>>)
    ensures
        char_views(r@) == spec_split_lines_from(s@, 0, 0),
        forall|k: int| 0 <= k < r@.len() ==> (#[trigger] r@[k])@.len() <= s@.len(),
{
    let n = s.len();
    let mut lines: Vec<Vec<char>> = Vec::new();
    let mut start: usize = 0;
    let mut i: usize = 0;
    while i < n
        invariant
            n == s@.len(),
            start <= i <= n,
            char_views(lines@) + spec_split_lines_from(s@, start as int, i as int) == spec_split_lines_from(
                s@,
                0,
                0,
            ),
            forall|k: int| 0 <= k < lines@.len() ==> (#[trigger] lines@[k])@.len() <= s@.len(),
        decreases n - i,
    {
        if s[i] == '\n' {
            let line = sub_chars(s, start, i + 1);
            let ghost before = lines@;
            lines.push(line);
            proof {
                assert(char_views(lines@) == char_views(before).push(line@));
                assert(spec_split_lines_from(s@, start as int, i as int) == seq![line@] + spec_split_lines_from(
                    s@,
                    i + 1,
                    i + 1,
                ));
                assert(char_views(lines@) + spec_split_lines_from(s@, i + 1, i + 1) == char_views(before)
                    + spec_split_lines_from(s@, start as int, i as int));
            }
            i = i + 1;
            start = i;
        } else {
            i = i + 1;
        }
    }
    if start < n {
        let line = sub_chars(s, start, n);
        let ghost before = lines@;
        lines.push(line);
        assert(char_views(lines@) == char_views(before).push(line@));
    } else {
        assert(char_views(lines@) + seq![] == char_views(lines@));
    }
    lines
}

/// A piece of `split_inclusive('\n')` as `str::lines` gives it: without its
/// `\n`, and without a `\r` right before that `\n`.
pub open spec fn spec_str_line(l: Seq<char>) -> Seq<char> {
    if l.len() > 0 && l.last() == '\n' {
        let m = l.drop_last();
        if m.len() > 0 && m.last() == '\r' {
            m.drop_last()
        } else {
            m
        }
    } else {
        l
    }
}

/// `str::lines`: split after `\n`, each line without its `\n` or `\r\n`; a
/// `\r` not followed by `\n` stays in its line.
pub open spec fn spec_str_lines(s: Seq<char>) -> Seq<Seq<char>> {
    spec_split_lines_from(s, 0, 0).map_values(|l: Seq<char>| spec_str_line(l))
}

/// The lines of `s` as `str::lines` gives them.
pub fn str_lines(s: &[char]) -> (r: Vec<Vec<char>>)
    ensures
        char_views(r@) == spec_str_lines(s@),
{
    let pieces = split_lines_inclusive(s);
    let ghost pv = char_views(pieces@);
    let mut out: Vec<Vec<char>> = Vec::new();
    let mut k: usize = 0;
    while k < pieces.len()
        invariant
            k <= pieces@.len(),
            pv == char_views(pieces@),
            pv == spec_split_lines_from(s@, 0, 0),
            char_views(out@) == pv.subrange(0, k as int).map_values(|l: Seq<char>| spec_str_line(l)),
        decreases pieces@.len() - k,
    {
        let p = &pieces[k];
        let n = p.len();
        let end = if n > 0 && p[n - 1] == '\n' {
            if n > 1 && p[n - 2] == '\r' {
                n - 2
            } else {
                n - 1
            }
        } else {
            n
        };
        let line = sub_chars(p.as_slice(), 0, end);
        proof {
            if n > 0 && p@[n - 1] == '\n' {
                assert(p@.drop_last() =~= p@.subrange(0, n - 1));
                if n > 1 && p@[n - 2] == '\r' {
                    assert(p@.drop_last().drop_last() =~= p@.subrange(0, n - 2));
                }
            } else {
                assert(p@ =~= p@.subrange(0, n as int));
            }
            assert(line@ == spec_str_line(pv[k as int]));
        }
        let ghost before = out@;
        out.push(line);
        proof {
            assert(char_views(out@) =~= char_views(before).push(line@));
            assert(pv.subrange(0, k + 1).map_values(|l: Seq<char>| spec_str_line(l)) =~= pv.subrange(0, k as int).map_values(
                |l: Seq<char>| spec_str_line(l),
            ).push(spec_str_line(pv[k as int])));
        }
        k = k + 1;
    }
    assert(pv.subrange(0, pieces@.len() as int) =~= pv);
    out
}

/// One `key: value` field of a flow mapping row, both sides trimmed and
/// nonempty.
pub open spec fn spec_row_field(part: Seq<char>) -> Option<(Seq<char>, Seq<char>)> {
    match spec_first_index(part, ':', 0) {
        None => None,
        Some(k) => {
            let key = spec_trim(part.subrange(0, k));
            let value = spec_trim(part.subrange(k + 1, part.len() as int));
            if key.len() == 0 || value.len() == 0 {
                None
            } else {
                Some((key, value))
            }
        },
    }
}

/// The fields of the comma-separated parts, or `None` when one is no field.
pub open spec fn spec_row_fields(parts: Seq<Seq<char>>) -> Option<Seq<(Seq<char>, Seq<char>)>>
    decreases parts.len(),
{
    if parts.len() == 0 {
        Some(seq![])
    } else {
        match spec_row_fields(parts.drop_last()) {
            None => None,
            Some(fields) => match spec_row_field(parts.last()) {
                None => None,
                Some(f) => Some(fields.push(f)),
            },
        }
    }
}

/// The fields of a row `- {key: value, ...}`.
pub open spec fn spec_parse_flow_mapping_row(t: Seq<char>) -> Option<Seq<(Seq<char>, Seq<char>)>> {
    if t.len() >= 4 && t[0] == '-' && t[1] == ' ' && t[2] == '{' && t[t.len() - 1] == '}' {
        spec_row_fields(spec_split(t.subrange(3, t.len() - 1), ','))
    } else {
        None
    }
}

/// The views of a vector of fields.
pub open spec fn field_views(v: Seq<(Vec<char>, Vec<char>)>) -> Seq<(Seq<char>, Seq<char>)> {
    v.map_values(|f: (Vec<char>, Vec<char>)| (f.0@, f.1@))
}

/// Parses a row `- {key: value, ...}` into its fields.
pub fn parse_flow_mapping_row(t: &[char]) -> (r: Option<Vec<(Vec<char>, Vec<char>)>>)
    ensures
        match spec_parse_flow_mapping_row(t@) {
            Some(fields) => r matches Some(v) && field_views(v@) == fields,
            None => r is None,
        },
        r matches Some(v) ==> forall|k: int| 0 <= k < v@.len() ==> (#[trigger] v@[k]).0@.len() + v@[k].1@.len() + 2 <= t@.len(),
{
    let n = t.len();
    if !(n >= 4 && t[0] == '-' && t[1] == ' ' && t[2] == '{' && t[n - 1] == '}') {
        return None;
    }
    let inner = sub_chars(t, 3, n - 1);
    let parts = split_char(inner.as_slice(), ',');
    let ghost all = spec_split(inner@, ',');
    let mut fields: Vec<(Vec<char>, Vec<char>)> = Vec::new();
    let mut k: usize = 0;
    assert(all.subrange(0, 0) == Seq::<Seq<char>>::empty());
    while k < parts.len()
        invariant
            k <= parts@.len(),
            char_views(parts@) == all,
            spec_row_fields(all.subrange(0, k as int)) == Some(field_views(fields@)),
            forall|x: int| 0 <= x < parts@.len() ==> (#[trigger] parts@[x])@.len() <= inner@.len(),
            inner@.len() + 4 == t@.len(),
            forall|x: int| 0 <= x < fields@.len() ==> (#[trigger] fields@[x]).0@.len() + fields@[x].1@.len() + 2 <= t@.len(),
        decreases parts@.len() - k,
    {
        let part = &parts[k];
        proof {
            assert(all.subrange(0, k + 1).drop_last() == all.subrange(0, k as int));
            assert(all.subrange(0, k + 1).last() == part@);
            lemma_first_index(part@, ':', 0);
        }
        let colon = match first_index(part.as_slice(), ':') {
            Some(c) => c,
            None => {
                proof {
                    assert(spec_row_fields(all.subrange(0, k + 1)) is None);
                    lemma_row_fields_none(all, k as int + 1);
                }
                return None;
            },
        };
        let plen = part.len();
        let key = trim(sub_chars(part.as_slice(), 0, colon).as_slice());
        let value = trim(sub_chars(part.as_slice(), colon + 1, plen).as_slice());
        if key.len() == 0 || value.len() == 0 {
            proof {
                assert(spec_row_fields(all.subrange(0, k + 1)) is None);
                lemma_row_fields_none(all, k as int + 1);
            }
            return None;
        }
        let ghost before = fields@;
        fields.push((key, value));
        proof {
            assert(field_views(fields@) == field_views(before).push((key@, value@)));
        }
        k = k + 1;
    }
    assert(all.subrange(0, all.len() as int) == all);
    Some(fields)
}

/// Once a prefix of the parts holds a non-field, so does every longer one.
proof fn lemma_row_fields_none(parts: Seq<Seq<char>>, k: int)
    requires
        0 <= k <= parts.len(),
        spec_row_fields(parts.subrange(0, k)) is None,
    ensures
        spec_row_fields(parts) is None,
    decreases parts.len() - k,
{
    if k < parts.len() {
        assert(parts.subrange(0, k + 1).drop_last() == parts.subrange(0, k));
        lemma_row_fields_none(parts, k + 1);
    } else {
        assert(parts.subrange(0, k) == parts);
    }
}

/// A row of a flow table: indentation, fields and line break.
#[derive(Debug)]
pub struct FlowRow {
    pub indent: Vec<char>,
    pub fields: Vec<(Vec<char>, Vec<char>)>,
    pub newline: Vec<char>,
}

impl View for FlowRow {
    type V = (Seq<char>, Seq<(Seq<char>, Seq<char>)>, Seq<char>);

    open spec fn view(&self) -> (Seq<char>, Seq<(Seq<char>, Seq<char>)>, Seq<char>) {
        (self.indent@, field_views(self.fields@), self.newline@)
    }
}

/// The row of one table line: its leading spaces, the fields of the trimmed
/// rest, and its line break.
pub open spec fn spec_table_row(line: Seq<char>) -> Option<(Seq<char>, Seq<(Seq<char>, Seq<char>)>, Seq<char>)> {
    let (body_len, newline) = spec_strip_newline(line);
    let body = line.subrange(0, body_len);
    let indent_len = spec_space_run(body, 0);
    match spec_parse_flow_mapping_row(spec_trim(body.subrange(indent_len, body.len() as int))) {
        None => None,
        Some(fields) => Some((body.subrange(0, indent_len), fields, spec_newline_chars(newline))),
    }
}

fn table_row(line: &[char]) -> (r: Option<FlowRow>)
    ensures
        match spec_table_row(line@) {
            Some(row) => r matches Some(v) && v@ == row,
            None => r is None,
        },
        r matches Some(v) ==> forall|k: int| 0 <= k < v.fields@.len() ==> (#[trigger] v.fields@[k]).0@.len() + v.fields@[k].1@.len() + 2 <= line@.len(),
{
    let (body_len, newline) = strip_newline(line);
    let body = sub_chars(line, 0, body_len);
    let indent_len = space_run(body.as_slice(), 0);
    let rest = sub_chars(body.as_slice(), indent_len, body.len());
    let trimmed = trim(rest.as_slice());
    match parse_flow_mapping_row(trimmed.as_slice()) {
        None => None,
        Some(fields) => Some(FlowRow { indent: sub_chars(body.as_slice(), 0, indent_len), fields, newline: newline_chars(newline) }),
    }
}

/// The rows of all lines, or `None` when a line is no row.
pub open spec fn spec_table_rows(lines: Seq<Seq<char>>) -> Option<Seq<(Seq<char>, Seq<(Seq<char>, Seq<char>)>, Seq<char>)>>
    decreases lines.len(),
{
    if lines.len() == 0 {
        Some(seq![])
    } else {
        match spec_table_rows(lines.drop_last()) {
            None => None,
            Some(rows) => match spec_table_row(lines.last()) {
                None => None,
                Some(row) => Some(rows.push(row)),
            },
        }
    }
}

proof fn lemma_table_rows_none(lines: Seq<Seq<char>>, k: int)
    requires
        0 <= k <= lines.len(),
        spec_table_rows(lines.subrange(0, k)) is None,
    ensures
        spec_table_rows(lines) is None,
    decreases lines.len() - k,
{
    if k < lines.len() {
        assert(lines.subrange(0, k + 1).drop_last() == lines.subrange(0, k));
        lemma_table_rows_none(lines, k + 1);
    } else {
        assert(lines.subrange(0, k) == lines);
    }
}

/// The width of a row's first field, `key: value`.
pub open spec fn spec_first_width(fields: Seq<(Seq<char>, Seq<char>)>) -> int {
    if fields.len() == 0 {
        0
    } else {
        (fields[0].0.len() + 2 + fields[0].1.len()) as int
    }
}

/// The widest first field of the rows.
pub open spec fn spec_table_width(rows: Seq<(Seq<char>, Seq<(Seq<char>, Seq<char>)>, Seq<char>)>) -> int
    decreases rows.len(),
{
    if rows.len() == 0 {
        0
    } else {
        let w = spec_table_width(rows.drop_last());
        let v = spec_first_width(rows.last().1);
        if w >= v {
            w
        } else {
            v
        }
    }
}

/// The separator after field `i` of a row: after the first field a comma
/// and the spaces that align the second column, else a comma and a space.
pub open spec fn spec_field_separator(fields: Seq<(Seq<char>, Seq<char>)>, i: int, width: int) -> Seq<char> {
    if i == 0 {
        let rendered = spec_first_width(fields);
        let pad = if width >= rendered {
            width - rendered
        } else {
            0
        };
        seq![','] + Seq::new((pad + 1) as nat, |_k: int| ' ')
    } else {
        seq![',', ' ']
    }
}

/// The first `k` fields of a row, rendered.
pub open spec fn spec_render_fields(fields: Seq<(Seq<char>, Seq<char>)>, k: int, width: int) -> Seq<char>
    decreases k,
{
    if k <= 0 {
        seq![]
    } else if k == 1 {
        fields[0].0 + seq![':', ' '] + fields[0].1
    } else {
        spec_render_fields(fields, k - 1, width) + spec_field_separator(fields, k - 2, width) + fields[k - 1].0
            + seq![':', ' '] + fields[k - 1].1
    }
}

/// A row rendered as `indent- {fields}` and its line break.
pub open spec fn spec_render_row(row: (Seq<char>, Seq<(Seq<char>, Seq<char>)>, Seq<char>), width: int) -> Seq<char> {
    row.0 + seq!['-', ' ', '{'] + spec_render_fields(row.1, row.1.len() as int, width) + seq!['}'] + row.2
}

/// The rows rendered one after the other.
pub open spec fn spec_render_rows(rows: Seq<(Seq<char>, Seq<(Seq<char>, Seq<char>)>, Seq<char>)>, width: int) -> Seq<char>
    decreases rows.len(),
{
    if rows.len() == 0 {
        seq![]
    } else {
        spec_render_rows(rows.drop_last(), width) + spec_render_row(rows.last(), width)
    }
}

/// A table of flow mapping rows with the second column aligned; the text is
/// kept as it is when a line is no such row.
pub open spec fn spec_format_flow_table(source: Seq<char>) -> Seq<char> {
    match spec_table_rows(spec_split_lines_from(source, 0, 0)) {
        None => source,
        Some(rows) => if exists|k: int| 0 <= k < rows.len() && (#[trigger] rows[k]).1.len() == 0 {
            source
        } else {
            spec_render_rows(rows, spec_table_width(rows))
        },
    }
}

/// Appends the separator that follows field `k - 1` of a row.
fn push_separator(out: &mut Vec<char>, fields: &Vec<(Vec<char>, Vec<char>)>, k: usize, width: usize)
    requires
        1 <= k < fields@.len(),
        fields@[0].0@.len() + fields@[0].1@.len() + 2 <= usize::MAX,
    ensures
        final(out)@ == old(out)@ + spec_field_separator(field_views(fields@), k - 1, width as int),
{
    out.push(',');
    if k == 1 {
        let rendered = fields[0].0.len() + 2 + fields[0].1.len();
        let pad = if width >= rendered {
            width - rendered
        } else {
            0
        };
        if pad < usize::MAX {
            push_repeat(out, ' ', pad + 1);
        } else {
            push_repeat(out, ' ', pad);
            out.push(' ');
            assert(Seq::new(pad as nat, |_k: int| ' ').push(' ') == Seq::new((pad + 1) as nat, |_k: int| ' '));
        }
    } else {
        out.push(' ');
    }
}

/// Appends field `k` of a row, as `key: value`.
fn push_field(out: &mut Vec<char>, fields: &Vec<(Vec<char>, Vec<char>)>, k: usize)
    requires
        k < fields@.len(),
    ensures
        final(out)@ == old(out)@ + field_views(fields@)[k as int].0 + seq![':', ' '] + field_views(fields@)[k as int].1,
{
    push_all(out, fields[k].0.as_slice());
    out.push(':');
    out.push(' ');
    push_all(out, fields[k].1.as_slice());
}

/// Appends one row of the table.
fn push_row(out: &mut Vec<char>, row: &FlowRow, width: usize)
    requires
        row.fields@.len() > 0 ==> row.fields@[0].0@.len() + row.fields@[0].1@.len() + 2 <= usize::MAX,
    ensures
        final(out)@ == old(out)@ + spec_render_row(row@, width as int),
{
    let ghost fv = field_views(row.fields@);
    push_all(out, row.indent.as_slice());
    out.push('-');
    out.push(' ');
    out.push('{');
    let ghost base = out@;
    let n = row.fields.len();
    let mut k: usize = 0;
    while k < n
        invariant
            k <= n == row.fields@.len(),
            fv == field_views(row.fields@),
            n > 0 ==> row.fields@[0].0@.len() + row.fields@[0].1@.len() + 2 <= usize::MAX,
            out@ == base + spec_render_fields(fv, k as int, width as int),
        decreases n - k,
    {
        if k > 0 {
            push_separator(out, &row.fields, k, width);
        }
        push_field(out, &row.fields, k);
        k = k + 1;
    }
    out.push('}');
    push_all(out, row.newline.as_slice());
}

/// Aligns the second column of a table of flow mapping rows
/// (`- {key: value, ...}`); any other text is returned unchanged.
pub fn format_flow_table(source: &str) -> (r: String)
    ensures
        r@ == spec_format_flow_table(source@),
{
    let s = crate::text::str_chars(source);
    let lines = split_lines_inclusive(s.as_slice());
    let ghost lv = char_views(lines@);
    let mut rows: Vec<FlowRow> = Vec::new();
    let mut k: usize = 0;
    assert(lv.subrange(0, 0) == Seq::<Seq<char>>::empty());
    while k < lines.len()
        invariant
            k <= lines@.len(),
            lv == char_views(lines@),
            s@ == source@,
            forall|x: int| 0 <= x < lines@.len() ==> (#[trigger] lines@[x])@.len() <= s@.len(),
            rows@.len() == k,
            spec_table_rows(lv.subrange(0, k as int)) == Some(rows@.map_values(|row: FlowRow| row@)),
            forall|x: int| 0 <= x < rows@.len() ==> forall|f: int| 0 <= f < (#[trigger] rows@[x]).fields@.len() ==> (#[trigger] rows@[x].fields@[f]).0@.len() + rows@[x].fields@[f].1@.len() + 2 <= s@.len(),
        decreases lines@.len() - k,
    {
        proof {
            assert(lv.subrange(0, k + 1).drop_last() == lv.subrange(0, k as int));
            assert(lv.subrange(0, k + 1).last() == lines@[k as int]@);
        }
        match table_row(lines[k].as_slice()) {
            None => {
                proof {
                    lemma_table_rows_none(lv, k + 1);
                }
                return crate::text::chars_to_string(s.as_slice());
            },
            Some(row) => {
                let ghost before = rows@;
                rows.push(row);
                proof {
                    assert(rows@.map_values(|row: FlowRow| row@) == before.map_values(|row: FlowRow| row@).push(row@));
                }
            },
        }
        k = k + 1;
    }
    assert(lv.subrange(0, lv.len() as int) == lv);
    let ghost rv = rows@.map_values(|row: FlowRow| row@);
    let mut x: usize = 0;
    while x < rows.len()
        invariant
            x <= rows@.len(),
            rv == rows@.map_values(|row: FlowRow| row@),
            forall|y: int| 0 <= y < x ==> (#[trigger] rv[y]).1.len() != 0,
        decreases rows@.len() - x,
    {
        if rows[x].fields.len() == 0 {
            assert(rv[x as int].1.len() == 0);
            return crate::text::chars_to_string(s.as_slice());
        }
        x = x + 1;
    }
    let mut width: usize = 0;
    let mut y: usize = 0;
    assert(rv.subrange(0, 0) == Seq::<(Seq<char>, Seq<(Seq<char>, Seq<char>)>, Seq<char>)>::empty());
    while y < rows.len()
        invariant
            y <= rows@.len(),
            rv == rows@.map_values(|row: FlowRow| row@),
            forall|z: int| 0 <= z < rows@.len() ==> (#[trigger] rv[z]).1.len() != 0,
            forall|z: int| 0 <= z < rows@.len() ==> forall|f: int| 0 <= f < (#[trigger] rows@[z]).fields@.len() ==> (#[trigger] rows@[z].fields@[f]).0@.len() + rows@[z].fields@[f].1@.len() + 2 <= s@.len(),
            width == spec_table_width(rv.subrange(0, y as int)),
            width <= s@.len(),
            s@.len() == s.len(),
        decreases rows@.len() - y,
    {
        proof {
            assert(rv.subrange(0, y + 1).drop_last() == rv.subrange(0, y as int));
            assert(rv.subrange(0, y + 1).last() == rv[y as int]);
            assert(rv[y as int].1.len() != 0);
            assert(rows@[y as int].fields@.len() != 0);
            assert(rows@[y as int].fields@[0].0@.len() + rows@[y as int].fields@[0].1@.len() + 2 <= s@.len());
        }
        let first = rows[y].fields[0].0.len() + 2 + rows[y].fields[0].1.len();
        if first > width {
            width = first;
        }
        y = y + 1;
    }
    assert(rv.subrange(0, rv.len() as int) == rv);
    let mut out: Vec<char> = Vec::new();
    let mut z: usize = 0;
    while z < rows.len()
        invariant
            z <= rows@.len(),
            rv == rows@.map_values(|row: FlowRow| row@),
            width == spec_table_width(rv),
            width <= s@.len(),
            s@.len() == s.len(),
            forall|q: int| 0 <= q < rows@.len() ==> forall|f: int| 0 <= f < (#[trigger] rows@[q]).fields@.len() ==> (#[trigger] rows@[q].fields@[f]).0@.len() + rows@[q].fields@[f].1@.len() + 2 <= s@.len(),
            out@ == spec_render_rows(rv.subrange(0, z as int), width as int),
        decreases rows@.len() - z,
    {
        proof {
            assert(rv.subrange(0, z + 1).drop_last() == rv.subrange(0, z as int));
            assert(rv.subrange(0, z + 1).last() == rv[z as int]);
        }
        push_row(&mut out, &rows[z], width);
        z = z + 1;
    }
    assert(rv.subrange(0, rv.len() as int) == rv);
    crate::text::chars_to_string(out.as_slice())
}

proof fn lemma_split_from_no_sep(s: Seq<char>, start: int, i: int, sep: char)
    requires
        0 <= start <= i <= s.len(),
        forall|k: int| i <= k < s.len() ==> s[k] != sep,
    ensures
        spec_split_from(s, start, i, sep) == seq![s.subrange(start, s.len() as int)],
    decreases s.len() - i,
{
    if i < s.len() {
        lemma_split_from_no_sep(s, start, i + 1, sep);
    }
}

/// The pieces `str::split` gives hold no separator.
proof fn lemma_split_from_pieces(s: Seq<char>, start: int, i: int, sep: char)
    requires
        0 <= start <= i <= s.len(),
        forall|k: int| start <= k < i ==> s[k] != sep,
    ensures
        forall|j: int| 0 <= j < spec_split_from(s, start, i, sep).len() ==> !(#[trigger] spec_split_from(s, start, i, sep)[j]).contains(sep),
    decreases s.len() - i,
{
    if i < s.len() {
        if s[i] == sep {
            lemma_split_from_pieces(s, i + 1, i + 1, sep);
            let first = s.subrange(start, i);
            let rest = spec_split_from(s, i + 1, i + 1, sep);
            assert(spec_split_from(s, start, i, sep) == seq![first] + rest);
            assert forall|j: int| 0 <= j < (seq![first] + rest).len() implies !(#[trigger] (seq![first] + rest)[j]).contains(sep) by {
                if j == 0 {
                    if first.contains(sep) {
                        let k = choose|k: int| 0 <= k < first.len() && first[k] == sep;
                        assert(s[start + k] == sep);
                    }
                } else {
                    assert((seq![first] + rest)[j] == rest[j - 1]);
                }
            }
        } else {
            lemma_split_from_pieces(s, start, i + 1, sep);
            assert(spec_split_from(s, start, i, sep) == spec_split_from(s, start, i + 1, sep));
        }
    } else {
        let last = s.subrange(start, s.len() as int);
        assert(spec_split_from(s, start, i, sep) == seq![last]);
        assert(!last.contains(sep)) by {
            if last.contains(sep) {
                let k = choose|k: int| 0 <= k < last.len() && last[k] == sep;
                assert(s[start + k] == sep);
            }
        }
    }
}

proof fn lemma_split_from_append(x: Seq<char>, y: Seq<char>, start: int, i: int, sep: char)
    requires
        0 <= start <= i <= x.len(),
        !y.contains(sep),
    ensures
        spec_split_from(x + seq![sep] + y, start, i, sep) == spec_split_from(x, start, i, sep) + seq![y],
    decreases x.len() - i,
{
    let s = x + seq![sep] + y;
    if i < x.len() {
        assert(s[i] == x[i]);
        if x[i] == sep {
            lemma_split_from_append(x, y, i + 1, i + 1, sep);
            assert(s.subrange(start, i) =~= x.subrange(start, i));
            assert(seq![x.subrange(start, i)] + (spec_split_from(x, i + 1, i + 1, sep) + seq![y]) =~= (seq![
                x.subrange(start, i),
            ] + spec_split_from(x, i + 1, i + 1, sep)) + seq![y]);
        } else {
            lemma_split_from_append(x, y, start, i + 1, sep);
        }
    } else {
        assert(s[i] == sep);
        assert forall|k: int| i + 1 <= k < s.len() implies s[k] != sep by {
            assert(s[k] == y[k - i - 1]);
        }
        lemma_split_from_no_sep(s, i + 1, i + 1, sep);
        assert(s.subrange(i + 1, s.len() as int) =~= y);
        assert(s.subrange(start, i) =~= x.subrange(start, x.len() as int));
    }
}

/// Pieces without commas joined with `, ` split back on `,` into the first
/// piece and each other piece after one space.
proof fn lemma_split_join(ps: Seq<Seq<char>>)
    requires
        ps.len() >= 1,
        forall|i: int| 0 <= i < ps.len() ==> !(#[trigger] ps[i]).contains(','),
    ensures
        spec_split(spec_join(ps), ',').len() == ps.len(),
        spec_split(spec_join(ps), ',')[0] == ps[0],
        forall|i: int| 1 <= i < ps.len() ==> #[trigger] spec_split(spec_join(ps), ',')[i] == seq![' '] + ps[i],
    decreases ps.len(),
{
    if ps.len() == 1 {
        let x = ps[0];
        assert forall|k: int| 0 <= k < x.len() implies x[k] != ',' by {
            if x[k] == ',' {
                assert(x.contains(','));
            }
        }
        lemma_split_from_no_sep(x, 0, 0, ',');
        assert(x.subrange(0, x.len() as int) =~= x);
    } else {
        let dl = ps.drop_last();
        lemma_split_join(dl);
        let y = seq![' '] + ps.last();
        assert(!y.contains(',')) by {
            if y.contains(',') {
                let k = choose|k: int| 0 <= k < y.len() && y[k] == ',';
                assert(ps.last()[k - 1] == ',');
                assert(ps[ps.len() - 1].contains(','));
            }
        }
        assert(spec_join(ps) =~= spec_join(dl) + seq![','] + y);
        lemma_split_from_append(spec_join(dl), y, 0, 0, ',');
    }
}

pub proof fn lemma_first_index_at(s: Seq<char>, c: char, from: int, j: int)
    requires
        0 <= from <= j < s.len(),
        s[j] == c,
        forall|k: int| from <= k < j ==> s[k] != c,
    ensures
        spec_first_index(s, c, from) == Some(j),
    decreases j - from,
{
    if from < j {
        lemma_first_index_at(s, c, from + 1, j);
    }
}

pub proof fn lemma_first_index_none(s: Seq<char>, c: char, from: int)
    requires
        0 <= from,
        !s.contains(c),
    ensures
        spec_first_index(s, c, from) is None,
    decreases s.len() - from,
{
    if from < s.len() {
        assert(s[from] != c);
        lemma_first_index_none(s, c, from + 1);
    }
}

pub proof fn lemma_first_index_first(s: Seq<char>, c: char, from: int)
    requires
        0 <= from,
    ensures
        spec_first_index(s, c, from) matches Some(j) ==> forall|k: int| from <= k < j ==> s[k] != c,
        spec_first_index(s, c, from) is None ==> forall|k: int| from <= k < s.len() ==> s[k] != c,
    decreases s.len() - from,
{
    if from < s.len() && s[from] != c {
        lemma_first_index_first(s, c, from + 1);
    }
}

/// An item of a flow mapping, once rendered, renders to itself, also after
/// the space that follows its comma.
proof fn lemma_flow_pair_stable(p: Seq<char>, pre: Seq<char>)
    requires
        !p.contains(','),
        pre == Seq::<char>::empty() || pre == seq![' '],
    ensures
        spec_flow_pair(pre + spec_flow_pair(p)) == spec_flow_pair(p),
        !spec_flow_pair(p).contains(','),
{
    let q = spec_flow_pair(p);
    let p2 = pre + q;
    lemma_first_index(p, ':', 0);
    lemma_first_index_first(p, ':', 0);
    match spec_first_index(p, ':', 0) {
        Some(k) => {
            let key = p.subrange(0, k);
            let val = p.subrange(k + 1, p.len() as int);
            let kt = spec_trim(key);
            let vt = spec_trim(val);
            lemma_trim_shape(key);
            lemma_trim_shape(val);
            assert(!key.contains(':')) by {
                if key.contains(':') {
                    let j = choose|j: int| 0 <= j < key.len() && key[j] == ':';
                    assert(p[j] == ':');
                }
            }
            assert(!key.contains(',')) by {
                if key.contains(',') {
                    let j = choose|j: int| 0 <= j < key.len() && key[j] == ',';
                    assert(p[j] == ',');
                }
            }
            assert(!val.contains(',')) by {
                if val.contains(',') {
                    let j = choose|j: int| 0 <= j < val.len() && val[j] == ',';
                    assert(p[k + 1 + j] == ',');
                }
            }
            assert(!kt.contains(':'));
            let j: int = (pre.len() + kt.len()) as int;
            assert(p2 =~= (pre + kt) + seq![':', ' '] + vt);
            assert forall|m: int| 0 <= m < j implies p2[m] != ':' by {
                if m < pre.len() {
                    assert(p2[m] == pre[m]);
                } else {
                    assert(p2[m] == kt[m - pre.len()]);
                    if kt[m - pre.len()] == ':' {
                        assert(kt.contains(':'));
                    }
                }
            }
            assert(p2[j] == ':');
            lemma_first_index_at(p2, ':', 0, j);
            assert(p2.subrange(0, j) =~= pre + kt);
            assert(p2.subrange(j + 1, p2.len() as int) =~= seq![' '] + vt);
            lemma_trim_idempotent(key);
            lemma_trim_idempotent(val);
            lemma_trim_leading_ws(' ', vt);
            if pre.len() == 1 {
                assert(pre + kt =~= seq![' '] + kt);
                lemma_trim_leading_ws(' ', kt);
            } else {
                assert(pre + kt =~= kt);
            }
            assert(!q.contains(',')) by {
                if q.contains(',') {
                    let m = choose|m: int| 0 <= m < q.len() && q[m] == ',';
                    if m < kt.len() {
                        assert(q[m] == kt[m]);
                        assert(kt.contains(','));
                    } else if m < kt.len() + 2 {
                    } else {
                        assert(q[m] == vt[m - kt.len() - 2]);
                        assert(vt.contains(','));
                    }
                }
            }
        },
        None => {
            assert(!p.contains(':')) by {
                if p.contains(':') {
                    let m = choose|m: int| 0 <= m < p.len() && p[m] == ':';
                }
            }
            lemma_trim_shape(p);
            lemma_trim_idempotent(p);
            assert(!p2.contains(':')) by {
                if p2.contains(':') {
                    let m = choose|m: int| 0 <= m < p2.len() && p2[m] == ':';
                    if m >= pre.len() {
                        assert(q[m - pre.len()] == ':');
                        assert(q.contains(':'));
                    }
                }
            }
            lemma_first_index_none(p2, ':', 0);
            if pre.len() == 1 {
                lemma_trim_leading_ws(' ', q);
            } else {
                assert(p2 =~= q);
            }
        },
    }
}

/// Normalizing the spacing of a flow value twice changes nothing more.
pub proof fn lemma_normalize_flow_value_idempotent(v: Seq<char>)
    ensures
        spec_normalize_flow_value(spec_normalize_flow_value(v)) == spec_normalize_flow_value(v),
{
    let t = spec_trim(v);
    let r = spec_normalize_flow_value(v);
    lemma_trim_shape(v);
    if t.len() >= 2 && (t[0] == '[' && t[t.len() - 1] == ']' || t[0] == '{' && t[t.len() - 1] == '}') {
        let is_seq = t[0] == '[' && t[t.len() - 1] == ']';
        let inner = t.subrange(1, t.len() - 1);
        let pcs = spec_split(inner, ',');
        lemma_split_nonempty(inner, ',');
        lemma_split_from_pieces(inner, 0, 0, ',');
        let items = if is_seq {
            pcs.map_values(|p: Seq<char>| spec_trim(p))
        } else {
            pcs.map_values(|p: Seq<char>| spec_flow_pair(p))
        };
        let open = if is_seq { '[' } else { '{' };
        let close = if is_seq { ']' } else { '}' };
        let j = spec_join(items);
        assert(r =~= seq![open] + j + seq![close]);
        assert forall|i: int| 0 <= i < items.len() implies !(#[trigger] items[i]).contains(',') by {
            assert(!pcs[i].contains(','));
            if is_seq {
                lemma_trim_shape(pcs[i]);
            } else {
                lemma_flow_pair_stable(pcs[i], Seq::empty());
            }
        }
        lemma_split_join(items);
        lemma_trim_trimmed(r);
        assert(r.subrange(1, r.len() - 1) =~= j);
        let pcs2 = spec_split(j, ',');
        let items2 = if is_seq {
            pcs2.map_values(|p: Seq<char>| spec_trim(p))
        } else {
            pcs2.map_values(|p: Seq<char>| spec_flow_pair(p))
        };
        assert forall|i: int| 0 <= i < items.len() implies #[trigger] items2[i] == items[i] by {
            if is_seq {
                lemma_trim_idempotent(pcs[i]);
                if i > 0 {
                    lemma_trim_leading_ws(' ', items[i]);
                }
            } else {
                if i > 0 {
                    lemma_flow_pair_stable(pcs[i], seq![' ']);
                } else {
                    lemma_flow_pair_stable(pcs[i], Seq::empty());
                    assert(Seq::<char>::empty() + items[0] =~= items[0]);
                }
            }
        }
        assert(items2 =~= items);
    } else {
        lemma_trim_idempotent(v);
    }
}

/// Blanks before a colon that the scanner stops at leave its state outside
/// quotes and brackets there.
proof fn lemma_scan_blanks_to_colon(t: Seq<char>, j: int, c: int, st: ScanState)
    requires
        0 <= j <= c < t.len(),
        forall|k: int| j <= k < c ==> spec_ws(#[trigger] t[k]),
        spec_find_unquoted(t, j, st, ':', 0) == Some(c),
    ensures
        !st.single && !st.double && st.depth == 0,
    decreases c - j,
{
    if j == c {
        if !spec_scan_hit(t, j, st, ':', 0) {
            let next = spec_scan_step(t, j, st);
            lemma_find_unquoted(t, next.0, next.1, ':', 0);
        }
    } else {
        assert(spec_ws(t[j]));
        let next = spec_scan_step(t, j, st);
        lemma_scan_blanks_to_colon(t, next.0, c, next.1);
    }
}

/// With the blanks before the colon gone, the scanner stops right where
/// they began.
proof fn lemma_find_colon_without_blanks(t: Seq<char>, t2: Seq<char>, e: int, c: int, i: int, st: ScanState)
    requires
        0 <= i <= e <= c < t.len(),
        e < t2.len(),
        forall|k: int| 0 <= k < e ==> t2[k] == t[k],
        t2[e] == ':',
        forall|k: int| e <= k < c ==> spec_ws(#[trigger] t[k]),
        spec_find_unquoted(t, i, st, ':', 0) == Some(c),
    ensures
        spec_find_unquoted(t2, i, st, ':', 0) == Some(e),
    decreases e - i,
{
    if i == e {
        lemma_scan_blanks_to_colon(t, e, c, st);
    } else {
        assert(t2[i] == t[i]);
        if spec_scan_hit(t, i, st, ':', 0) {
            assert(false);
        }
        let next = spec_scan_step(t, i, st);
        if i + 1 < e {
            assert(t2[i + 1] == t[i + 1]);
        } else {
            assert(e < c ==> spec_ws(t[e]));
            lemma_find_unquoted(t, i, st, ':', 0);
        }
        assert(spec_scan_step(t2, i, st) == next);
        lemma_find_colon_without_blanks(t, t2, e, c, next.0, next.1);
    }
}

/// A normalized flow value is empty or starts and ends with a character
/// that is not whitespace.
proof fn lemma_normalize_flow_value_shape(v: Seq<char>)
    ensures
        spec_normalize_flow_value(v).len() == 0 || (!spec_ws(spec_normalize_flow_value(v)[0])
            && !spec_ws(spec_normalize_flow_value(v).last())),
{
    lemma_trim_shape(v);
}

/// The content of a header line as it is rebuilt, between its indentation
/// and its line break.
pub open spec fn spec_header_content(trimmed: Seq<char>) -> Seq<char> {
    if trimmed.len() == 1 && trimmed[0] == '-' {
        seq!['-']
    } else if trimmed.len() >= 2 && trimmed[0] == '-' && spec_ws(trimmed[1]) {
        let rest = trimmed.subrange(1, trimmed.len() as int);
        seq!['-', ' '] + spec_normalize_flow_value(rest.subrange(spec_skip_ws(rest, 0), rest.len() as int))
    } else {
        match spec_find_unquoted(trimmed, 0, scan_start(), ':', 0) {
            Some(colon) => {
                let key = trimmed.subrange(0, spec_trim_ws_end(trimmed, 0, colon));
                let after = trimmed.subrange(colon + 1, trimmed.len() as int);
                let value = spec_normalize_flow_value(after.subrange(spec_skip_ws(after, 0), after.len() as int));
                if value.len() == 0 {
                    key + seq![':']
                } else {
                    key + seq![':', ' '] + value
                }
            },
            None => trimmed,
        }
    }
}

proof fn lemma_parts_content(indent: Seq<char>, trimmed: Seq<char>, nl: Seq<char>)
    ensures
        spec_format_yaml_parts(indent, trimmed, nl) == indent + spec_header_content(trimmed) + nl,
{
    let c = spec_header_content(trimmed);
    assert(spec_format_yaml_parts(indent, trimmed, nl) =~= indent + c + nl);
}

/// Rebuilding the content of a header line a second time changes nothing,
/// and the content keeps the shape the line's parts had: no blank at its
/// end, and it starts as the trimmed text did, or with `-` or `:`.
proof fn lemma_header_content_stable(t: Seq<char>)
    requires
        t.len() == 0 || !spec_ws(t.last()),
    ensures
        spec_header_content(spec_header_content(t)) == spec_header_content(t),
        t.len() == 0 ==> spec_header_content(t).len() == 0,
        spec_header_content(t).len() > 0 ==> !spec_ws(spec_header_content(t).last()) && (spec_header_content(t)[0]
            == t[0] || spec_header_content(t)[0] == '-' || spec_header_content(t)[0] == ':'),
{
    let c = spec_header_content(t);
    if t.len() == 1 && t[0] == '-' {
        assert(c =~= seq!['-']);
    } else if t.len() >= 2 && t[0] == '-' && spec_ws(t[1]) {
        let rest = t.subrange(1, t.len() as int);
        lemma_skip_ws_bounds(rest, 0);
        let a = spec_skip_ws(rest, 0);
        assert(!spec_ws(rest[rest.len() - 1]));
        let x = rest.subrange(a, rest.len() as int);
        assert(x.len() > 0 && !spec_ws(x[0]) && !spec_ws(x.last()));
        lemma_trim_trimmed(x);
        let nv = spec_normalize_flow_value(x);
        lemma_normalize_flow_value_shape(x);
        assert(nv.len() > 0);
        lemma_normalize_flow_value_idempotent(x);
        let c2 = seq!['-', ' '] + nv;
        assert(c == c2);
        let rest2 = c2.subrange(1, c2.len() as int);
        assert(rest2 =~= seq![' '] + nv);
        assert(spec_skip_ws(rest2, 0) == spec_skip_ws(rest2, 1));
        assert(spec_skip_ws(rest2, 1) == 1);
        assert(rest2.subrange(1, rest2.len() as int) =~= nv);
        assert(c2[0] == '-' && c2[1] == ' ');
    } else {
        lemma_find_unquoted(t, 0, scan_start(), ':', 0);
        match spec_find_unquoted(t, 0, scan_start(), ':', 0) {
            Some(colon) => {
                let e = spec_trim_ws_end(t, 0, colon);
                lemma_trim_ws_end_bounds(t, 0, colon);
                let key = t.subrange(0, e);
                let after = t.subrange(colon + 1, t.len() as int);
                lemma_skip_ws_bounds(after, 0);
                let y = after.subrange(spec_skip_ws(after, 0), after.len() as int);
                let value = spec_normalize_flow_value(y);
                lemma_normalize_flow_value_shape(y);
                lemma_normalize_flow_value_idempotent(y);
                assert(c[e] == ':');
                assert forall|k: int| 0 <= k < e implies c[k] == t[k] by {
                    assert(c[k] == key[k]);
                }
                lemma_find_colon_without_blanks(t, c, e, colon, 0, scan_start());
                assert(!(c.len() == 1 && c[0] == '-'));
                if e >= 2 {
                    assert(c[0] == t[0] && c[1] == t[1]);
                }
                let e2 = spec_trim_ws_end(c, 0, e);
                assert(e2 == e) by {
                    if e > 0 {
                        assert(c[e - 1] == t[e - 1]);
                    }
                }
                assert(c.subrange(0, e) =~= key);
                let after2 = c.subrange(e + 1, c.len() as int);
                if value.len() == 0 {
                    assert(after2.len() == 0);
                    assert(spec_skip_ws(after2, 0) == 0);
                    assert(after2.subrange(0, 0) =~= Seq::<char>::empty());
                    lemma_trim_trimmed(Seq::<char>::empty());
                    assert(spec_normalize_flow_value(Seq::<char>::empty()) =~= Seq::<char>::empty());
                } else {
                    assert(after2 =~= seq![' '] + value);
                    assert(spec_skip_ws(after2, 0) == spec_skip_ws(after2, 1));
                    assert(spec_skip_ws(after2, 1) == 1);
                    assert(after2.subrange(1, after2.len() as int) =~= value);
                }
                if c.len() > 0 && e > 0 {
                    assert(c[0] == t[0]);
                }
            },
            None => {},
        }
    }
}

/// The indentation a header line keeps: spaces, after a byte-order mark
/// when the line starts with one.
proof fn lemma_space_run_over_indent(s: Seq<char>, n: int, from: int)
    requires
        0 <= from <= n <= s.len(),
        forall|k: int| from <= k < n ==> s[k] == ' ',
        n == s.len() || s[n] != ' ',
    ensures
        spec_space_run(s, from) == n,
    decreases n - from,
{
    if from < n {
        lemma_space_run_over_indent(s, n, from + 1);
    }
}

proof fn lemma_space_run_bounds(s: Seq<char>, from: int)
    requires
        0 <= from <= s.len(),
    ensures
        from <= spec_space_run(s, from) <= s.len(),
        forall|k: int| from <= k < spec_space_run(s, from) ==> s[k] == ' ',
        spec_space_run(s, from) == s.len() || s[spec_space_run(s, from)] != ' ',
    decreases s.len() - from,
{
    if from < s.len() && s[from] == ' ' {
        lemma_space_run_bounds(s, from + 1);
    }
}

/// Reformatting a header line that was already reformatted changes
/// nothing.
#[verifier::rlimit(40)]
#[verifier::spinoff_prover]
pub proof fn lemma_format_simple_yaml_line_idempotent(line: Seq<char>)
    ensures
        spec_format_simple_yaml_line(spec_format_simple_yaml_line(line)) == spec_format_simple_yaml_line(line),
{
    let (body_len, newline) = spec_strip_newline(line);
    let body = line.subrange(0, body_len);
    let bom = if body.len() > 0 && body[0] == '\u{feff}' {
        1int
    } else {
        0int
    };
    lemma_space_run_bounds(body, bom);
    let il = spec_space_run(body, bom);
    let indent = body.subrange(0, il);
    lemma_trim_ws_end_bounds(body, il, body.len() as int);
    let te = spec_trim_ws_end(body, il, body.len() as int);
    let t = body.subrange(il, te);
    let nl = spec_newline_chars(newline);
    lemma_parts_content(indent, t, nl);
    lemma_header_content_stable(t);
    let c = spec_header_content(t);
    let out = indent + c + nl;
    assert(spec_format_simple_yaml_line(line) == out);
    let body2 = indent + c;
    // The line break comes back as it was.
    assert(body2.len() == 0 || (body2.last() != '\r' && body2.last() != '\n')) by {
        if c.len() > 0 {
            assert(body2.last() == c.last());
        } else if indent.len() > 0 {
            assert(body2.last() == indent.last());
            assert(indent.last() == body[il - 1]);
            if il - 1 >= bom {
                assert(body[il - 1] == ' ');
            }
        }
    }
    assert(spec_strip_newline(out) == (body2.len() as int, newline)) by {
        assert(out =~= body2 + nl);
    }
    assert(out.subrange(0, body2.len() as int) =~= body2);
    // The byte-order mark and the indentation come back as they were.
    let bom2 = if body2.len() > 0 && body2[0] == '\u{feff}' {
        1int
    } else {
        0int
    };
    assert(bom2 == bom) by {
        if il > 0 {
            assert(body2[0] == body[0]);
        } else if c.len() > 0 {
            assert(body2[0] == c[0]);
            if t.len() > 0 {
                assert(t[0] == body[0]);
            }
        }
    }
    assert forall|k: int| bom <= k < il implies body2[k] == ' ' by {
        assert(body2[k] == body[k]);
    }
    assert(il == body2.len() || body2[il] != ' ') by {
        if c.len() > 0 {
            assert(body2[il] == c[0]);
            if t.len() > 0 {
                assert(t[0] == body[il]);
            }
        }
    }
    lemma_space_run_over_indent(body2, il, bom);
    assert(body2.subrange(0, il) =~= indent);
    assert(spec_trim_ws_end(body2, il, body2.len() as int) == body2.len()) by {
        if c.len() > 0 {
            assert(body2[body2.len() - 1] == c.last());
        }
    }
    assert(body2.subrange(il, body2.len() as int) =~= c);
    lemma_parts_content(indent, c, nl);
}

/// Neither part of a concatenation holds `c`, so neither does the whole.
proof fn lemma_concat_avoids(a: Seq<char>, b: Seq<char>, c: char)
    requires
        !a.contains(c),
        !b.contains(c),
    ensures
        !(a + b).contains(c),
{
    if (a + b).contains(c) {
        let k = choose|k: int| 0 <= k < (a + b).len() && (a + b)[k] == c;
        if k < a.len() {
            assert(a[k] == c);
        } else {
            assert(b[k - a.len()] == c);
        }
    }
}

/// A whitespace prefix does not change a trim.
proof fn lemma_trim_ws_prefix(p: Seq<char>, s: Seq<char>)
    requires
        forall|k: int| 0 <= k < p.len() ==> spec_ws(#[trigger] p[k]),
    ensures
        spec_trim(p + s) == spec_trim(s),
    decreases p.len(),
{
    if p.len() > 0 {
        let q = p.subrange(1, p.len() as int);
        assert forall|k: int| 0 <= k < q.len() implies spec_ws(#[trigger] q[k]) by {
            assert(q[k] == p[k + 1]);
        }
        lemma_trim_ws_prefix(q, s);
        assert(p + s =~= seq![p[0]] + (q + s));
        lemma_trim_leading_ws(p[0], q + s);
    } else {
        assert(p + s =~= s);
    }
}

/// A field as the table parser gives it: key and value trimmed and
/// nonempty, no colon in the key, no comma or line feed in either.
spec fn spec_field_ok(f: (Seq<char>, Seq<char>)) -> bool {
    &&& f.0.len() > 0 && !spec_ws(f.0[0]) && !spec_ws(f.0.last())
    &&& f.1.len() > 0 && !spec_ws(f.1[0]) && !spec_ws(f.1.last())
    &&& !f.0.contains(':') && !f.0.contains(',') && !f.1.contains(',')
    &&& !f.0.contains('\n') && !f.1.contains('\n')
}

/// A row as the table parser gives it; only the last line may lack its
/// line feed.
spec fn spec_row_ok(row: (Seq<char>, Seq<(Seq<char>, Seq<char>)>, Seq<char>), last: bool) -> bool {
    &&& forall|k: int| 0 <= k < row.0.len() ==> row.0[k] == ' '
    &&& row.1.len() >= 1
    &&& forall|j: int| 0 <= j < row.1.len() ==> spec_field_ok(#[trigger] row.1[j])
    &&& (row.2 == seq!['\n'] || row.2 == seq!['\r', '\n'] || (last && (row.2 == Seq::<char>::empty() || row.2
        == seq!['\r'])))
}

spec fn spec_field_text(f: (Seq<char>, Seq<char>)) -> Seq<char> {
    f.0 + seq![':', ' '] + f.1
}

proof fn lemma_field_text_avoids(f: (Seq<char>, Seq<char>))
    requires
        spec_field_ok(f),
    ensures
        !spec_field_text(f).contains(','),
        !spec_field_text(f).contains('\n'),
{
    let m = seq![':', ' '];
    assert(!m.contains(',')) by {
        if m.contains(',') {
            let k = choose|k: int| 0 <= k < m.len() && m[k] == ',';
        }
    }
    assert(!m.contains('\n')) by {
        if m.contains('\n') {
            let k = choose|k: int| 0 <= k < m.len() && m[k] == '\n';
        }
    }
    lemma_concat_avoids(f.0, m, ',');
    lemma_concat_avoids(f.0 + m, f.1, ',');
    lemma_concat_avoids(f.0, m, '\n');
    lemma_concat_avoids(f.0 + m, f.1, '\n');
}

/// A rendered field, after the spaces that follow its comma, parses back
/// to the field.
proof fn lemma_row_field_rendered(pre: Seq<char>, f: (Seq<char>, Seq<char>))
    requires
        spec_field_ok(f),
        forall|k: int| 0 <= k < pre.len() ==> #[trigger] pre[k] == ' ',
    ensures
        spec_row_field(pre + spec_field_text(f)) == Some(f),
{
    let part = pre + spec_field_text(f);
    let j: int = (pre.len() + f.0.len()) as int;
    assert forall|m: int| 0 <= m < j implies part[m] != ':' by {
        if m < pre.len() {
            assert(part[m] == pre[m]);
        } else {
            assert(part[m] == f.0[m - pre.len()]);
            if f.0[m - pre.len()] == ':' {
                assert(f.0.contains(':'));
            }
        }
    }
    assert(part[j] == ':');
    lemma_first_index_at(part, ':', 0, j);
    assert(part.subrange(0, j) =~= pre + f.0);
    assert(part.subrange(j + 1, part.len() as int) =~= seq![' '] + f.1);
    lemma_trim_ws_prefix(pre, f.0);
    lemma_trim_trimmed(f.0);
    lemma_trim_leading_ws(' ', f.1);
    lemma_trim_trimmed(f.1);
}

/// The rendered fields of a row split on `,` into parts that parse back to
/// the fields.
proof fn lemma_render_fields_split(fields: Seq<(Seq<char>, Seq<char>)>, k: int, width: int)
    requires
        1 <= k <= fields.len(),
        forall|j: int| 0 <= j < fields.len() ==> spec_field_ok(#[trigger] fields[j]),
    ensures
        spec_split(spec_render_fields(fields, k, width), ',').len() == k,
        forall|j: int| 0 <= j < k ==> spec_row_field(#[trigger] spec_split(spec_render_fields(fields, k, width), ',')[j])
            == Some(fields[j]),
        !spec_render_fields(fields, k, width).contains('\n'),
    decreases k,
{
    let f = fields[k - 1];
    lemma_field_text_avoids(f);
    if k == 1 {
        let x = spec_field_text(f);
        assert(spec_render_fields(fields, 1, width) =~= x);
        assert forall|m: int| 0 <= m < x.len() implies x[m] != ',' by {
            if x[m] == ',' {
                assert(x.contains(','));
            }
        }
        lemma_split_from_no_sep(x, 0, 0, ',');
        assert(x.subrange(0, x.len() as int) =~= x);
        lemma_row_field_rendered(Seq::empty(), f);
        assert(Seq::<char>::empty() + x =~= x);
    } else {
        lemma_render_fields_split(fields, k - 1, width);
        let prev = spec_render_fields(fields, k - 1, width);
        let sep = spec_field_separator(fields, k - 2, width);
        let sp = sep.subrange(1, sep.len() as int);
        assert(sep[0] == ',');
        assert(sep =~= seq![','] + sp);
        assert forall|m: int| 0 <= m < sp.len() implies #[trigger] sp[m] == ' ' by {
            assert(sp[m] == sep[m + 1]);
        }
        let y = sp + spec_field_text(f);
        assert(!sp.contains(',')) by {
            if sp.contains(',') {
                let m = choose|m: int| 0 <= m < sp.len() && sp[m] == ',';
            }
        }
        assert(!sp.contains('\n')) by {
            if sp.contains('\n') {
                let m = choose|m: int| 0 <= m < sp.len() && sp[m] == '\n';
            }
        }
        lemma_concat_avoids(sp, spec_field_text(f), ',');
        lemma_concat_avoids(sp, spec_field_text(f), '\n');
        assert(spec_render_fields(fields, k, width) =~= prev + seq![','] + y);
        lemma_split_from_append(prev, y, 0, 0, ',');
        lemma_row_field_rendered(sp, f);
        let parts = spec_split(spec_render_fields(fields, k, width), ',');
        assert(parts == spec_split(prev, ',') + seq![y]);
        assert forall|j: int| 0 <= j < k implies spec_row_field(#[trigger] parts[j]) == Some(fields[j]) by {
            if j < k - 1 {
                assert(parts[j] == spec_split(prev, ',')[j]);
            }
        }
        let comma = seq![','];
        assert(!comma.contains('\n')) by {
            if comma.contains('\n') {
                let m = choose|m: int| 0 <= m < comma.len() && comma[m] == '\n';
            }
        }
        lemma_concat_avoids(prev, comma, '\n');
        lemma_concat_avoids(prev + comma, y, '\n');
    }
}

proof fn lemma_row_fields_all(parts: Seq<Seq<char>>, fields: Seq<(Seq<char>, Seq<char>)>)
    requires
        parts.len() == fields.len(),
        forall|j: int| 0 <= j < parts.len() ==> spec_row_field(#[trigger] parts[j]) == Some(fields[j]),
    ensures
        spec_row_fields(parts) == Some(fields),
    decreases parts.len(),
{
    if parts.len() > 0 {
        let dp = parts.drop_last();
        let df = fields.drop_last();
        assert forall|j: int| 0 <= j < dp.len() implies spec_row_field(#[trigger] dp[j]) == Some(df[j]) by {
            assert(dp[j] == parts[j]);
        }
        lemma_row_fields_all(dp, df);
        assert(spec_row_field(parts.last()) == Some(fields.last()));
        assert(df.push(fields.last()) =~= fields);
    } else {
        assert(fields =~= Seq::<(Seq<char>, Seq<char>)>::empty());
    }
}

proof fn lemma_row_fields_each(parts: Seq<Seq<char>>, fields: Seq<(Seq<char>, Seq<char>)>)
    requires
        spec_row_fields(parts) == Some(fields),
    ensures
        parts.len() == fields.len(),
        forall|j: int| 0 <= j < parts.len() ==> spec_row_field(#[trigger] parts[j]) == Some(fields[j]),
    decreases parts.len(),
{
    if parts.len() > 0 {
        let dp = parts.drop_last();
        let df = spec_row_fields(dp).unwrap();
        lemma_row_fields_each(dp, df);
        assert(fields == df.push(spec_row_field(parts.last()).unwrap()));
        assert forall|j: int| 0 <= j < parts.len() implies spec_row_field(#[trigger] parts[j]) == Some(fields[j]) by {
            if j < parts.len() - 1 {
                assert(parts[j] == dp[j]);
            }
        }
    }
}

/// A rendered row parses back to the row.
proof fn lemma_table_row_rendered(row: (Seq<char>, Seq<(Seq<char>, Seq<char>)>, Seq<char>), width: int, last: bool)
    requires
        spec_row_ok(row, last),
    ensures
        spec_table_row(spec_render_row(row, width)) == Some(row),
        spec_render_row(row, width).len() > 0,
        forall|k: int| 0 <= k < spec_render_row(row, width).len() - 1 ==> spec_render_row(row, width)[k] != '\n',
        !last ==> spec_render_row(row, width).last() == '\n',
{
    let n = row.1.len() as int;
    let fr = spec_render_fields(row.1, n, width);
    lemma_render_fields_split(row.1, n, width);
    let t = seq!['-', ' ', '{'] + fr + seq!['}'];
    let body = row.0 + t;
    let line = spec_render_row(row, width);
    assert(line =~= body + row.2);
    assert(body.last() == '}');
    if row.2 == seq!['\n'] {
        assert(spec_strip_newline(line) == (body.len() as int, Newline::Lf));
    } else if row.2 == seq!['\r', '\n'] {
        assert(spec_strip_newline(line) == (body.len() as int, Newline::CrLf));
    } else if row.2 == Seq::<char>::empty() {
        assert(line =~= body);
        assert(spec_strip_newline(line) == (body.len() as int, Newline::Missing));
    } else {
        assert(spec_strip_newline(line) == (body.len() as int, Newline::Cr));
    }
    assert(line.subrange(0, body.len() as int) =~= body);
    let il = row.0.len() as int;
    assert(body[il] == '-');
    assert forall|k: int| 0 <= k < il implies body[k] == ' ' by {
        assert(body[k] == row.0[k]);
    }
    lemma_space_run_over_indent(body, il, 0);
    assert(body.subrange(il, body.len() as int) =~= t);
    lemma_trim_trimmed(t);
    assert(t.subrange(3, t.len() - 1) =~= fr);
    lemma_row_fields_all(spec_split(fr, ','), row.1);
    assert(body.subrange(0, il) =~= row.0);
    assert forall|k: int| 0 <= k < line.len() - 1 implies line[k] != '\n' by {
        if k < il {
            assert(line[k] == row.0[k]);
        } else if k < il + 3 {
        } else if k < il + 3 + fr.len() {
            assert(line[k] == fr[k - il - 3]);
            if fr[k - il - 3] == '\n' {
                assert(fr.contains('\n'));
            }
        } else if k < body.len() {
        } else {
            assert(line[k] == row.2[k - body.len()]);
        }
    }
}

/// What the rows of a table satisfy.
proof fn lemma_table_row_ok(line: Seq<char>, last: bool)
    requires
        spec_table_row(line) is Some,
        line.len() > 0,
        forall|k: int| 0 <= k < line.len() - 1 ==> line[k] != '\n',
        !last ==> line.last() == '\n',
    ensures
        spec_row_ok(spec_table_row(line).unwrap(), last),
{
    let (body_len, newline) = spec_strip_newline(line);
    let body = line.subrange(0, body_len);
    assert(!body.contains('\n')) by {
        if body.contains('\n') {
            let k = choose|k: int| 0 <= k < body.len() && body[k] == '\n';
            assert(line[k] == '\n');
        }
    }
    lemma_space_run_bounds(body, 0);
    let il = spec_space_run(body, 0);
    let rest = body.subrange(il, body.len() as int);
    assert(!rest.contains('\n')) by {
        if rest.contains('\n') {
            let k = choose|k: int| 0 <= k < rest.len() && rest[k] == '\n';
            assert(body[il + k] == '\n');
        }
    }
    let t = spec_trim(rest);
    lemma_trim_shape(rest);
    let inner = t.subrange(3, t.len() - 1);
    assert(!inner.contains('\n')) by {
        if inner.contains('\n') {
            let k = choose|k: int| 0 <= k < inner.len() && inner[k] == '\n';
            assert(t[3 + k] == '\n');
            assert(t.contains('\n'));
        }
    }
    let parts = spec_split(inner, ',');
    lemma_split_nonempty(inner, ',');
    lemma_split_from_pieces(inner, 0, 0, ',');
    lemma_split_from_pieces_avoid(inner, 0, 0, ',', '\n');
    let fields = spec_parse_flow_mapping_row(t).unwrap();
    lemma_row_fields_each(parts, fields);
    assert forall|j: int| 0 <= j < fields.len() implies spec_field_ok(#[trigger] fields[j]) by {
        lemma_row_field_ok(parts[j]);
    }
    let row = spec_table_row(line).unwrap();
    assert(row.1 == fields);
    assert forall|k: int| 0 <= k < row.0.len() implies row.0[k] == ' ' by {
        assert(row.0[k] == body[k]);
    }
    if !last {
        assert(line[line.len() - 1] == '\n');
    }
}

proof fn lemma_row_field_ok(part: Seq<char>)
    requires
        !part.contains(','),
        !part.contains('\n'),
        spec_row_field(part) is Some,
    ensures
        spec_field_ok(spec_row_field(part).unwrap()),
{
    lemma_first_index(part, ':', 0);
    lemma_first_index_first(part, ':', 0);
    let k = spec_first_index(part, ':', 0).unwrap();
    let kp = part.subrange(0, k);
    let vp = part.subrange(k + 1, part.len() as int);
    assert(!kp.contains(':')) by {
        if kp.contains(':') {
            let j = choose|j: int| 0 <= j < kp.len() && kp[j] == ':';
            assert(part[j] == ':');
        }
    }
    assert forall|c: char| !part.contains(c) implies !kp.contains(c) && !vp.contains(c) by {
        if kp.contains(c) {
            let j = choose|j: int| 0 <= j < kp.len() && kp[j] == c;
            assert(part[j] == c);
        }
        if vp.contains(c) {
            let j = choose|j: int| 0 <= j < vp.len() && vp[j] == c;
            assert(part[k + 1 + j] == c);
        }
    }
    lemma_trim_shape(kp);
    lemma_trim_shape(vp);
}

/// The pieces of `str::split` hold no character the text does not.
proof fn lemma_split_from_pieces_avoid(s: Seq<char>, start: int, i: int, sep: char, c: char)
    requires
        0 <= start <= i <= s.len(),
        !s.contains(c),
    ensures
        forall|j: int| 0 <= j < spec_split_from(s, start, i, sep).len() ==> !(#[trigger] spec_split_from(s, start, i, sep)[j]).contains(c),
    decreases s.len() - i,
{
    if i < s.len() {
        if s[i] == sep {
            lemma_split_from_pieces_avoid(s, i + 1, i + 1, sep, c);
            let first = s.subrange(start, i);
            let rest = spec_split_from(s, i + 1, i + 1, sep);
            assert(spec_split_from(s, start, i, sep) == seq![first] + rest);
            assert(!first.contains(c)) by {
                if first.contains(c) {
                    let k = choose|k: int| 0 <= k < first.len() && first[k] == c;
                    assert(s[start + k] == c);
                }
            }
            assert forall|j: int| 0 <= j < (seq![first] + rest).len() implies !(#[trigger] (seq![first] + rest)[j]).contains(c) by {
                if j > 0 {
                    assert((seq![first] + rest)[j] == rest[j - 1]);
                }
            }
        } else {
            lemma_split_from_pieces_avoid(s, start, i + 1, sep, c);
            assert(spec_split_from(s, start, i, sep) == spec_split_from(s, start, i + 1, sep));
        }
    } else {
        let last = s.subrange(start, s.len() as int);
        assert(spec_split_from(s, start, i, sep) == seq![last]);
        assert(!last.contains(c)) by {
            if last.contains(c) {
                let k = choose|k: int| 0 <= k < last.len() && last[k] == c;
                assert(s[start + k] == c);
            }
        }
    }
}

/// The lines `split_inclusive('\n')` gives are nonempty, hold a line feed
/// only at their end, and all but the last end with one.
proof fn lemma_split_lines_pieces(s: Seq<char>, start: int, i: int)
    requires
        0 <= start <= i <= s.len(),
        forall|k: int| start <= k < i ==> s[k] != '\n',
    ensures
        forall|j: int| 0 <= j < spec_split_lines_from(s, start, i).len() ==> {
            let p = #[trigger] spec_split_lines_from(s, start, i)[j];
            &&& p.len() > 0
            &&& forall|k: int| 0 <= k < p.len() - 1 ==> p[k] != '\n'
            &&& (j < spec_split_lines_from(s, start, i).len() - 1 ==> p.last() == '\n')
        },
    decreases s.len() - i,
{
    let r = spec_split_lines_from(s, start, i);
    if i >= s.len() {
        if start < s.len() {
            let p = s.subrange(start, s.len() as int);
            assert(r == seq![p]);
            assert forall|k: int| 0 <= k < p.len() - 1 implies p[k] != '\n' by {
                assert(p[k] == s[start + k]);
            }
        }
    } else if s[i] == '\n' {
        lemma_split_lines_pieces(s, i + 1, i + 1);
        let p = s.subrange(start, i + 1);
        let rest = spec_split_lines_from(s, i + 1, i + 1);
        assert(r == seq![p] + rest);
        assert forall|j: int| 0 <= j < r.len() implies {
            let q = #[trigger] r[j];
            &&& q.len() > 0
            &&& forall|k: int| 0 <= k < q.len() - 1 ==> q[k] != '\n'
            &&& (j < r.len() - 1 ==> q.last() == '\n')
        } by {
            if j == 0 {
                assert forall|k: int| 0 <= k < p.len() - 1 implies p[k] != '\n' by {
                    assert(p[k] == s[start + k]);
                }
            } else {
                assert(r[j] == rest[j - 1]);
            }
        }
    } else {
        lemma_split_lines_pieces(s, start, i + 1);
        assert(r == spec_split_lines_from(s, start, i + 1));
    }
}

proof fn lemma_split_lines_shift(p: Seq<char>, b: Seq<char>, st: int, j: int)
    requires
        0 <= st <= j,
    ensures
        spec_split_lines_from(p + b, p.len() + st, p.len() + j) == spec_split_lines_from(b, st, j),
    decreases b.len() - j,
{
    let s = p + b;
    if j >= b.len() {
        if st < b.len() {
            assert(s.subrange(p.len() + st, s.len() as int) =~= b.subrange(st, b.len() as int));
        }
    } else {
        assert(s[p.len() + j] == b[j]);
        if b[j] == '\n' {
            lemma_split_lines_shift(p, b, j + 1, j + 1);
            assert(s.subrange(p.len() + st, p.len() + j + 1) =~= b.subrange(st, j + 1));
        } else {
            lemma_split_lines_shift(p, b, st, j + 1);
        }
    }
}

proof fn lemma_split_lines_append(a: Seq<char>, b: Seq<char>, start: int, i: int)
    requires
        0 <= start <= i <= a.len(),
        forall|k: int| start <= k < i ==> a[k] != '\n',
        a.len() > 0 ==> a.last() == '\n',
    ensures
        spec_split_lines_from(a + b, start, i) == spec_split_lines_from(a, start, i) + spec_split_lines_from(b, 0, 0),
    decreases a.len() - i,
{
    let s = a + b;
    if i == a.len() {
        if a.len() > 0 && start < a.len() {
            assert(a[a.len() - 1] == '\n');
        }
        lemma_split_lines_shift(a, b, 0, 0);
        assert(spec_split_lines_from(a, start, i) =~= Seq::<Seq<char>>::empty());
        assert(spec_split_lines_from(a + b, start, i) =~= spec_split_lines_from(a, start, i)
            + spec_split_lines_from(b, 0, 0));
    } else {
        assert(s[i] == a[i]);
        if a[i] == '\n' {
            lemma_split_lines_append(a, b, i + 1, i + 1);
            assert(s.subrange(start, i + 1) =~= a.subrange(start, i + 1));
            assert(seq![a.subrange(start, i + 1)] + (spec_split_lines_from(a, i + 1, i + 1) + spec_split_lines_from(
                b,
                0,
                0,
            )) =~= (seq![a.subrange(start, i + 1)] + spec_split_lines_from(a, i + 1, i + 1)) + spec_split_lines_from(
                b,
                0,
                0,
            ));
        } else {
            lemma_split_lines_append(a, b, start, i + 1);
        }
    }
}

proof fn lemma_split_lines_single(x: Seq<char>, i: int)
    requires
        0 <= i < x.len(),
        forall|k: int| 0 <= k < x.len() - 1 ==> x[k] != '\n',
    ensures
        spec_split_lines_from(x, 0, i) == seq![x],
    decreases x.len() - i,
{
    if i == x.len() - 1 {
        assert(x.subrange(0, x.len() as int) =~= x);
        if x[i] == '\n' {
            assert(spec_split_lines_from(x, i + 1, i + 1) =~= Seq::<Seq<char>>::empty());
            assert(spec_split_lines_from(x, 0, i) == seq![x.subrange(0, i + 1)] + spec_split_lines_from(x, i + 1, i + 1));
            assert(seq![x] + Seq::<Seq<char>>::empty() =~= seq![x]);
        } else {
            assert(spec_split_lines_from(x, 0, i) == spec_split_lines_from(x, 0, i + 1));
            assert(spec_split_lines_from(x, 0, i + 1) == seq![x.subrange(0, x.len() as int)]);
        }
    } else {
        lemma_split_lines_single(x, i + 1);
        assert(x[i] != '\n');
        assert(spec_split_lines_from(x, 0, i) == spec_split_lines_from(x, 0, i + 1));
    }
}

spec fn spec_rendered_lines(rows: Seq<(Seq<char>, Seq<(Seq<char>, Seq<char>)>, Seq<char>)>, width: int) -> Seq<Seq<char>> {
    rows.map_values(|r: (Seq<char>, Seq<(Seq<char>, Seq<char>)>, Seq<char>)| spec_render_row(r, width))
}

/// The rendered table splits into its rendered rows.
proof fn lemma_render_rows_lines(rows: Seq<(Seq<char>, Seq<(Seq<char>, Seq<char>)>, Seq<char>)>, width: int)
    requires
        forall|j: int| 0 <= j < rows.len() ==> spec_row_ok(#[trigger] rows[j], j == rows.len() - 1),
    ensures
        spec_split_lines_from(spec_render_rows(rows, width), 0, 0) == spec_rendered_lines(rows, width),
        rows.len() > 0 ==> spec_render_rows(rows, width).last() == spec_render_row(rows.last(), width).last(),
    decreases rows.len(),
{
    if rows.len() == 0 {
        assert(spec_split_lines_from(Seq::<char>::empty(), 0, 0) =~= Seq::<Seq<char>>::empty());
        assert(spec_rendered_lines(rows, width) =~= Seq::<Seq<char>>::empty());
    } else {
        let dl = rows.drop_last();
        assert forall|j: int| 0 <= j < dl.len() implies spec_row_ok(#[trigger] dl[j], j == dl.len() - 1) by {
            assert(dl[j] == rows[j]);
            assert(spec_row_ok(rows[j], false));
        }
        lemma_render_rows_lines(dl, width);
        let a = spec_render_rows(dl, width);
        let x = spec_render_row(rows.last(), width);
        lemma_table_row_rendered(rows.last(), width, true);
        if dl.len() > 0 {
            lemma_table_row_rendered(dl.last(), width, false);
            assert(spec_row_ok(rows[dl.len() - 1], false));
        }
        lemma_split_lines_append(a, x, 0, 0);
        lemma_split_lines_single(x, 0);
        assert(spec_render_rows(rows, width) == a + x);
        assert(spec_rendered_lines(rows, width) =~= spec_rendered_lines(dl, width) + seq![x]);
    }
}

proof fn lemma_table_rows_each(lines: Seq<Seq<char>>, rows: Seq<(Seq<char>, Seq<(Seq<char>, Seq<char>)>, Seq<char>)>)
    requires
        spec_table_rows(lines) == Some(rows),
    ensures
        rows.len() == lines.len(),
        forall|j: int| 0 <= j < lines.len() ==> spec_table_row(#[trigger] lines[j]) == Some(rows[j]),
    decreases lines.len(),
{
    if lines.len() > 0 {
        let dl = lines.drop_last();
        let dr = spec_table_rows(dl).unwrap();
        lemma_table_rows_each(dl, dr);
        assert(rows == dr.push(spec_table_row(lines.last()).unwrap()));
        assert forall|j: int| 0 <= j < lines.len() implies spec_table_row(#[trigger] lines[j]) == Some(rows[j]) by {
            if j < lines.len() - 1 {
                assert(lines[j] == dl[j]);
            }
        }
    }
}

proof fn lemma_table_rows_all(lines: Seq<Seq<char>>, rows: Seq<(Seq<char>, Seq<(Seq<char>, Seq<char>)>, Seq<char>)>)
    requires
        rows.len() == lines.len(),
        forall|j: int| 0 <= j < lines.len() ==> spec_table_row(#[trigger] lines[j]) == Some(rows[j]),
    ensures
        spec_table_rows(lines) == Some(rows),
    decreases lines.len(),
{
    if lines.len() > 0 {
        let dl = lines.drop_last();
        let dr = rows.drop_last();
        assert forall|j: int| 0 <= j < dl.len() implies spec_table_row(#[trigger] dl[j]) == Some(dr[j]) by {
            assert(dl[j] == lines[j]);
        }
        lemma_table_rows_all(dl, dr);
        assert(spec_table_row(lines.last()) == Some(rows.last()));
        assert(dr.push(rows.last()) =~= rows);
    } else {
        assert(rows =~= Seq::<(Seq<char>, Seq<(Seq<char>, Seq<char>)>, Seq<char>)>::empty());
    }
}

/// Aligning a table that is already aligned changes nothing, and text that
/// is no table stays as it is.
pub proof fn lemma_format_flow_table_idempotent(source: Seq<char>)
    ensures
        spec_format_flow_table(spec_format_flow_table(source)) == spec_format_flow_table(source),
{
    let lines = spec_split_lines_from(source, 0, 0);
    match spec_table_rows(lines) {
        None => {},
        Some(rows) => {
            if !(exists|k: int| 0 <= k < rows.len() && (#[trigger] rows[k]).1.len() == 0) {
                let w = spec_table_width(rows);
                let out = spec_render_rows(rows, w);
                lemma_table_rows_each(lines, rows);
                lemma_split_lines_pieces(source, 0, 0);
                assert forall|j: int| 0 <= j < rows.len() implies spec_row_ok(#[trigger] rows[j], j == rows.len() - 1) by {
                    let l = lines[j];
                    assert(l.len() > 0);
                    lemma_table_row_ok(l, j == rows.len() - 1);
                }
                lemma_render_rows_lines(rows, w);
                let lines2 = spec_rendered_lines(rows, w);
                assert forall|j: int| 0 <= j < lines2.len() implies spec_table_row(#[trigger] lines2[j]) == Some(rows[j]) by {
                    lemma_table_row_rendered(rows[j], w, j == rows.len() - 1);
                }
                lemma_table_rows_all(lines2, rows);
                assert(spec_format_flow_table(source) == out);
            }
        },
    }
}

} // verus!
