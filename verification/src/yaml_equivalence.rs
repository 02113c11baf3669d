//! The scalar values that the YAML equivalence check compares: plain,
//! quoted and block scalars decoded to their content, and the characters
//! YAML does not allow.
use vstd::prelude::*;
use crate::text::{push_all, push_repeat, spec_ascii_ws, sub_chars};
use crate::yaml_line_format::{spec_space_run, spec_split, split_char, char_views};
use crate::yaml_model::{YamlBlockChomp, YamlBlockScalarHeader, YamlScalarSemantic, YamlScalarStyle};
use crate::yaml_scalar::{decode_quoted, spec_decode_quoted, DecodePolicy};

verus! {

/// A character YAML does not allow in a document: C0 controls other than
/// tab, line feed and carriage return, DEL and C1 controls other than NEL,
/// and the noncharacters U+FFFE and U+FFFF.
pub open spec fn spec_yaml_forbidden_character(c: char) -> bool {
    ('\u{0}' <= c <= '\u{8}') || c == '\u{b}' || c == '\u{c}' || ('\u{e}' <= c <= '\u{1f}') || ('\u{7f}' <= c
        <= '\u{84}') || ('\u{86}' <= c <= '\u{9f}') || c == '\u{fffe}' || c == '\u{ffff}'
}

pub fn yaml_forbidden_character(c: char) -> (r: bool)
    ensures
        r == spec_yaml_forbidden_character(c),
{
    ('\u{0}' <= c && c <= '\u{8}') || c == '\u{b}' || c == '\u{c}' || ('\u{e}' <= c && c <= '\u{1f}') || ('\u{7f}'
        <= c && c <= '\u{84}') || ('\u{86}' <= c && c <= '\u{9f}') || c == '\u{fffe}' || c == '\u{ffff}'
}

/// `true`, `True`, `TRUE`, `false`, `False` and `FALSE` as booleans.
pub open spec fn spec_yaml_bool(v: Seq<char>) -> Option<bool> {
    if v == "true"@ || v == "True"@ || v == "TRUE"@ {
        Some(true)
    } else if v == "false"@ || v == "False"@ || v == "FALSE"@ {
        Some(false)
    } else {
        None
    }
}

fn same(a: &[char], b: &str) -> (r: bool)
    ensures
        r == (a@ == b@),
{
    let bc = crate::text::str_chars(b);
    crate::text::chars_eq(a, bc.as_slice())
}

pub fn yaml_bool(v: &[char]) -> (r: Option<bool>)
    ensures
        r == spec_yaml_bool(v@),
{
    if same(v, "true") || same(v, "True") || same(v, "TRUE") {
        Some(true)
    } else if same(v, "false") || same(v, "False") || same(v, "FALSE") {
        Some(false)
    } else {
        None
    }
}

/// `\r\n` and lone `\r` become `\n`, from position `i` on.
pub open spec fn spec_normalize_line_endings_from(s: Seq<char>, i: int) -> Seq<char>
    decreases s.len() - i,
{
    if i < 0 || i >= s.len() {
        seq![]
    } else if s[i] == '\r' {
        if i + 1 < s.len() && s[i + 1] == '\n' {
            seq!['\n'] + spec_normalize_line_endings_from(s, i + 2)
        } else {
            seq!['\n'] + spec_normalize_line_endings_from(s, i + 1)
        }
    } else {
        seq![s[i]] + spec_normalize_line_endings_from(s, i + 1)
    }
}

pub open spec fn spec_normalize_line_endings(s: Seq<char>) -> Seq<char> {
    spec_normalize_line_endings_from(s, 0)
}

pub fn normalize_line_endings(value: &[char]) -> (r: Vec<char>)
    ensures
        r@ == spec_normalize_line_endings(value@),
{
    let n = value.len();
    let mut out: Vec<char> = Vec::new();
    let mut i: usize = 0;
    while i < n
        invariant
            n == value@.len(),
            i <= n,
            out@ + spec_normalize_line_endings_from(value@, i as int) == spec_normalize_line_endings(value@),
        decreases n - i,
    {
        let ghost before = out@;
        if value[i] == '\r' {
            out.push('\n');
            if i + 1 < n && value[i + 1] == '\n' {
                i = i + 2;
            } else {
                i = i + 1;
            }
        } else {
            out.push(value[i]);
            i = i + 1;
        }
        proof {
            assert(out@ + spec_normalize_line_endings_from(value@, i as int) == before + (seq![out@.last()]
                + spec_normalize_line_endings_from(value@, i as int)));
        }
    }
    assert(out@ + Seq::<char>::empty() == out@);
    out
}

/// The number of spaces a line starts with.
pub fn leading_spaces(value: &[char]) -> (r: usize)
    ensures
        r == spec_space_run(value@, 0),
        r <= value@.len(),
{
    let mut i: usize = 0;
    while i < value.len() && value[i] == ' '
        invariant
            i <= value@.len(),
            spec_space_run(value@, i as int) == spec_space_run(value@, 0),
        decreases value@.len() - i,
    {
        i = i + 1;
    }
    i
}

/// `str::lines` of a text without `\r`: the pieces between line feeds,
/// without the empty piece after a final line feed.
pub open spec fn spec_lines(s: Seq<char>) -> Seq<Seq<char>> {
    if s.len() == 0 {
        seq![]
    } else if s[s.len() - 1] == '\n' {
        spec_split(s, '\n').drop_last()
    } else {
        spec_split(s, '\n')
    }
}

/// `str::trim_ascii`.
pub open spec fn spec_trim_ascii(s: Seq<char>) -> Seq<char> {
    crate::text::spec_trim_ascii(s)
}

/// A multi-line plain scalar folded from line `k` on: line breaks between
/// content lines become a space, runs of blank lines become that many line
/// breaks, and blank lines before the first content line are dropped.
pub open spec fn spec_fold_plain(lines: Seq<Seq<char>>, k: int, blank_lines: nat, has_content: bool) -> Seq<char>
    decreases lines.len() - k,
{
    if k < 0 || k >= lines.len() {
        seq![]
    } else {
        let line = spec_trim_ascii(lines[k]);
        if line.len() == 0 {
            spec_fold_plain(lines, k + 1, if has_content { blank_lines + 1 } else { blank_lines }, has_content)
        } else {
            let sep = if has_content {
                if blank_lines == 0 {
                    seq![' ']
                } else {
                    Seq::new(blank_lines, |_i: int| '\n')
                }
            } else {
                seq![]
            };
            sep + line + spec_fold_plain(lines, k + 1, 0, true)
        }
    }
}

/// The value of a multi-line plain scalar.
pub open spec fn spec_decode_multiline_plain(raw: Seq<char>) -> Seq<char> {
    spec_fold_plain(spec_lines(spec_normalize_line_endings(raw)), 0, 0, false)
}

/// The value of a plain scalar: as written on one line, folded across lines.
pub open spec fn spec_decode_plain(raw: Seq<char>) -> Seq<char> {
    if raw.contains('\r') || raw.contains('\n') {
        spec_decode_multiline_plain(raw)
    } else {
        raw
    }
}

pub fn decode_multiline_plain_scalar(raw: &[char]) -> (r: Vec<char>)
    ensures
        r@ == spec_decode_multiline_plain(raw@),
{
    let normalized = normalize_line_endings(raw);
    let pieces = split_char(normalized.as_slice(), '\n');
    let ghost all = char_views(pieces@);
    let ghost lines = spec_lines(normalized@);
    proof {
        crate::yaml_line_format::lemma_split_nonempty(normalized@, '\n');
    }
    let count = if normalized.len() == 0 {
        0
    } else if normalized[normalized.len() - 1] == '\n' {
        pieces.len() - 1
    } else {
        pieces.len()
    };
    proof {
        assert(lines.len() == count);
        assert(forall|j: int| 0 <= j < count ==> lines[j] == all[j]);
    }
    let mut out: Vec<char> = Vec::new();
    let mut blank_lines: usize = 0;
    let mut has_content = false;
    let mut k: usize = 0;
    while k < count
        invariant
            k <= count <= pieces@.len(),
            all == char_views(pieces@),
            lines.len() == count,
            forall|j: int| 0 <= j < count ==> lines[j] == all[j],
            blank_lines <= k,
            out@ + spec_fold_plain(lines, k as int, blank_lines as nat, has_content) == spec_fold_plain(lines, 0, 0, false),
        decreases count - k,
    {
        let line = crate::text::trim_ascii(pieces[k].as_slice());
        proof {
            assert(pieces@[k as int]@ == lines[k as int]);
        }
        let ghost before = out@;
        if line.len() == 0 {
            if has_content {
                blank_lines = blank_lines + 1;
            }
        } else {
            if has_content {
                if blank_lines == 0 {
                    out.push(' ');
                } else {
                    push_repeat(&mut out, '\n', blank_lines);
                }
            } else {
                has_content = true;
            }
            push_all(&mut out, line.as_slice());
            blank_lines = 0;
            proof {
                let sep = out@.subrange(before.len() as int, out@.len() - line@.len());
                assert(out@ == before + sep + line@);
            }
        }
        k = k + 1;
    }
    assert(out@ + Seq::<char>::empty() == out@);
    out
}

pub fn decode_plain_scalar(raw: &[char]) -> (r: Vec<char>)
    ensures
        r@ == spec_decode_plain(raw@),
{
    if crate::text::contains_char(raw, '\r') || crate::text::contains_char(raw, '\n') {
        decode_multiline_plain_scalar(raw)
    } else {
        crate::text::copy_chars(raw)
    }
}

/// The value of a quoted scalar: double-quoted with its escapes and escaped
/// line breaks, single-quoted with `''` for a quote and no line breaks.
pub open spec fn spec_decode_quoted_scalar(raw: Seq<char>) -> Option<Seq<char>> {
    if raw.len() > 0 && raw[0] == '"' {
        spec_decode_quoted(raw, DecodePolicy::Format)
    } else if raw.len() > 0 && raw[0] == '\'' {
        spec_decode_quoted(raw, DecodePolicy::Validation)
    } else {
        None
    }
}

pub fn decode_quoted_scalar(raw: &[char]) -> (r: Option<Vec<char>>)
    ensures
        match spec_decode_quoted_scalar(raw@) {
            Some(v) => r matches Some(x) && x@ == v,
            None => r is None,
        },
{
    if raw.len() > 0 && raw[0] == '"' {
        decode_quoted(raw, DecodePolicy::Format)
    } else if raw.len() > 0 && raw[0] == '\'' {
        decode_quoted(raw, DecodePolicy::Validation)
    } else {
        None
    }
}

/// A line of a block scalar after its indentation is removed, and whether
/// it is more indented than the content (starts with a space or tab).
#[derive(Debug)]
pub struct BlockLine {
    pub text: Vec<char>,
    pub more_indented: bool,
}

impl View for BlockLine {
    type V = (Seq<char>, bool);

    open spec fn view(&self) -> (Seq<char>, bool) {
        (self.text@, self.more_indented)
    }
}

pub open spec fn block_views(v: Seq<BlockLine>) -> Seq<(Seq<char>, bool)> {
    v.map_values(|l: BlockLine| l@)
}

/// `n` line breaks.
pub open spec fn newlines(n: nat) -> Seq<char> {
    Seq::new(n, |_i: int| '\n')
}

/// The end of the run of empty lines from `i`.
pub open spec fn spec_blank_end(lines: Seq<(Seq<char>, bool)>, i: int) -> int
    decreases lines.len() - i,
{
    if i < 0 || i >= lines.len() || lines[i].0.len() > 0 {
        i
    } else {
        spec_blank_end(lines, i + 1)
    }
}

proof fn lemma_blank_end(lines: Seq<(Seq<char>, bool)>, i: int)
    requires
        0 <= i <= lines.len(),
    ensures
        i <= spec_blank_end(lines, i) <= lines.len(),
        spec_blank_end(lines, i) < lines.len() ==> lines[spec_blank_end(lines, i)].0.len() > 0,
    decreases lines.len() - i,
{
    if i < lines.len() && lines[i].0.len() == 0 {
        lemma_blank_end(lines, i + 1);
    }
}

/// Folded block lines from `index` on: a line break between two lines
/// becomes a space unless one of them is more indented; empty lines keep
/// their line breaks (one fewer at the end).
pub open spec fn spec_fold_block(lines: Seq<(Seq<char>, bool)>, index: int) -> Seq<char>
    decreases lines.len() - index,
{
    if index < 0 || index >= lines.len() {
        seq![]
    } else if lines[index].0.len() == 0 {
        let end = spec_blank_end(lines, index);
        let blank = end - index;
        let count = if end >= lines.len() {
            if blank >= 1 {
                blank - 1
            } else {
                0
            }
        } else {
            blank
        };
        if end <= index || end > lines.len() {
            seq![]
        } else {
            newlines(count as nat) + spec_fold_block(lines, end)
        }
    } else {
        let e = spec_blank_end(lines, index + 1);
        let blank = e - (index + 1);
        let joined = lines[index].1 || (e < lines.len() && lines[e].1);
        if e <= index || e > lines.len() {
            lines[index].0
        } else if e >= lines.len() {
            lines[index].0 + newlines(blank as nat)
        } else if blank == 0 {
            lines[index].0 + (if joined { seq!['\n'] } else { seq![' '] }) + spec_fold_block(lines, e)
        } else {
            lines[index].0 + newlines((blank + if joined { 1int } else { 0 }) as nat) + spec_fold_block(lines, e)
        }
    }
}

fn blank_end(lines: &Vec<BlockLine>, from: usize) -> (r: usize)
    requires
        from <= lines@.len(),
    ensures
        r == spec_blank_end(block_views(lines@), from as int),
        from <= r <= lines@.len(),
{
    let mut i = from;
    while i < lines.len() && lines[i].text.len() == 0
        invariant
            from <= i <= lines@.len(),
            spec_blank_end(block_views(lines@), i as int) == spec_blank_end(block_views(lines@), from as int),
        decreases lines@.len() - i,
    {
        i = i + 1;
    }
    i
}

/// Folds the lines of a folded block scalar.
pub fn fold_block_lines(lines: &Vec<BlockLine>) -> (r: Vec<char>)
    ensures
        r@ == spec_fold_block(block_views(lines@), 0),
{
    let ghost lv = block_views(lines@);
    let n = lines.len();
    let mut out: Vec<char> = Vec::new();
    let mut index: usize = 0;
    while index < n
        invariant
            n == lines@.len(),
            lv == block_views(lines@),
            index <= n,
            out@ + spec_fold_block(lv, index as int) == spec_fold_block(lv, 0),
        decreases n - index,
    {
        let ghost before = out@;
        proof {
            lemma_blank_end(lv, index as int);
            lemma_blank_end(lv, index + 1);
        }
        if lines[index].text.len() == 0 {
            let end = blank_end(lines, index);
            let blank = end - index;
            let count = if end == n {
                if blank >= 1 {
                    blank - 1
                } else {
                    0
                }
            } else {
                blank
            };
            push_repeat(&mut out, '\n', count);
            proof {
                assert(out@ + spec_fold_block(lv, end as int) == before + (newlines(count as nat) + spec_fold_block(lv, end as int)));
            }
            index = end;
            continue;
        }
        push_all(&mut out, lines[index].text.as_slice());
        let e = blank_end(lines, index + 1);
        let blank = e - (index + 1);
        if e >= n {
            push_repeat(&mut out, '\n', blank);
            proof {
                assert(spec_fold_block(lv, e as int) == Seq::<char>::empty());
                assert(out@ + spec_fold_block(lv, e as int) == before + spec_fold_block(lv, index as int));
            }
            index = e;
            continue;
        }
        let joined = lines[index].more_indented || lines[e].more_indented;
        if blank == 0 {
            if joined {
                out.push('\n');
            } else {
                out.push(' ');
            }
        } else {
            let extra: usize = if joined {
                1
            } else {
                0
            };
            push_repeat(&mut out, '\n', blank + extra);
        }
        proof {
            let sep = out@.subrange((before.len() + lv[index as int].0.len()) as int, out@.len() as int);
            assert(out@ == before + lv[index as int].0 + sep);
            assert(out@ + spec_fold_block(lv, e as int) == before + spec_fold_block(lv, index as int));
        }
        index = e;
    }
    assert(out@ + Seq::<char>::empty() == out@);
    out
}

/// The end of `s` without its trailing line feeds.
pub open spec fn spec_trim_newlines_end(s: Seq<char>, end: int) -> int
    decreases end,
{
    if end <= 0 || end > s.len() || s[end - 1] != '\n' {
        end
    } else {
        spec_trim_newlines_end(s, end - 1)
    }
}

/// A block scalar's value after chomping: strip removes the final line
/// breaks, clip keeps one of them (unless nothing else is left), keep keeps
/// them all.
pub open spec fn spec_block_chomp(s: Seq<char>, chomp: YamlBlockChomp) -> Seq<char> {
    let content_end = spec_trim_newlines_end(s, s.len() as int);
    match chomp {
        YamlBlockChomp::Strip => s.subrange(0, content_end),
        YamlBlockChomp::Clip => if content_end < s.len() && content_end > 0 {
            s.subrange(0, content_end) + seq!['\n']
        } else {
            s.subrange(0, content_end)
        },
        YamlBlockChomp::Keep => s,
    }
}

pub fn apply_block_chomp(value: &mut Vec<char>, chomp: YamlBlockChomp)
    ensures
        final(value)@ == spec_block_chomp(old(value)@, chomp),
{
    let ghost v = value@;
    let mut end = value.len();
    while end > 0 && value[end - 1] == '\n'
        invariant
            end <= value@.len(),
            value@ == v,
            spec_trim_newlines_end(v, end as int) == spec_trim_newlines_end(v, v.len() as int),
        decreases end,
    {
        end = end - 1;
    }
    match chomp {
        YamlBlockChomp::Strip => {
            value.truncate(end);
        },
        YamlBlockChomp::Clip => {
            let had_break = end < value.len();
            value.truncate(end);
            if had_break && value.len() > 0 {
                value.push('\n');
            }
        },
        YamlBlockChomp::Keep => {},
    }
}

/// Whether a line holds anything but spaces.
pub open spec fn spec_has_content(line: Seq<char>) -> bool {
    spec_space_run(line, 0) < line.len()
}

/// The first line from `i` that holds anything but spaces.
pub open spec fn spec_first_content(lines: Seq<Seq<char>>, i: int) -> Option<int>
    decreases lines.len() - i,
{
    if i < 0 || i >= lines.len() {
        None
    } else if spec_has_content(lines[i]) {
        Some(i)
    } else {
        spec_first_content(lines, i + 1)
    }
}

/// The deepest indentation among the first `k` lines.
pub open spec fn spec_max_spaces(lines: Seq<Seq<char>>, k: int) -> int
    decreases k,
{
    if k <= 0 || k > lines.len() {
        0
    } else {
        let m = spec_max_spaces(lines, k - 1);
        let v = spec_space_run(lines[k - 1], 0);
        if k == 1 || v > m {
            v
        } else {
            m
        }
    }
}

/// The first `k` lines of a block scalar with `content_indent` spaces
/// removed, or `None` when a line with content is less indented.
pub open spec fn spec_block_lines(lines: Seq<Seq<char>>, content_indent: int, k: int) -> Option<Seq<(Seq<char>, bool)>>
    decreases k,
{
    if k <= 0 || k > lines.len() {
        Some(seq![])
    } else {
        match spec_block_lines(lines, content_indent, k - 1) {
            None => None,
            Some(done) => {
                let line = lines[k - 1];
                let indent = spec_space_run(line, 0);
                let strip = if indent <= content_indent {
                    indent
                } else {
                    content_indent
                };
                let text = line.subrange(strip, line.len() as int);
                if indent < content_indent && text.len() > 0 {
                    None
                } else {
                    Some(done.push((text, text.len() > 0 && (text[0] == ' ' || text[0] == '\t'))))
                }
            },
        }
    }
}

/// Lines joined with line feeds.
pub open spec fn spec_join_lines(texts: Seq<Seq<char>>) -> Seq<char>
    decreases texts.len(),
{
    if texts.len() == 0 {
        seq![]
    } else if texts.len() == 1 {
        texts[0]
    } else {
        spec_join_lines(texts.drop_last()) + seq!['\n'] + texts.last()
    }
}

/// The indentation of a block scalar's content: the header's indicator
/// added to the parent's indentation, else the first content line's, else
/// the deepest line's.
pub open spec fn spec_content_indent(lines: Seq<Seq<char>>, header: YamlBlockScalarHeader, parent_indent: usize) -> Option<int> {
    match header.indent {
        Some(d) => if parent_indent + d > usize::MAX {
            None
        } else {
            Some(parent_indent + d)
        },
        None => match spec_first_content(lines, 0) {
            Some(i) => Some(spec_space_run(lines[i], 0)),
            None => if lines.len() > 0 {
                Some(spec_max_spaces(lines, lines.len() as int))
            } else if parent_indent < usize::MAX {
                Some(parent_indent + 1)
            } else {
                Some(parent_indent as int)
            },
        },
    }
}

/// Without an indentation indicator, a blank line before the first content
/// line is more indented than the content.
pub open spec fn spec_over_indented_blank(
    lines: Seq<Seq<char>>,
    header: YamlBlockScalarHeader,
    first: Option<int>,
    ci: int,
) -> bool {
    match first {
        Some(i) => header.indent is None && exists|j: int| 0 <= j < i && spec_space_run(#[trigger] lines[j], 0) > ci,
        None => false,
    }
}

/// The value of a block scalar body under its header; `None` for what the
/// check does not decode (a byte-order mark, bad indentation, a style that
/// is no block style).
pub open spec fn spec_decode_block_scalar(
    body: Seq<char>,
    style: YamlScalarStyle,
    header: YamlBlockScalarHeader,
    parent_indent: usize,
) -> Option<Seq<char>> {
    let b = spec_normalize_line_endings(body);
    let lines = spec_split(b, '\n');
    let first = spec_first_content(lines, 0);
    if b.contains('\u{feff}') {
        None
    } else {
        match spec_content_indent(lines, header, parent_indent) {
            None => None,
            Some(ci) => if (first is Some && ci <= parent_indent) || spec_over_indented_blank(lines, header, first, ci) {
                None
            } else {
                match spec_block_lines(lines, ci, lines.len() as int) {
                    None => None,
                    Some(bl) => match style {
                        YamlScalarStyle::LiteralBlock => Some(
                            spec_block_chomp(spec_join_lines(bl.map_values(|l: (Seq<char>, bool)| l.0)), header.chomp),
                        ),
                        YamlScalarStyle::FoldedBlock => Some(spec_block_chomp(spec_fold_block(bl, 0), header.chomp)),
                        _ => None,
                    },
                }
            },
        }
    }
}

/// The lines of a block scalar with the content indentation removed.
fn block_lines(pieces: &Vec<Vec<char>>, content_indent: usize) -> (r: Option<Vec<BlockLine>>)
    ensures
        match spec_block_lines(char_views(pieces@), content_indent as int, pieces@.len() as int) {
            Some(bl) => r matches Some(v) && block_views(v@) == bl,
            None => r is None,
        },
        r matches Some(v) ==> v@.len() == pieces@.len(),
{
    let ghost pv = char_views(pieces@);
    let mut out: Vec<BlockLine> = Vec::new();
    let mut k: usize = 0;
    while k < pieces.len()
        invariant
            k <= pieces@.len(),
            pv == char_views(pieces@),
            out@.len() == k,
            spec_block_lines(pv, content_indent as int, k as int) == Some(block_views(out@)),
        decreases pieces@.len() - k,
    {
        let line = &pieces[k];
        proof {
            assert(pv[k as int] == line@);
        }
        let indent = leading_spaces(line.as_slice());
        let strip = if indent <= content_indent {
            indent
        } else {
            content_indent
        };
        let text = sub_chars(line.as_slice(), strip, line.len());
        if indent < content_indent && text.len() > 0 {
            proof {
                lemma_block_lines_none(pv, content_indent as int, k + 1);
            }
            return None;
        }
        let more = text.len() > 0 && (text[0] == ' ' || text[0] == '\t');
        let ghost before = out@;
        out.push(BlockLine { text, more_indented: more });
        proof {
            assert(block_views(out@) == block_views(before).push((text@, more)));
        }
        k = k + 1;
    }
    Some(out)
}

proof fn lemma_block_lines_none(lines: Seq<Seq<char>>, ci: int, k: int)
    requires
        0 < k <= lines.len(),
        spec_block_lines(lines, ci, k) is None,
    ensures
        spec_block_lines(lines, ci, lines.len() as int) is None,
    decreases lines.len() - k,
{
    if k < lines.len() {
        lemma_block_lines_none(lines, ci, k + 1);
    }
}

/// Lines joined with line feeds.
fn join_lines(lines: &Vec<BlockLine>) -> (r: Vec<char>)
    ensures
        r@ == spec_join_lines(block_views(lines@).map_values(|l: (Seq<char>, bool)| l.0)),
{
    let ghost texts = block_views(lines@).map_values(|l: (Seq<char>, bool)| l.0);
    let mut out: Vec<char> = Vec::new();
    let mut k: usize = 0;
    while k < lines.len()
        invariant
            k <= lines@.len(),
            texts == block_views(lines@).map_values(|l: (Seq<char>, bool)| l.0),
            out@ == spec_join_lines(texts.subrange(0, k as int)),
        decreases lines@.len() - k,
    {
        proof {
            assert(texts.subrange(0, k + 1).drop_last() == texts.subrange(0, k as int));
            assert(texts[k as int] == lines@[k as int].text@);
        }
        if k > 0 {
            out.push('\n');
        }
        push_all(&mut out, lines[k].text.as_slice());
        k = k + 1;
    }
    assert(texts.subrange(0, texts.len() as int) == texts);
    out
}

/// Decodes a block scalar body.
#[verifier::rlimit(60)]
pub fn decode_block_scalar(
    body: &[char],
    style: YamlScalarStyle,
    header: YamlBlockScalarHeader,
    parent_indent: usize,
) -> (r: Option<Vec<char>>)
    ensures
        match spec_decode_block_scalar(body@, style, header, parent_indent) {
            Some(v) => r matches Some(x) && x@ == v,
            None => r is None,
        },
{
    let b = normalize_line_endings(body);
    if crate::text::contains_char(b.as_slice(), '\u{feff}') {
        return None;
    }
    let pieces = split_char(b.as_slice(), '\n');
    let ghost lines = char_views(pieces@);
    proof {
        crate::yaml_line_format::lemma_split_nonempty(b@, '\n');
    }
    let n = pieces.len();
    let mut first: Option<usize> = None;
    let mut i: usize = 0;
    while i < n
        invariant
            n == pieces@.len(),
            lines == char_views(pieces@),
            i <= n,
            first is None,
            spec_first_content(lines, i as int) == spec_first_content(lines, 0),
        decreases n - i,
    {
        proof {
            assert(lines[i as int] == pieces@[i as int]@);
        }
        if leading_spaces(pieces[i].as_slice()) < pieces[i].len() {
            first = Some(i);
            break;
        }
        i = i + 1;
    }
    assert(match spec_first_content(lines, 0) {
        Some(x) => first == Some(x as usize),
        None => first is None,
    });
    let content_indent: usize = match header.indent {
        Some(d) => {
            if parent_indent > usize::MAX - (d as usize) {
                return None;
            }
            parent_indent + d as usize
        },
        None => match first {
            Some(x) => {
                proof {
                    assert(lines[x as int] == pieces@[x as int]@);
                }
                leading_spaces(pieces[x].as_slice())
            },
            None => {
                let mut m: usize = 0;
                let mut k: usize = 0;
                while k < n
                    invariant
                        k <= n == pieces@.len(),
                        lines == char_views(pieces@),
                        n >= 1,
                        k >= 1 ==> m == spec_max_spaces(lines, k as int),
                    decreases n - k,
                {
                    proof {
                        assert(lines[k as int] == pieces@[k as int]@);
                    }
                    let v = leading_spaces(pieces[k].as_slice());
                    if k == 0 || v > m {
                        m = v;
                    }
                    k = k + 1;
                }
                m
            },
        },
    };
    assert(spec_content_indent(lines, header, parent_indent) == Some(content_indent as int));
    match first {
        Some(x) => {
            if content_indent <= parent_indent {
                return None;
            }
            if header.indent.is_none() {
                let mut j: usize = 0;
                while j < x
                    invariant
                        j <= x < n == pieces@.len(),
                        lines == char_views(pieces@),
                        forall|t: int| 0 <= t < j ==> spec_space_run(#[trigger] lines[t], 0) <= content_indent,
                    decreases x - j,
                {
                    proof {
                        assert(lines[j as int] == pieces@[j as int]@);
                    }
                    if leading_spaces(pieces[j].as_slice()) > content_indent {
                        return None;
                    }
                    j = j + 1;
                }
            }
        },
        None => {},
    }
    let lines_out = match block_lines(&pieces, content_indent) {
        None => {
            return None;
        },
        Some(v) => v,
    };
    let mut value = match style {
        YamlScalarStyle::LiteralBlock => join_lines(&lines_out),
        YamlScalarStyle::FoldedBlock => fold_block_lines(&lines_out),
        _ => {
            return None;
        },
    };
    apply_block_chomp(&mut value, header.chomp);
    Some(value)
}

/// A scalar as the equivalence check compares it: by its semantic kind and
/// decoded content.
#[derive(Debug)]
pub enum ComparableScalar {
    String(Vec<char>),
    Null,
    Boolean(bool),
    Integer(Vec<char>),
    Float(Vec<char>),
    Unknown(Vec<char>),
}

/// The decoded content of a scalar: a block scalar from its body and
/// header, a plain scalar folded (none with a byte-order mark in it), a
/// quoted scalar with its escapes.
pub open spec fn spec_decoded_scalar(
    raw: Seq<char>,
    body: Option<Seq<char>>,
    style: YamlScalarStyle,
    block_header: Option<YamlBlockScalarHeader>,
    parent_indent: usize,
) -> Option<Seq<char>> {
    match body {
        Some(b) => match block_header {
            None => None,
            Some(h) => spec_decode_block_scalar(b, style, h, parent_indent),
        },
        None => match style {
            YamlScalarStyle::Plain => if raw.contains('\u{feff}') {
                None
            } else {
                Some(spec_decode_plain(raw))
            },
            YamlScalarStyle::SingleQuoted => spec_decode_quoted_scalar(raw),
            YamlScalarStyle::DoubleQuoted => spec_decode_quoted_scalar(raw),
            _ => None,
        },
    }
}

/// The comparable value of a scalar.
pub open spec fn spec_comparable(decoded: Seq<char>, semantic: YamlScalarSemantic, r: ComparableScalar) -> bool {
    match semantic {
        YamlScalarSemantic::String => r matches ComparableScalar::String(v) && v@ == decoded,
        YamlScalarSemantic::Null => r is Null,
        YamlScalarSemantic::Boolean => spec_yaml_bool(decoded) matches Some(b) && r matches ComparableScalar::Boolean(x)
            && x == b,
        YamlScalarSemantic::Integer => r matches ComparableScalar::Integer(v) && v@ == decoded,
        YamlScalarSemantic::Float => r matches ComparableScalar::Float(v) && v@ == decoded,
        YamlScalarSemantic::Unknown => r matches ComparableScalar::Unknown(v) && v@ == decoded,
    }
}

pub fn comparable_scalar_value(
    raw: &[char],
    body: Option<&[char]>,
    style: YamlScalarStyle,
    semantic: YamlScalarSemantic,
    block_header: Option<YamlBlockScalarHeader>,
    parent_indent: usize,
) -> (r: Option<ComparableScalar>)
    ensures
        match spec_decoded_scalar(
            raw@,
            match body {
                Some(b) => Some(b@),
                None => None,
            },
            style,
            block_header,
            parent_indent,
        ) {
            None => r is None,
            Some(d) => match r {
                Some(c) => spec_comparable(d, semantic, c),
                None => semantic == YamlScalarSemantic::Boolean && spec_yaml_bool(d) is None,
            },
        },
        match spec_decoded_scalar(
            raw@,
            match body {
                Some(b) => Some(b@),
                None => None,
            },
            style,
            block_header,
            parent_indent,
        ) {
            None => r is None,
            Some(d) => match r {
                Some(c) => spec_comparable_of(d, semantic) == Some(spec_cview(c)),
                None => spec_comparable_of(d, semantic) is None,
            },
        },
{
    let decoded = match body {
        Some(b) => match block_header {
            None => {
                return None;
            },
            Some(h) => match decode_block_scalar(b, style, h, parent_indent) {
                None => {
                    return None;
                },
                Some(v) => v,
            },
        },
        None => match style {
            YamlScalarStyle::Plain => {
                if crate::text::contains_char(raw, '\u{feff}') {
                    return None;
                }
                decode_plain_scalar(raw)
            },
            YamlScalarStyle::SingleQuoted | YamlScalarStyle::DoubleQuoted => match decode_quoted_scalar(raw) {
                None => {
                    return None;
                },
                Some(v) => v,
            },
            _ => {
                return None;
            },
        },
    };
    match semantic {
        YamlScalarSemantic::String => Some(ComparableScalar::String(decoded)),
        YamlScalarSemantic::Null => Some(ComparableScalar::Null),
        YamlScalarSemantic::Boolean => match yaml_bool(decoded.as_slice()) {
            Some(b) => Some(ComparableScalar::Boolean(b)),
            None => None,
        },
        YamlScalarSemantic::Integer => Some(ComparableScalar::Integer(decoded)),
        YamlScalarSemantic::Float => Some(ComparableScalar::Float(decoded)),
        YamlScalarSemantic::Unknown => Some(ComparableScalar::Unknown(decoded)),
    }
}

/// A comparable scalar as (kind, content, truth value): strings, integers,
/// floats and unknowns by their content, booleans by their value.
pub open spec fn spec_cview(c: ComparableScalar) -> (int, Seq<char>, bool) {
    match c {
        ComparableScalar::String(v) => (0, v@, false),
        ComparableScalar::Null => (1, Seq::empty(), false),
        ComparableScalar::Boolean(b) => (2, Seq::empty(), b),
        ComparableScalar::Integer(v) => (3, v@, false),
        ComparableScalar::Float(v) => (4, v@, false),
        ComparableScalar::Unknown(v) => (5, v@, false),
    }
}

/// The comparable value of decoded content with a semantic kind; none for
/// a boolean that is no boolean spelling.
pub open spec fn spec_comparable_of(decoded: Seq<char>, semantic: YamlScalarSemantic) -> Option<
    (int, Seq<char>, bool),
> {
    match semantic {
        YamlScalarSemantic::String => Some((0, decoded, false)),
        YamlScalarSemantic::Null => Some((1, Seq::empty(), false)),
        YamlScalarSemantic::Boolean => match spec_yaml_bool(decoded) {
            Some(b) => Some((2, Seq::empty(), b)),
            None => None,
        },
        YamlScalarSemantic::Integer => Some((3, decoded, false)),
        YamlScalarSemantic::Float => Some((4, decoded, false)),
        YamlScalarSemantic::Unknown => Some((5, decoded, false)),
    }
}

/// Whether a comparable scalar is the empty string (or an empty unknown).
pub open spec fn spec_cview_empty(v: (int, Seq<char>, bool)) -> bool {
    (v.0 == 0 || v.0 == 5) && v.1.len() == 0
}

/// Whether a comparable scalar is the empty string.
pub fn comparable_scalar_is_empty_string(value: &ComparableScalar) -> (r: bool)
    ensures
        r == spec_cview_empty(spec_cview(*value)),
{
    match value {
        ComparableScalar::String(v) => v.len() == 0,
        ComparableScalar::Unknown(v) => v.len() == 0,
        _ => false,
    }
}

/// Whether two comparable scalars are equal.
pub fn comparable_scalars_equal(a: &ComparableScalar, b: &ComparableScalar) -> (r: bool)
    ensures
        r == (spec_cview(*a) == spec_cview(*b)),
{
    match (a, b) {
        (ComparableScalar::String(x), ComparableScalar::String(y)) => crate::text::chars_eq(
            x.as_slice(),
            y.as_slice(),
        ),
        (ComparableScalar::Null, ComparableScalar::Null) => true,
        (ComparableScalar::Boolean(x), ComparableScalar::Boolean(y)) => *x == *y,
        (ComparableScalar::Integer(x), ComparableScalar::Integer(y)) => crate::text::chars_eq(
            x.as_slice(),
            y.as_slice(),
        ),
        (ComparableScalar::Float(x), ComparableScalar::Float(y)) => crate::text::chars_eq(
            x.as_slice(),
            y.as_slice(),
        ),
        (ComparableScalar::Unknown(x), ComparableScalar::Unknown(y)) => crate::text::chars_eq(
            x.as_slice(),
            y.as_slice(),
        ),
        _ => false,
    }
}

} // verus!
