//! Text rewrites of YAML block scalars: prose normalization and wrapping,
//! folded-block prose, re-indentation of block bodies and the chomping
//! indicators of block scalar headers.
use vstd::prelude::*;
use crate::text::{is_ws, push_all, push_repeat, spec_trim, spec_ws, sub_chars, trim};
use crate::yaml_line_format::{char_views, spec_split_lines_from, spec_str_lines, split_lines_inclusive, str_lines};
use crate::source::Span;
use crate::yaml_model::YamlBlockChomp;
use crate::yaml_lines::{spec_skip_ascii_ws_until, find_trailing_comment, scan_start, spec_find_unquoted, newline_chars, spaces, spec_newline_chars, spec_spaces, spec_strip_newline, strip_newline, Newline};

verus! {

/// The state of prose normalization after a prefix: the text so far and
/// whether whitespace is pending.
pub open spec fn spec_prose_state(s: Seq<char>) -> (Seq<char>, bool)
    decreases s.len(),
{
    if s.len() == 0 {
        (seq![], false)
    } else {
        let (out, pending) = spec_prose_state(s.drop_last());
        let c = s.last();
        if spec_ws(c) {
            (out, true)
        } else if pending && out.len() > 0 {
            (out + seq![' ', c], false)
        } else {
            (out.push(c), false)
        }
    }
}

/// The words of `s` separated by single spaces, with no whitespace at
/// either end.
pub open spec fn spec_normalize_prose(s: Seq<char>) -> Seq<char> {
    spec_prose_state(s).0
}

pub fn normalize_yaml_prose(source: &[char]) -> (r: Vec<char>)
    ensures
        r@ == spec_normalize_prose(source@),
{
    let mut out: Vec<char> = Vec::new();
    let mut pending = false;
    let mut i: usize = 0;
    while i < source.len()
        invariant
            i <= source@.len(),
            (out@, pending) == spec_prose_state(source@.subrange(0, i as int)),
        decreases source@.len() - i,
    {
        let c = source[i];
        proof {
            let pre = source@.subrange(0, i + 1);
            assert(pre.drop_last() =~= source@.subrange(0, i as int));
            assert(pre.last() == c);
        }
        if is_ws(c) {
            pending = true;
        } else {
            if pending && out.len() > 0 {
                out.push(' ');
            }
            out.push(c);
            pending = false;
            proof {
                let (o, p) = spec_prose_state(source@.subrange(0, i as int));
                if p && o.len() > 0 {
                    assert(out@ =~= o + seq![' ', c]);
                }
            }
        }
        i = i + 1;
    }
    assert(source@.subrange(0, source@.len() as int) =~= source@);
    out
}

/// `str::split_whitespace` as a scan: the finished words and the word in
/// progress after a prefix.
pub open spec fn spec_words_state(s: Seq<char>) -> (Seq<Seq<char>>, Seq<char>)
    decreases s.len(),
{
    if s.len() == 0 {
        (seq![], seq![])
    } else {
        let (words, current) = spec_words_state(s.drop_last());
        let c = s.last();
        if spec_ws(c) {
            if current.len() > 0 {
                (words.push(current), seq![])
            } else {
                (words, seq![])
            }
        } else {
            (words, current.push(c))
        }
    }
}

/// The maximal runs of non-whitespace characters of `s`.
pub open spec fn spec_words(s: Seq<char>) -> Seq<Seq<char>> {
    let (words, current) = spec_words_state(s);
    if current.len() > 0 {
        words.push(current)
    } else {
        words
    }
}

/// The words of `s`.
fn split_words(s: &[char]) -> (r: Vec<Vec<char>>)
    ensures
        r@.map_values(|w: Vec<char>| w@) == spec_words(s@),
        forall|k: int| 0 <= k < r@.len() ==> (#[trigger] r@[k])@.len() > 0 && r@[k]@.len() <= s@.len(),
{
    let mut words: Vec<Vec<char>> = Vec::new();
    let mut current: Vec<char> = Vec::new();
    let mut i: usize = 0;
    while i < s.len()
        invariant
            i <= s@.len(),
            (words@.map_values(|w: Vec<char>| w@), current@) == spec_words_state(s@.subrange(0, i as int)),
            forall|k: int| 0 <= k < words@.len() ==> (#[trigger] words@[k])@.len() > 0 && words@[k]@.len() <= i,
            current@.len() <= i,
        decreases s@.len() - i,
    {
        let c = s[i];
        proof {
            let pre = s@.subrange(0, i + 1);
            assert(pre.drop_last() =~= s@.subrange(0, i as int));
            assert(pre.last() == c);
        }
        if is_ws(c) {
            if current.len() > 0 {
                let ghost before = words@;
                let done = current;
                words.push(done);
                current = Vec::new();
                assert(words@.map_values(|w: Vec<char>| w@) =~= before.map_values(|w: Vec<char>| w@).push(done@));
            } else {
                current = Vec::new();
            }
        } else {
            current.push(c);
        }
        i = i + 1;
    }
    assert(s@.subrange(0, s@.len() as int) =~= s@);
    if current.len() > 0 {
        let ghost before = words@;
        let done = current;
        words.push(done);
        assert(words@.map_values(|w: Vec<char>| w@) =~= before.map_values(|w: Vec<char>| w@).push(done@));
    }
    words
}

/// Greedy filling of lines of at most `width` characters, as a scan over
/// the words: the finished lines and the line in progress.
pub open spec fn spec_wrap_state(words: Seq<Seq<char>>, width: int) -> (Seq<Seq<char>>, Seq<char>)
    decreases words.len(),
{
    if words.len() == 0 {
        (seq![], seq![])
    } else {
        let (lines, current) = spec_wrap_state(words.drop_last(), width);
        let w = words.last();
        if current.len() == 0 {
            (lines, w)
        } else if current.len() + 1 + w.len() <= width {
            (lines, current + seq![' '] + w)
        } else {
            (lines.push(current), w)
        }
    }
}

/// The words of `source` filled greedily into lines of at most `width`
/// characters; a word longer than `width` stands on a line of its own.
pub open spec fn spec_wrap_prose(source: Seq<char>, width: int) -> Seq<Seq<char>> {
    let (lines, current) = spec_wrap_state(spec_words(source), width);
    if current.len() > 0 {
        lines.push(current)
    } else {
        lines
    }
}

pub fn wrap_yaml_prose(source: &[char], width: usize) -> (r: Vec<Vec<char>>)
    ensures
        r@.map_values(|l: Vec<char>| l@) == spec_wrap_prose(source@, width as int),
{
    let words = split_words(source);
    let ghost wv = words@.map_values(|w: Vec<char>| w@);
    let mut lines: Vec<Vec<char>> = Vec::new();
    let mut current: Vec<char> = Vec::new();
    let mut k: usize = 0;
    while k < words.len()
        invariant
            k <= words@.len(),
            wv == words@.map_values(|w: Vec<char>| w@),
            (lines@.map_values(|l: Vec<char>| l@), current@) == spec_wrap_state(wv.subrange(0, k as int), width as int),
        decreases words@.len() - k,
    {
        proof {
            let pre = wv.subrange(0, k + 1);
            assert(pre.drop_last() =~= wv.subrange(0, k as int));
            assert(pre.last() == words@[k as int]@);
        }
        let wl = words[k].len();
        if current.len() == 0 {
            current = copy_word(&words[k]);
        } else if wl <= width && current.len() < width - wl {
            current.push(' ');
            push_all(&mut current, words[k].as_slice());
        } else {
            let ghost before = lines@;
            let done = current;
            lines.push(done);
            assert(lines@.map_values(|l: Vec<char>| l@) =~= before.map_values(|l: Vec<char>| l@).push(done@));
            current = copy_word(&words[k]);
        }
        k = k + 1;
    }
    assert(wv.subrange(0, words@.len() as int) =~= wv);
    if current.len() > 0 {
        let ghost before = lines@;
        let done = current;
        lines.push(done);
        assert(lines@.map_values(|l: Vec<char>| l@) =~= before.map_values(|l: Vec<char>| l@).push(done@));
    }
    lines
}

fn copy_word(w: &Vec<char>) -> (r: Vec<char>)
    ensures
        r@ == w@,
{
    crate::text::copy_chars(w.as_slice())
}


/// The pieces joined with single spaces.
pub open spec fn spec_join_spaces(items: Seq<Seq<char>>) -> Seq<char>
    decreases items.len(),
{
    if items.len() == 0 {
        seq![]
    } else if items.len() == 1 {
        items[0]
    } else {
        spec_join_spaces(items.drop_last()) + seq![' '] + items.last()
    }
}

fn join_spaces(items: &Vec<Vec<char>>) -> (r: Vec<char>)
    ensures
        r@ == spec_join_spaces(char_views(items@)),
{
    let mut out: Vec<char> = Vec::new();
    let mut k: usize = 0;
    while k < items.len()
        invariant
            k <= items@.len(),
            out@ == spec_join_spaces(char_views(items@).subrange(0, k as int)),
        decreases items@.len() - k,
    {
        proof {
            let pre = char_views(items@).subrange(0, k + 1);
            assert(pre.drop_last() =~= char_views(items@).subrange(0, k as int));
            assert(pre.last() == items@[k as int]@);
        }
        if k > 0 {
            out.push(' ');
        }
        push_all(&mut out, items[k].as_slice());
        proof {
            if k == 0 {
                assert(char_views(items@).subrange(0, 1) =~= seq![items@[0]@]);
            }
        }
        k = k + 1;
    }
    assert(char_views(items@).subrange(0, items@.len() as int) =~= char_views(items@));
    out
}

/// A line with its line break split off: the body and the break.
pub open spec fn spec_line_body(l: Seq<char>) -> Seq<char> {
    l.subrange(0, spec_strip_newline(l).0)
}

/// The prose of a folded block body: the state after some lines (the
/// content indentation, the trimmed lines, the blank lines since the last
/// content line, whether the last line had a line break), or `None` when
/// the body is no simple prose (a blank line before content or between
/// content lines, or a line indented less than the first).
pub open spec fn spec_fold_prose_from(
    lines: Seq<Seq<char>>,
    k: int,
    indent: Option<int>,
    parts: Seq<Seq<char>>,
    pending: int,
    final_newline: bool,
) -> Option<(Option<int>, Seq<Seq<char>>, int, bool)>
    decreases lines.len() - k,
{
    if k < 0 || k >= lines.len() {
        Some((indent, parts, pending, final_newline))
    } else {
        let l = lines[k];
        let body = spec_line_body(l);
        let has_newline = spec_strip_newline(l).1 != Newline::Missing;
        if spec_trim(body).len() == 0 {
            if parts.len() == 0 {
                None
            } else {
                spec_fold_prose_from(lines, k + 1, indent, parts, pending + 1, has_newline)
            }
        } else if pending > 0 {
            None
        } else {
            let line_indent = spec_spaces(body, 0);
            let ind = match indent {
                Some(x) => x,
                None => line_indent,
            };
            if line_indent < ind {
                None
            } else {
                spec_fold_prose_from(
                    lines,
                    k + 1,
                    Some(ind),
                    parts.push(spec_trim(body.subrange(ind, body.len() as int))),
                    pending,
                    has_newline,
                )
            }
        }
    }
}

/// A folded block body read as one paragraph of prose: its normalized text,
/// its content indentation, whether it ends with a line break and how many
/// blank lines end it.
pub open spec fn spec_folded_block_body_prose(body: Seq<char>) -> Option<(Seq<char>, int, bool, int)> {
    match spec_fold_prose_from(spec_split_lines_from(body, 0, 0), 0, None, seq![], 0, false) {
        None => None,
        Some((indent, parts, pending, final_newline)) => match indent {
            None => None,
            Some(i) => {
                let prose = spec_normalize_prose(spec_join_spaces(parts));
                if prose.len() == 0 {
                    None
                } else {
                    Some((prose, i, final_newline, pending))
                }
            },
        },
    }
}

/// A folded block body as prose.
#[derive(Debug)]
pub struct FoldedBlockProse {
    pub text: Vec<char>,
    pub indent: usize,
    pub final_newline: bool,
    pub trailing_blank_lines: usize,
}

pub fn folded_block_body_prose(body: &[char]) -> (r: Option<FoldedBlockProse>)
    ensures
        match spec_folded_block_body_prose(body@) {
            None => r is None,
            Some((text, indent, final_newline, blank)) => r matches Some(p) && p.text@ == text && p.indent == indent
                && p.final_newline == final_newline && p.trailing_blank_lines == blank,
        },
{
    let lines = split_lines_inclusive(body);
    let ghost lv = char_views(lines@);
    let mut indent: Option<usize> = None;
    let mut parts: Vec<Vec<char>> = Vec::new();
    let mut pending: usize = 0;
    let mut final_newline = false;
    let mut k: usize = 0;
    assert(char_views(parts@) =~= Seq::<Seq<char>>::empty());
    while k < lines.len()
        invariant
            k <= lines@.len(),
            lv == char_views(lines@),
            lv == spec_split_lines_from(body@, 0, 0),
            pending <= k,
            forall|j: int| 0 <= j < lines@.len() ==> (#[trigger] lines@[j])@.len() <= body@.len(),
            indent matches Some(x) ==> x <= body@.len(),
            spec_fold_prose_from(lv, 0, None, seq![], 0, false) == spec_fold_prose_from(
                lv,
                k as int,
                match indent {
                    Some(x) => Some(x as int),
                    None => None,
                },
                char_views(parts@),
                pending as int,
                final_newline,
            ),
        decreases lines@.len() - k,
    {
        let line = &lines[k];
        assert(line@ == lv[k as int]);
        let (bl, nl) = strip_newline(line.as_slice());
        let lb = sub_chars(line.as_slice(), 0, bl);
        let has_newline = nl != Newline::Missing;
        final_newline = has_newline;
        let t = trim(lb.as_slice());
        if t.len() == 0 {
            if parts.len() == 0 {
                return None;
            }
            pending = pending + 1;
        } else {
            if pending > 0 {
                return None;
            }
            let line_indent = spaces(lb.as_slice(), 0);
            let ind = match indent {
                Some(x) => x,
                None => line_indent,
            };
            if line_indent < ind {
                return None;
            }
            let rest = sub_chars(lb.as_slice(), ind, lb.len());
            let part = trim(rest.as_slice());
            let ghost before = parts@;
            parts.push(part);
            assert(char_views(parts@) =~= char_views(before).push(part@));
            indent = Some(ind);
        }
        k = k + 1;
    }
    let ind = match indent {
        Some(x) => x,
        None => {
            return None;
        },
    };
    let joined = join_spaces(&parts);
    let prose = normalize_yaml_prose(joined.as_slice());
    if prose.len() == 0 {
        return None;
    }
    Some(FoldedBlockProse { text: prose, indent: ind, final_newline, trailing_blank_lines: pending })
}


/// `n` spaces.
pub open spec fn spec_space_seq(n: nat) -> Seq<char> {
    Seq::new(n, |i: int| ' ')
}

/// A line body with `strip` leading spaces removed when it has them.
pub open spec fn spec_strip_indent(body: Seq<char>, strip: nat) -> Seq<char> {
    if body.len() >= strip && body.subrange(0, strip as int) == spec_space_seq(strip) {
        body.subrange(strip as int, body.len() as int)
    } else {
        body
    }
}

/// One line re-indented: blank lines are kept as they are, other lines lose
/// `strip` leading spaces (when they have them) and get `emit` spaces.
pub open spec fn spec_reindent_line(l: Seq<char>, strip: nat, emit: nat) -> Seq<char> {
    let body = spec_line_body(l);
    let nl = spec_newline_chars(spec_strip_newline(l).1);
    if spec_trim(body).len() == 0 {
        body + nl
    } else {
        spec_space_seq(emit) + spec_strip_indent(body, strip) + nl
    }
}

pub open spec fn spec_reindent_lines(lines: Seq<Seq<char>>, strip: nat, emit: nat) -> Seq<char>
    decreases lines.len(),
{
    if lines.len() == 0 {
        seq![]
    } else {
        spec_reindent_lines(lines.drop_last(), strip, emit) + spec_reindent_line(lines.last(), strip, emit)
    }
}

/// A block body re-indented line by line; a body of one line without a line
/// break is re-indented even when it is blank.
pub open spec fn spec_reindent_block_lines(body: Seq<char>, strip: nat, emit: nat) -> Seq<char> {
    if body.len() > 0 && !body.contains('\n') && !body.contains('\r') {
        spec_space_seq(emit) + spec_strip_indent(body, strip)
    } else {
        spec_reindent_lines(spec_split_lines_from(body, 0, 0), strip, emit)
    }
}

fn has_space_prefix(body: &[char], n: usize) -> (r: bool)
    ensures
        r == (body@.len() >= n && body@.subrange(0, n as int) == spec_space_seq(n as nat)),
{
    if body.len() < n {
        return false;
    }
    let mut i: usize = 0;
    while i < n
        invariant
            i <= n <= body@.len(),
            forall|j: int| 0 <= j < i ==> body@[j] == ' ',
        decreases n - i,
    {
        if body[i] != ' ' {
            assert(body@.subrange(0, n as int)[i as int] != spec_space_seq(n as nat)[i as int]);
            return false;
        }
        i = i + 1;
    }
    assert(body@.subrange(0, n as int) =~= spec_space_seq(n as nat));
    true
}

fn push_strip_indent(out: &mut Vec<char>, body: &[char], strip: usize)
    ensures
        final(out)@ == old(out)@ + spec_strip_indent(body@, strip as nat),
{
    if has_space_prefix(body, strip) {
        let rest = sub_chars(body, strip, body.len());
        push_all(out, rest.as_slice());
    } else {
        push_all(out, body);
    }
}

fn push_spaces(out: &mut Vec<char>, n: usize)
    ensures
        final(out)@ == old(out)@ + spec_space_seq(n as nat),
{
    let ghost o = out@;
    push_repeat(out, ' ', n);
    assert(out@ =~= o + spec_space_seq(n as nat));
}

pub fn reindent_block_lines(body: &[char], strip_indent: usize, emit_indent: usize) -> (r: Vec<char>)
    ensures
        r@ == spec_reindent_block_lines(body@, strip_indent as nat, emit_indent as nat),
{
    if body.len() > 0 && !crate::text::contains_char(body, '\n') && !crate::text::contains_char(body, '\r') {
        let mut out: Vec<char> = Vec::new();
        push_spaces(&mut out, emit_indent);
        push_strip_indent(&mut out, body, strip_indent);
        return out;
    }
    let lines = split_lines_inclusive(body);
    let ghost lv = char_views(lines@);
    let mut out: Vec<char> = Vec::new();
    let mut k: usize = 0;
    while k < lines.len()
        invariant
            k <= lines@.len(),
            lv == char_views(lines@),
            out@ == spec_reindent_lines(lv.subrange(0, k as int), strip_indent as nat, emit_indent as nat),
        decreases lines@.len() - k,
    {
        proof {
            let pre = lv.subrange(0, k + 1);
            assert(pre.drop_last() =~= lv.subrange(0, k as int));
            assert(pre.last() == lines@[k as int]@);
        }
        let line = &lines[k];
        let ghost o = out@;
        let (bl, nl) = strip_newline(line.as_slice());
        let lb = sub_chars(line.as_slice(), 0, bl);
        let nlc = newline_chars(nl);
        let t = trim(lb.as_slice());
        if t.len() == 0 {
            push_all(&mut out, lb.as_slice());
        } else {
            push_spaces(&mut out, emit_indent);
            push_strip_indent(&mut out, lb.as_slice(), strip_indent);
        }
        push_all(&mut out, nlc.as_slice());
        assert(out@ =~= o + spec_reindent_line(line@, strip_indent as nat, emit_indent as nat));
        k = k + 1;
    }
    assert(lv.subrange(0, lines@.len() as int) =~= lv);
    out
}

/// Each line of `body` after `indent` spaces, its line break kept (a last
/// line without one gets `default_newline`).
pub open spec fn spec_indented_lines(lines: Seq<Seq<char>>, indent: nat, default_newline: Seq<char>) -> Seq<char>
    decreases lines.len(),
{
    if lines.len() == 0 {
        seq![]
    } else {
        let l = lines.last();
        let nl = spec_newline_chars(spec_strip_newline(l).1);
        spec_indented_lines(lines.drop_last(), indent, default_newline) + spec_space_seq(indent) + spec_line_body(l) + (
        if nl.len() == 0 {
            default_newline
        } else {
            nl
        })
    }
}

pub fn emit_indented_block(out: &mut Vec<char>, body: &[char], indent: usize, default_newline: &[char])
    ensures
        final(out)@ == old(out)@ + spec_indented_lines(spec_split_lines_from(body@, 0, 0), indent as nat, default_newline@),
{
    let lines = split_lines_inclusive(body);
    let ghost lv = char_views(lines@);
    let ghost start = out@;
    let mut k: usize = 0;
    while k < lines.len()
        invariant
            k <= lines@.len(),
            lv == char_views(lines@),
            out@ == start + spec_indented_lines(lv.subrange(0, k as int), indent as nat, default_newline@),
        decreases lines@.len() - k,
    {
        proof {
            let pre = lv.subrange(0, k + 1);
            assert(pre.drop_last() =~= lv.subrange(0, k as int));
            assert(pre.last() == lines@[k as int]@);
        }
        let line = &lines[k];
        let ghost o = out@;
        let (bl, nl) = strip_newline(line.as_slice());
        let lb = sub_chars(line.as_slice(), 0, bl);
        let nlc = newline_chars(nl);
        push_spaces(out, indent);
        push_all(out, lb.as_slice());
        if nlc.len() == 0 {
            push_all(out, default_newline);
        } else {
            push_all(out, nlc.as_slice());
        }
        let ghost nls = spec_newline_chars(spec_strip_newline(line@).1);
        assert(out@ =~= o + spec_space_seq(indent as nat) + spec_line_body(line@) + (if nls.len() == 0 {
            default_newline@
        } else {
            nls
        }));
        k = k + 1;
    }
    assert(lv.subrange(0, lines@.len() as int) =~= lv);
}


/// Where the trailing comment of a line body starts, or its end.
pub open spec fn spec_comment_start(body: Seq<char>) -> int {
    match spec_find_unquoted(body, 0, scan_start(), '#', 0) {
        Some(p) => p,
        None => body.len() as int,
    }
}

fn comment_start(body: &[char]) -> (r: usize)
    ensures
        r == spec_comment_start(body@),
        r <= body@.len(),
{
    proof {
        crate::yaml_lines::lemma_find_unquoted(body@, 0, scan_start(), '#', 0);
    }
    let found = find_trailing_comment(body, 0);
    match found {
        Some(p) => {
            let _n = body.len();
            p
        },
        None => body.len(),
    }
}

/// The last position before `end` that holds one of the block scalar
/// indicators (`|` or `>`, or `>` alone when `folded_only`).
pub open spec fn spec_last_marker(s: Seq<char>, end: int, folded_only: bool) -> Option<int>
    decreases end,
{
    if end <= 0 || end > s.len() {
        None
    } else if s[end - 1] == '>' || (!folded_only && s[end - 1] == '|') {
        Some(end - 1)
    } else {
        spec_last_marker(s, end - 1, folded_only)
    }
}

fn last_marker(s: &[char], end: usize, folded_only: bool) -> (r: Option<usize>)
    requires
        end <= s@.len(),
    ensures
        match spec_last_marker(s@, end as int, folded_only) {
            Some(m) => r == Some(m as usize) && 0 <= m < end,
            None => r is None,
        },
{
    let mut e = end;
    while e > 0
        invariant
            e <= end <= s@.len(),
            spec_last_marker(s@, e as int, folded_only) == spec_last_marker(s@, end as int, folded_only),
        decreases e,
    {
        let c = s[e - 1];
        if c == '>' || (!folded_only && c == '|') {
            return Some(e - 1);
        }
        e = e - 1;
    }
    None
}

/// The characters of `s` other than `-` and `+`.
pub open spec fn spec_without_chomp(s: Seq<char>) -> Seq<char>
    decreases s.len(),
{
    if s.len() == 0 {
        seq![]
    } else if s.last() == '-' || s.last() == '+' {
        spec_without_chomp(s.drop_last())
    } else {
        spec_without_chomp(s.drop_last()).push(s.last())
    }
}

pub open spec fn spec_chomp_indicator(chomp: YamlBlockChomp) -> Seq<char> {
    match chomp {
        YamlBlockChomp::Clip => seq![],
        YamlBlockChomp::Strip => seq!['-'],
        YamlBlockChomp::Keep => seq!['+'],
    }
}

/// A block scalar header line with its chomping indicator replaced; a line
/// without `|` or `>` before its comment is kept.
pub open spec fn spec_rewrite_block_chomp(header: Seq<char>, chomp: YamlBlockChomp) -> Seq<char> {
    let body = spec_line_body(header);
    let nl = spec_newline_chars(spec_strip_newline(header).1);
    let cs = spec_comment_start(body);
    match spec_last_marker(body, cs, false) {
        None => header,
        Some(m) => body.subrange(0, m + 1) + spec_without_chomp(body.subrange(m + 1, cs)) + spec_chomp_indicator(
            chomp,
        ) + body.subrange(cs, body.len() as int) + nl,
    }
}

#[verifier::rlimit(40)]
pub fn rewrite_yaml_block_chomp(header: &[char], chomp: YamlBlockChomp) -> (r: Vec<char>)
    ensures
        r@ == spec_rewrite_block_chomp(header@, chomp),
{
    let (bl, nl) = strip_newline(header);
    let body = sub_chars(header, 0, bl);
    let cs = comment_start(body.as_slice());
    let marker = match last_marker(body.as_slice(), cs, false) {
        Some(m) => m,
        None => {
            return crate::text::copy_chars(header);
        },
    };
    let mut out = sub_chars(body.as_slice(), 0, marker + 1);
    let ghost o = out@;
    let mut i: usize = marker + 1;
    while i < cs
        invariant
            marker + 1 <= i <= cs <= body@.len(),
            out@ == o + spec_without_chomp(body@.subrange(marker + 1, i as int)),
        decreases cs - i,
    {
        let c = body[i];
        proof {
            let pre = body@.subrange(marker + 1, i + 1);
            assert(pre.drop_last() =~= body@.subrange(marker + 1, i as int));
            assert(pre.last() == c);
        }
        if c != '-' && c != '+' {
            out.push(c);
        }
        i = i + 1;
    }
    match chomp {
        YamlBlockChomp::Clip => {},
        YamlBlockChomp::Strip => out.push('-'),
        YamlBlockChomp::Keep => out.push('+'),
    }
    let tail = sub_chars(body.as_slice(), cs, body.len());
    push_all(&mut out, tail.as_slice());
    let nlc = newline_chars(nl);
    push_all(&mut out, nlc.as_slice());
    out
}

/// A header whose last `>` before its comment is followed only by `-`,
/// spaces and tabs.
pub open spec fn spec_simple_folded_block_header(header: Seq<char>) -> bool {
    let body = spec_line_body(header);
    let cs = spec_comment_start(body);
    match spec_last_marker(body, cs, true) {
        None => false,
        Some(m) => forall|k: int| m + 1 <= k < cs ==> (#[trigger] body[k] == '-' || body[k] == ' ' || body[k] == '\t'),
    }
}

pub fn simple_folded_block_header(header: &[char]) -> (r: bool)
    ensures
        r == spec_simple_folded_block_header(header@),
{
    let (bl, _nl) = strip_newline(header);
    let body = sub_chars(header, 0, bl);
    let cs = comment_start(body.as_slice());
    let marker = match last_marker(body.as_slice(), cs, true) {
        Some(m) => m,
        None => {
            return false;
        },
    };
    let mut i: usize = marker + 1;
    while i < cs
        invariant
            marker + 1 <= i <= cs <= body@.len(),
            forall|k: int| marker + 1 <= k < i ==> (#[trigger] body@[k] == '-' || body@[k] == ' ' || body@[k] == '\t'),
        decreases cs - i,
    {
        let c = body[i];
        if !(c == '-' || c == ' ' || c == '\t') {
            return false;
        }
        i = i + 1;
    }
    true
}

/// The last `>` before the comment becomes `|`; a line without one is kept.
pub open spec fn spec_replace_folded_block_marker(source: Seq<char>) -> Seq<char> {
    let body = spec_line_body(source);
    let nl = spec_newline_chars(spec_strip_newline(source).1);
    match spec_last_marker(body, spec_comment_start(body), true) {
        None => source,
        Some(m) => body.subrange(0, m) + seq!['|'] + body.subrange(m + 1, body.len() as int) + nl,
    }
}

pub fn replace_folded_block_marker(source: &[char]) -> (r: Vec<char>)
    ensures
        r@ == spec_replace_folded_block_marker(source@),
{
    let (bl, nl) = strip_newline(source);
    let body = sub_chars(source, 0, bl);
    let cs = comment_start(body.as_slice());
    let marker = match last_marker(body.as_slice(), cs, true) {
        Some(m) => m,
        None => {
            return crate::text::copy_chars(source);
        },
    };
    let mut out = sub_chars(body.as_slice(), 0, marker);
    out.push('|');
    let rest = sub_chars(body.as_slice(), marker + 1, body.len());
    push_all(&mut out, rest.as_slice());
    let nlc = newline_chars(nl);
    push_all(&mut out, nlc.as_slice());
    out
}

/// The value of a Markdown block scalar header: trimmed, with a folded
/// marker turned literal.
pub fn format_markdown_yaml_block_value(value: &[char]) -> (r: Vec<char>)
    ensures
        r@ == spec_replace_folded_block_marker(spec_trim(value@)),
{
    let t = trim(value);
    replace_folded_block_marker(t.as_slice())
}

pub open spec fn spec_ends_with_break(s: Seq<char>) -> bool {
    s.len() > 0 && (s.last() == '\n' || s.last() == '\r')
}

/// The text ends with two line breaks (`\r\n` counting as one).
pub open spec fn spec_multiple_line_endings(f: Seq<char>) -> bool {
    let rest = if f.len() >= 2 && f[f.len() - 2] == '\r' && f[f.len() - 1] == '\n' {
        Some(f.subrange(0, f.len() - 2))
    } else if f.len() >= 1 && (f.last() == '\n' || f.last() == '\r') {
        Some(f.drop_last())
    } else {
        None
    };
    match rest {
        None => false,
        Some(r) => spec_ends_with_break(r),
    }
}

pub fn formatted_ends_with_multiple_line_endings(formatted: &[char]) -> (r: bool)
    ensures
        r == spec_multiple_line_endings(formatted@),
{
    let n = formatted.len();
    let rest_len = if n >= 2 && formatted[n - 2] == '\r' && formatted[n - 1] == '\n' {
        n - 2
    } else if n >= 1 && (formatted[n - 1] == '\n' || formatted[n - 1] == '\r') {
        n - 1
    } else {
        return false;
    };
    proof {
        assert(formatted@.subrange(0, n - 1) =~= formatted@.drop_last());
    }
    rest_len > 0 && (formatted[rest_len - 1] == '\n' || formatted[rest_len - 1] == '\r')
}

/// The chomping that keeps formatted text as it is: strip without a final
/// line break, keep with more than one, clip with one.
pub open spec fn spec_chomp_for_output(f: Seq<char>) -> YamlBlockChomp {
    if !spec_ends_with_break(f) {
        YamlBlockChomp::Strip
    } else if spec_multiple_line_endings(f) {
        YamlBlockChomp::Keep
    } else {
        YamlBlockChomp::Clip
    }
}

pub fn chomp_for_block_scalar_output(formatted: &[char]) -> (r: YamlBlockChomp)
    ensures
        r == spec_chomp_for_output(formatted@),
{
    let n = formatted.len();
    if n == 0 || (formatted[n - 1] != '\n' && formatted[n - 1] != '\r') {
        return YamlBlockChomp::Strip;
    }
    if formatted_ends_with_multiple_line_endings(formatted) {
        YamlBlockChomp::Keep
    } else {
        YamlBlockChomp::Clip
    }
}

/// Appends `line_ending` to non-empty text that does not end with a line
/// break.
pub fn append_trailing_line_ending_if_missing(text: &mut Vec<char>, line_ending: &[char])
    ensures
        final(text)@ == if old(text)@.len() > 0 && !spec_ends_with_break(old(text)@) {
            old(text)@ + line_ending@
        } else {
            old(text)@
        },
{
    let n = text.len();
    if n > 0 && text[n - 1] != '\n' && text[n - 1] != '\r' {
        push_all(text, line_ending);
    }
}


/// The smallest indentation (leading spaces) of the non-blank lines.
pub open spec fn spec_min_indent(lines: Seq<Seq<char>>) -> Option<int>
    decreases lines.len(),
{
    if lines.len() == 0 {
        None
    } else {
        let rest = spec_min_indent(lines.drop_last());
        let l = lines.last();
        if spec_trim(l).len() == 0 {
            rest
        } else {
            let here = spec_spaces(l, 0);
            match rest {
                None => Some(here),
                Some(m) => Some(if here < m { here } else { m }),
            }
        }
    }
}

/// The indentation of a block scalar body: the least indentation of its
/// non-blank lines.
pub fn block_scalar_body_indent(body: &[char]) -> (r: Option<usize>)
    ensures
        match spec_min_indent(spec_str_lines(body@)) {
            Some(m) => r == Some(m as usize),
            None => r is None,
        },
{
    let lines = str_lines(body);
    let ghost lv = char_views(lines@);
    let mut best: Option<usize> = None;
    let mut k: usize = 0;
    while k < lines.len()
        invariant
            k <= lines@.len(),
            lv == char_views(lines@),
            lv == spec_str_lines(body@),
            match spec_min_indent(lv.subrange(0, k as int)) {
                Some(m) => best matches Some(b) && b == m,
                None => best is None,
            },
        decreases lines@.len() - k,
    {
        proof {
            let pre = lv.subrange(0, k + 1);
            assert(pre.drop_last() =~= lv.subrange(0, k as int));
            assert(pre.last() == lines@[k as int]@);
        }
        let line = &lines[k];
        let t = trim(line.as_slice());
        if t.len() > 0 {
            let here = spaces(line.as_slice(), 0);
            best = match best {
                None => Some(here),
                Some(m) => Some(if here < m { here } else { m }),
            };
        }
        k = k + 1;
    }
    assert(lv.subrange(0, lines@.len() as int) =~= lv);
    best
}

/// `text[start..end]` without ASCII whitespace at either end, when
/// anything is left.
pub open spec fn spec_trim_ascii_range(s: Seq<char>, start: int, end: int) -> Option<(int, int)> {
    let a = spec_skip_ascii_ws_until(s, start, end);
    let b = crate::text::spec_trim_ascii_end_at(s, a, end);
    if a < b {
        Some((a, b))
    } else {
        None
    }
}

pub fn trim_ascii_range(text: &[char], start: usize, end: usize) -> (r: Option<(usize, usize)>)
    requires
        start >= end || end <= text@.len(),
    ensures
        match spec_trim_ascii_range(text@, start as int, end as int) {
            Some((a, b)) => r == Some((a as usize, b as usize)),
            None => r is None,
        },
{
    let mut a = start;
    while a < end && crate::text::is_ascii_ws(text[a])
        invariant
            start <= a,
            start < end ==> a <= end,
            start >= end ==> a == start,
            start >= end || end <= text@.len(),
            spec_skip_ascii_ws_until(text@, a as int, end as int) == spec_skip_ascii_ws_until(text@, start as int, end as int),
        decreases end - a,
    {
        a = a + 1;
    }
    if a >= end {
        return None;
    }
    let b = crate::text::trim_ascii_end_at(text, a, end);
    if a < b {
        Some((a, b))
    } else {
        None
    }
}

/// A line's value and its trailing comment, as spans of the source.
#[derive(Debug, Clone, Copy, PartialEq, Eq, Structural)]
pub struct LineValue {
    pub value: Span,
    pub trailing_comment: Option<Span>,
}

/// The value of a line from `value_start` (without the trailing comment and
/// the whitespace before it) and the comment, placed at `line_start`.
pub open spec fn spec_split_line_value_comment(text: Seq<char>, value_start: int, line_start: int) -> (int, int, Option<(int, int)>) {
    match spec_find_unquoted(text, value_start, scan_start(), '#', value_start) {
        Some(c) => (line_start + value_start, line_start + crate::text::spec_trim_ws_end(text, value_start, c), Some(
            (line_start + c, line_start + text.len()),
        )),
        None => (line_start + value_start, line_start + text.len(), None),
    }
}

pub fn split_line_value_comment(text: &[char], value_start: usize, line_start: usize) -> (r: LineValue)
    requires
        value_start <= text@.len(),
        line_start + text@.len() <= usize::MAX,
    ensures
        ({
            let (vs, ve, c) = spec_split_line_value_comment(text@, value_start as int, line_start as int);
            &&& r.value.start == vs
            &&& r.value.end == ve
            &&& vs <= ve <= line_start + text@.len()
            &&& match c {
                Some((cs, ce)) => r.trailing_comment matches Some(sp) && sp.start == cs && sp.end == ce,
                None => r.trailing_comment is None,
            }
        }),
{
    let n = text.len();
    proof {
        crate::yaml_lines::lemma_find_unquoted(text@, value_start as int, scan_start(), '#', value_start as int);
    }
    match find_trailing_comment(text, value_start) {
        Some(c) => {
            let e = crate::yaml_lines::trim_end_before(text, value_start, c);
            LineValue {
                value: Span { start: line_start + value_start, end: line_start + e },
                trailing_comment: Some(Span { start: line_start + c, end: line_start + n }),
            }
        },
        None => LineValue { value: Span { start: line_start + value_start, end: line_start + n }, trailing_comment: None },
    }
}

/// The header of a block scalar whose body an embedded formatter produced:
/// the header line reformatted, with the chomping that keeps the output.
pub fn format_external_yaml_block_header(header: &[char], formatted: &[char]) -> (r: Vec<char>)
    ensures
        r@ == spec_rewrite_block_chomp(
            crate::yaml_line_format::spec_format_simple_yaml_line(header@),
            spec_chomp_for_output(formatted@),
        ),
{
    let h = crate::text::chars_to_string(header);
    let line = crate::yaml_line_format::format_simple_yaml_line(h.as_str());
    let lc = crate::text::str_chars(line.as_str());
    rewrite_yaml_block_chomp(lc.as_slice(), chomp_for_block_scalar_output(formatted))
}

} // verus!
