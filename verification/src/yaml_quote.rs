//! Double-quoted YAML string literals and YAML comment lines.
use vstd::prelude::*;
use crate::text::{
    is_ascii_ws, push_all, push_hex_upper, push_repeat, spec_hex_upper, starts_with, sub_chars,
};

verus! {

/// The escaped form of one character inside a double-quoted YAML scalar.
pub open spec fn spec_dq_escape(c: char) -> Seq<char> {
    if c == '\0' {
        seq!['\\', '0']
    } else if c == '\u{7}' {
        seq!['\\', 'a']
    } else if c == '\u{8}' {
        seq!['\\', 'b']
    } else if c == '\t' {
        seq!['\\', 't']
    } else if c == '\n' {
        seq!['\\', 'n']
    } else if c == '\u{b}' {
        seq!['\\', 'v']
    } else if c == '\u{c}' {
        seq!['\\', 'f']
    } else if c == '\r' {
        seq!['\\', 'r']
    } else if c == '\u{1b}' {
        seq!['\\', 'e']
    } else if c == '"' {
        seq!['\\', '"']
    } else if c == '\\' {
        seq!['\\', '\\']
    } else if c == '\u{85}' {
        seq!['\\', 'N']
    } else if c == '\u{a0}' {
        seq!['\\', '_']
    } else if c == '\u{2028}' {
        seq!['\\', 'L']
    } else if c == '\u{2029}' {
        seq!['\\', 'P']
    } else if '\u{7f}' <= c && c <= '\u{9f}' {
        seq!['\\', 'x'] + spec_hex_upper(c as nat, 2)
    } else if c == '\u{fffe}' || c == '\u{ffff}' || c <= '\u{1f}' {
        seq!['\\', 'u'] + spec_hex_upper(c as nat, 4)
    } else {
        seq![c]
    }
}

/// The escaped body of a double-quoted scalar.
pub open spec fn spec_dq_body(s: Seq<char>) -> Seq<char>
    decreases s.len(),
{
    if s.len() == 0 {
        Seq::empty()
    } else {
        spec_dq_body(s.drop_last()) + spec_dq_escape(s.last())
    }
}

/// `value` as a double-quoted YAML scalar.
pub open spec fn spec_double_quoted(s: Seq<char>) -> Seq<char> {
    seq!['"'] + spec_dq_body(s) + seq!['"']
}

fn push_dq_escape(out: &mut Vec<char>, c: char)
    ensures
        final(out)@ == old(out)@ + spec_dq_escape(c),
{
    let ghost o = out@;
    if c == '\0' {
        out.push('\\');
        out.push('0');
    } else if c == '\u{7}' {
        out.push('\\');
        out.push('a');
    } else if c == '\u{8}' {
        out.push('\\');
        out.push('b');
    } else if c == '\t' {
        out.push('\\');
        out.push('t');
    } else if c == '\n' {
        out.push('\\');
        out.push('n');
    } else if c == '\u{b}' {
        out.push('\\');
        out.push('v');
    } else if c == '\u{c}' {
        out.push('\\');
        out.push('f');
    } else if c == '\r' {
        out.push('\\');
        out.push('r');
    } else if c == '\u{1b}' {
        out.push('\\');
        out.push('e');
    } else if c == '"' {
        out.push('\\');
        out.push('"');
    } else if c == '\\' {
        out.push('\\');
        out.push('\\');
    } else if c == '\u{85}' {
        out.push('\\');
        out.push('N');
    } else if c == '\u{a0}' {
        out.push('\\');
        out.push('_');
    } else if c == '\u{2028}' {
        out.push('\\');
        out.push('L');
    } else if c == '\u{2029}' {
        out.push('\\');
        out.push('P');
    } else if '\u{7f}' <= c && c <= '\u{9f}' {
        out.push('\\');
        out.push('x');
        push_hex_upper(out, c as u32, 2);
        assert(out@ =~= o + spec_dq_escape(c));
        return;
    } else if c == '\u{fffe}' || c == '\u{ffff}' || c <= '\u{1f}' {
        out.push('\\');
        out.push('u');
        push_hex_upper(out, c as u32, 4);
        assert(out@ =~= o + spec_dq_escape(c));
        return;
    } else {
        out.push(c);
        assert(out@ =~= o + spec_dq_escape(c));
        return;
    }
    assert(out@ =~= o + spec_dq_escape(c));
}

/// Appends `value` as a double-quoted YAML scalar.
pub fn emit_yaml_double_quoted(out: &mut Vec<char>, value: &[char])
    ensures
        final(out)@ == old(out)@ + spec_double_quoted(value@),
{
    let ghost o = out@;
    out.push('"');
    let mut i: usize = 0;
    while i < value.len()
        invariant
            i <= value@.len(),
            out@ == o + seq!['"'] + spec_dq_body(value@.subrange(0, i as int)),
        decreases value@.len() - i,
    {
        push_dq_escape(out, value[i]);
        proof {
            let pre = value@.subrange(0, i + 1);
            assert(pre.drop_last() =~= value@.subrange(0, i as int));
            assert(pre.last() == value@[i as int]);
        }
        i = i + 1;
    }
    out.push('"');
    proof {
        assert(value@.subrange(0, value@.len() as int) =~= value@);
        assert(out@ =~= o + spec_double_quoted(value@));
    }
}

/// `char` is allowed verbatim in a YAML comment.
pub open spec fn spec_comment_char_safe(c: char) -> bool {
    (c == '\t' || c >= '\u{20}') && !('\u{7f}' <= c && c <= '\u{9f}') && c != '\u{2028}' && c
        != '\u{2029}' && c != '\u{fffe}' && c != '\u{ffff}'
}

pub fn yaml_comment_character_is_safe(c: char) -> (r: bool)
    ensures
        r == spec_comment_char_safe(c),
{
    (c == '\t' || c >= '\u{20}') && !('\u{7f}' <= c && c <= '\u{9f}') && c != '\u{2028}' && c
        != '\u{2029}' && c != '\u{fffe}' && c != '\u{ffff}'
}

/// The rendering of one comment character: itself, or a `\x`, `\u` or `\U`
/// escape.
pub open spec fn spec_comment_char(c: char) -> Seq<char> {
    if spec_comment_char_safe(c) {
        seq![c]
    } else if (c as u32) <= 0xff {
        seq!['\\', 'x'] + spec_hex_upper(c as nat, 2)
    } else if (c as u32) <= 0xffff {
        seq!['\\', 'u'] + spec_hex_upper(c as nat, 4)
    } else {
        seq!['\\', 'U'] + spec_hex_upper(c as nat, 8)
    }
}

pub open spec fn spec_comment_body(s: Seq<char>) -> Seq<char>
    decreases s.len(),
{
    if s.len() == 0 {
        Seq::empty()
    } else {
        spec_comment_body(s.drop_last()) + spec_comment_char(s.last())
    }
}

/// `s` with spaces and tabs removed from both ends.
pub open spec fn spec_is_blank(c: char) -> bool {
    c == ' ' || c == '\t'
}

pub open spec fn spec_blank_start(s: Seq<char>, i: int) -> int
    decreases s.len() - i,
{
    if i < 0 || i >= s.len() || !spec_is_blank(s[i]) {
        i
    } else {
        spec_blank_start(s, i + 1)
    }
}

pub open spec fn spec_blank_end(s: Seq<char>, start: int, end: int) -> int
    decreases end - start,
{
    if end <= start || end > s.len() || !spec_is_blank(s[end - 1]) {
        end
    } else {
        spec_blank_end(s, start, end - 1)
    }
}

pub open spec fn spec_trim_blanks(s: Seq<char>) -> Seq<char> {
    s.subrange(spec_blank_start(s, 0), spec_blank_end(s, spec_blank_start(s, 0), s.len() as int))
}

/// `s` without leading and trailing spaces and tabs.
pub fn trim_blanks(s: &[char]) -> (r: Vec<char>)
    ensures
        r@ == spec_trim_blanks(s@),
{
    let mut a: usize = 0;
    while a < s.len() && (s[a] == ' ' || s[a] == '\t')
        invariant
            a <= s@.len(),
            spec_blank_start(s@, a as int) == spec_blank_start(s@, 0),
        decreases s@.len() - a,
    {
        a = a + 1;
    }
    let mut b: usize = s.len();
    while b > a && (s[b - 1] == ' ' || s[b - 1] == '\t')
        invariant
            a <= b <= s@.len(),
            spec_blank_end(s@, a as int, b as int) == spec_blank_end(s@, a as int, s@.len() as int),
        decreases b,
    {
        b = b - 1;
    }
    sub_chars(s, a, b)
}

/// A YAML comment line: indentation, `#`, and the escaped text; a text that
/// starts with `fmt:` is tagged with the source dialect so that it is not
/// read back as a formatter directive.
pub open spec fn spec_comment_line(text: Seq<char>, indent: nat, dialect: Seq<char>) -> Seq<char> {
    let t = spec_trim_blanks(text);
    let head = Seq::new(indent, |_i: int| ' ') + seq!['#'];
    if t.len() == 0 {
        head + seq!['\n']
    } else {
        let tagged = if t.len() >= 4 && t.subrange(0, 4) == seq!['f', 'm', 't', ':'] {
            seq!['['] + dialect + seq![']', ' ']
        } else {
            Seq::empty()
        };
        head + seq![' '] + tagged + spec_comment_body(t) + seq!['\n']
    }
}

fn push_comment_char(out: &mut Vec<char>, c: char)
    ensures
        final(out)@ == old(out)@ + spec_comment_char(c),
{
    let ghost o = out@;
    if yaml_comment_character_is_safe(c) {
        out.push(c);
    } else {
        let value = c as u32;
        out.push('\\');
        if value <= 0xff {
            out.push('x');
            push_hex_upper(out, value, 2);
        } else if value <= 0xffff {
            out.push('u');
            push_hex_upper(out, value, 4);
        } else {
            out.push('U');
            push_hex_upper(out, value, 8);
        }
    }
    assert(out@ =~= o + spec_comment_char(c));
}

/// Appends a YAML comment line holding `text`.
pub fn emit_yaml_comment_line(out: &mut Vec<char>, text: &[char], indent: usize, dialect: &[char])
    ensures
        final(out)@ == old(out)@ + spec_comment_line(text@, indent as nat, dialect@),
{
    let ghost o = out@;
    let t = trim_blanks(text);
    push_repeat(out, ' ', indent);
    out.push('#');
    if t.len() > 0 {
        out.push(' ');
        let fmt = vec!['f', 'm', 't', ':'];
        let ghost mid = out@;
        if starts_with(t.as_slice(), fmt.as_slice()) {
            out.push('[');
            push_all(out, dialect);
            out.push(']');
            out.push(' ');
        }
        let ghost before_body = out@;
        let mut i: usize = 0;
        while i < t.len()
            invariant
                i <= t@.len(),
                out@ == before_body + spec_comment_body(t@.subrange(0, i as int)),
            decreases t@.len() - i,
        {
            push_comment_char(out, t[i]);
            proof {
                let pre = t@.subrange(0, i + 1);
                assert(pre.drop_last() =~= t@.subrange(0, i as int));
            }
            i = i + 1;
        }
        proof {
            assert(t@.subrange(0, t@.len() as int) =~= t@);
        }
    }
    out.push('\n');
    proof {
        assert(out@ =~= o + spec_comment_line(text@, indent as nat, dialect@));
    }
}

/// A line break inside a comment: `\n`, `\r`, U+0085, U+2028 or U+2029.
pub open spec fn spec_comment_break(c: char) -> bool {
    c == '\n' || c == '\r' || c == '\u{85}' || c == '\u{2028}' || c == '\u{2029}'
}

/// The lines of `s` from the line that starts at `start`, with the scan at
/// `i`.
pub open spec fn spec_comment_lines_from(s: Seq<char>, start: int, i: int) -> Seq<Seq<char>>
    decreases s.len() - i,
{
    if i < 0 || i >= s.len() {
        if 0 <= start < s.len() {
            seq![s.subrange(start, s.len() as int)]
        } else {
            seq![]
        }
    } else if spec_comment_break(s[i]) {
        let next = if s[i] == '\r' && i + 1 < s.len() && s[i + 1] == '\n' {
            i + 2
        } else {
            i + 1
        };
        seq![s.subrange(start, i)] + spec_comment_lines_from(s, next, next)
    } else {
        spec_comment_lines_from(s, start, i + 1)
    }
}

/// The lines of a comment text, split at comment line breaks (a `\r\n`
/// pair counts once). An empty text has one empty line; a trailing break
/// adds no empty line.
pub open spec fn spec_comment_lines(s: Seq<char>) -> Seq<Seq<char>> {
    if s.len() == 0 {
        seq![seq![]]
    } else {
        spec_comment_lines_from(s, 0, 0)
    }
}

pub fn comment_lines(text: &[char]) -> (r: Vec<Vec<char>>)
    ensures
        r@.map_values(|v: Vec<char>| v@) == spec_comment_lines(text@),
        forall|k: int|
            0 <= k < r@.len() ==> forall|m: int|
                0 <= m < (#[trigger] r@[k])@.len() ==> !spec_comment_break(#[trigger] r@[k]@[m]),
{
    let mut lines: Vec<Vec<char>> = Vec::new();
    if text.len() == 0 {
        let ghost before = lines@;
        lines.push(Vec::new());
        assert(lines@.map_values(|v: Vec<char>| v@) == seq![Seq::<char>::empty()]);
        return lines;
    }
    let n = text.len();
    let mut start: usize = 0;
    let mut i: usize = 0;
    while i < n
        invariant
            n == text@.len(),
            n > 0,
            start <= i <= n,
            forall|m: int| start <= m < i ==> !spec_comment_break(#[trigger] text@[m]),
            forall|k: int|
                0 <= k < lines@.len() ==> forall|m: int|
                    0 <= m < (#[trigger] lines@[k])@.len() ==> !spec_comment_break(
                        #[trigger] lines@[k]@[m],
                    ),
            lines@.map_values(|v: Vec<char>| v@) + spec_comment_lines_from(text@, start as int, i as int)
                == spec_comment_lines_from(text@, 0, 0),
        decreases n - i,
    {
        let c = text[i];
        if c == '\n' || c == '\r' || c == '\u{85}' || c == '\u{2028}' || c == '\u{2029}' {
            let line = sub_chars(text, start, i);
            assert forall|m: int| 0 <= m < line@.len() implies !spec_comment_break(line@[m]) by {
                assert(line@[m] == text@[start + m]);
            }
            let ghost before = lines@;
            lines.push(line);
            let next = if c == '\r' && i + 1 < n && text[i + 1] == '\n' {
                i + 2
            } else {
                i + 1
            };
            proof {
                assert(lines@.map_values(|v: Vec<char>| v@) == before.map_values(|v: Vec<char>| v@).push(line@));
                assert(spec_comment_lines_from(text@, start as int, i as int) == seq![line@] + spec_comment_lines_from(
                    text@,
                    next as int,
                    next as int,
                ));
                assert(lines@.map_values(|v: Vec<char>| v@) + spec_comment_lines_from(text@, next as int, next as int)
                    == before.map_values(|v: Vec<char>| v@) + spec_comment_lines_from(text@, start as int, i as int));
            }
            i = next;
            start = i;
        } else {
            i = i + 1;
        }
    }
    if start < n {
        let line = sub_chars(text, start, n);
        assert forall|m: int| 0 <= m < line@.len() implies !spec_comment_break(line@[m]) by {
            assert(line@[m] == text@[start + m]);
        }
        let ghost before = lines@;
        lines.push(line);
        assert(lines@.map_values(|v: Vec<char>| v@) == before.map_values(|v: Vec<char>| v@).push(line@));
    } else {
        assert(lines@.map_values(|v: Vec<char>| v@) + Seq::<Seq<char>>::empty() == lines@.map_values(|v: Vec<char>| v@));
    }
    lines
}

/// A block-comment line with blanks and one leading `*` removed.
pub open spec fn spec_trim_comment_line(text: Seq<char>) -> Seq<char> {
    if spec_trim_blanks(text).len() > 0 && spec_trim_blanks(text)[0] == '*' {
        spec_trim_blanks(spec_trim_blanks(text).drop_first())
    } else {
        spec_trim_blanks(spec_trim_blanks(text))
    }
}

pub fn trim_comment_line(text: &[char]) -> (r: Vec<char>)
    ensures
        r@ == spec_trim_comment_line(text@),
{
    let t = trim_blanks(text);
    if t.len() > 0 && t[0] == '*' {
        let rest = sub_chars(t.as_slice(), 1, t.len());
        assert(rest@ =~= t@.drop_first());
        trim_blanks(rest.as_slice())
    } else {
        trim_blanks(t.as_slice())
    }
}

/// Appends `indent` spaces.
pub fn push_yaml_indent(out: &mut Vec<char>, indent: usize)
    ensures
        final(out)@ == old(out)@ + Seq::new(indent as nat, |_i: int| ' '),
{
    push_repeat(out, ' ', indent);
}

/// Whether a mapping key can stay plain: an ASCII identifier (letters,
/// digits, `_`, `-`, starting with a letter or `_`) that is not `null`,
/// `true` or `false` in any letter case.
pub open spec fn spec_plain_json_key(v: Seq<char>) -> bool {
    &&& v.len() > 0
    &&& (crate::text::spec_alpha(v[0]) || v[0] == '_')
    &&& forall|i: int|
        1 <= i < v.len() ==> (crate::text::spec_alpha(#[trigger] v[i]) || crate::text::spec_digit(
            v[i],
        ) || v[i] == '_' || v[i] == '-')
    &&& !spec_eq_ignore_ascii_case(v, seq!['n', 'u', 'l', 'l'])
    &&& !spec_eq_ignore_ascii_case(v, seq!['t', 'r', 'u', 'e'])
    &&& !spec_eq_ignore_ascii_case(v, seq!['f', 'a', 'l', 's', 'e'])
}

pub open spec fn spec_ascii_lower(c: char) -> char {
    if 'A' <= c && c <= 'Z' {
        ((c as u32 + 32) as u8) as char
    } else {
        c
    }
}

pub open spec fn spec_eq_ignore_ascii_case(a: Seq<char>, b: Seq<char>) -> bool {
    a.len() == b.len() && forall|i: int|
        0 <= i < a.len() ==> spec_ascii_lower(#[trigger] a[i]) == spec_ascii_lower(b[i])
}

pub fn ascii_lower(c: char) -> (r: char)
    ensures
        r == spec_ascii_lower(c),
{
    if 'A' <= c && c <= 'Z' {
        ((c as u32 + 32) as u8) as char
    } else {
        c
    }
}

/// `str::eq_ignore_ascii_case`.
pub fn eq_ignore_ascii_case(a: &[char], b: &[char]) -> (r: bool)
    ensures
        r == spec_eq_ignore_ascii_case(a@, b@),
{
    if a.len() != b.len() {
        return false;
    }
    let mut i: usize = 0;
    while i < a.len()
        invariant
            a@.len() == b@.len(),
            i <= a@.len(),
            forall|j: int| 0 <= j < i ==> spec_ascii_lower(#[trigger] a@[j]) == spec_ascii_lower(b@[j]),
        decreases a@.len() - i,
    {
        if ascii_lower(a[i]) != ascii_lower(b[i]) {
            return false;
        }
        i = i + 1;
    }
    true
}

/// Whether `value` is one of the YAML 1.2 core words `null`, `true` or
/// `false`, in any letter case.
pub fn reserved_yaml_word(value: &[char]) -> (r: bool)
    ensures
        r == (spec_eq_ignore_ascii_case(value@, seq!['n', 'u', 'l', 'l'])
            || spec_eq_ignore_ascii_case(value@, seq!['t', 'r', 'u', 'e'])
            || spec_eq_ignore_ascii_case(value@, seq!['f', 'a', 'l', 's', 'e'])),
{
    let null = vec!['n', 'u', 'l', 'l'];
    let t = vec!['t', 'r', 'u', 'e'];
    let f = vec!['f', 'a', 'l', 's', 'e'];
    eq_ignore_ascii_case(value, null.as_slice()) || eq_ignore_ascii_case(value, t.as_slice())
        || eq_ignore_ascii_case(value, f.as_slice())
}

/// Appends a JSON object key as a YAML mapping key: plain when it is a
/// simple identifier, double-quoted otherwise.
pub fn emit_yaml_mapping_key(out: &mut Vec<char>, value: &[char])
    ensures
        final(out)@ == old(out)@ + (if spec_plain_json_key(value@) {
            value@
        } else {
            spec_double_quoted(value@)
        }),
{
    let starts_plain = value.len() > 0 && (crate::text::is_alpha(value[0]) || value[0] == '_');
    let mut continues_plain = true;
    let mut i: usize = 1;
    while i < value.len()
        invariant
            1 <= i,
            continues_plain == forall|j: int|
                1 <= j < i && j < value@.len() ==> (crate::text::spec_alpha(#[trigger] value@[j])
                    || crate::text::spec_digit(value@[j]) || value@[j] == '_' || value@[j] == '-'),
        decreases value@.len() - i,
    {
        let c = value[i];
        if !(crate::text::is_alpha(c) || crate::text::is_digit(c) || c == '_' || c == '-') {
            continues_plain = false;
        }
        i = i + 1;
    }
    let reserved = reserved_yaml_word(value);
    if starts_plain && continues_plain && !reserved {
        push_all(out, value);
    } else {
        emit_yaml_double_quoted(out, value);
    }
}

} // verus!
