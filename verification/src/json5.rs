//! JSON5 sources rendered as YAML: the line separators the tokenizer does
//! not accept, string and identifier escapes, number spellings, comments,
//! and the YAML emitter for the converted document. Tokenizing and parsing
//! are done by the caller; positions are character offsets.
use vstd::prelude::*;
use crate::diagnostic::{error_from_chars_at, YamarkError};
use crate::json_to_yaml::{line_column, spec_line_column};
use crate::yaml_quote::{
    comment_lines, spec_comment_lines, spec_trim_blanks, trim_comment_line,
    emit_yaml_comment_line, emit_yaml_double_quoted, eq_ignore_ascii_case, push_yaml_indent, spec_comment_line,
    spec_double_quoted, spec_eq_ignore_ascii_case,
};
use crate::text::{
    char_from_u32, chars_to_string, hex_value, is_hex_digit, push_all, spec_decimal, spec_hex_digit,
    spec_hex_value, str_chars, sub_chars,
};

verus! {

/// The Unicode general category of a character, as the position of the
/// category in `unicode_general_category::GeneralCategory` (in the order
/// the crate declares them).
pub uninterp spec fn general_category_code(c: char) -> u8;

/// `unicode_general_category::get_general_category`, as the position of the
/// category in the crate's declaration order; what the category of a given
/// character is, is named, not stated.
#[verifier::external_body]
fn general_category(c: char) -> (r: u8)
    ensures
        r == general_category_code(c),
        r < 30,
{
    unicode_general_category::get_general_category(c) as u8
}

/// The positions of the categories in the crate's declaration order.
pub const CONNECTOR_PUNCTUATION: u8 = 1;
pub const DECIMAL_NUMBER: u8 = 5;
pub const LETTER_NUMBER: u8 = 10;
pub const LOWERCASE_LETTER: u8 = 12;
pub const MODIFIER_LETTER: u8 = 14;
pub const NONSPACING_MARK: u8 = 16;
pub const OTHER_LETTER: u8 = 18;
pub const SPACING_MARK: u8 = 25;
pub const TITLECASE_LETTER: u8 = 27;
pub const UPPERCASE_LETTER: u8 = 29;

/// ECMAScript `IdentifierStart` as JSON5 takes it: `$`, `_`, or a letter
/// (`Lu`, `Ll`, `Lt`, `Lm`, `Lo`, `Nl`).
pub open spec fn spec_identifier_start(c: char) -> bool {
    let g = general_category_code(c);
    c == '$' || c == '_' || g == UPPERCASE_LETTER || g == LOWERCASE_LETTER || g == TITLECASE_LETTER
        || g == MODIFIER_LETTER || g == OTHER_LETTER || g == LETTER_NUMBER
}

/// `IdentifierPart`: a start character, ZWNJ, ZWJ, or a mark, digit or
/// connector (`Mn`, `Mc`, `Nd`, `Pc`).
pub open spec fn spec_identifier_part(c: char) -> bool {
    let g = general_category_code(c);
    spec_identifier_start(c) || c == '\u{200c}' || c == '\u{200d}' || g == NONSPACING_MARK || g
        == SPACING_MARK || g == DECIMAL_NUMBER || g == CONNECTOR_PUNCTUATION
}

pub fn is_identifier_start(c: char) -> (r: bool)
    ensures
        r == spec_identifier_start(c),
{
    if c == '$' || c == '_' {
        return true;
    }
    let g = general_category(c);
    g == UPPERCASE_LETTER || g == LOWERCASE_LETTER || g == TITLECASE_LETTER || g == MODIFIER_LETTER
        || g == OTHER_LETTER || g == LETTER_NUMBER
}

pub fn is_identifier_part(c: char) -> (r: bool)
    ensures
        r == spec_identifier_part(c),
{
    if is_identifier_start(c) || c == '\u{200c}' || c == '\u{200d}' {
        return true;
    }
    let g = general_category(c);
    g == NONSPACING_MARK || g == SPACING_MARK || g == DECIMAL_NUMBER || g == CONNECTOR_PUNCTUATION
}

/// The value of a run of hexadecimal digits.
pub open spec fn spec_hex_number(s: Seq<char>) -> nat
    decreases s.len(),
{
    if s.len() == 0 {
        0
    } else {
        spec_hex_number(s.drop_last()) * 16 + spec_hex_value(s.last()) as nat
    }
}

/// `num_bigint::BigUint::parse_bytes(digits, 16)` and then `to_str_radix(10)`:
/// the decimal digits of the value of the hexadecimal digits.
#[verifier::external_body]
fn hex_digits_to_decimal(digits: &str) -> (r: Option<String>)
    requires
        digits@.len() > 0,
        forall|k: int| 0 <= k < digits@.len() ==> spec_hex_digit(#[trigger] digits@[k]),
    ensures
        r is Some,
        r matches Some(s) ==> s@ == spec_decimal(spec_hex_number(digits@)),
{
    match num_bigint::BigUint::parse_bytes(digits.as_bytes(), 16) {
        Some(v) => Some(v.to_str_radix(10)),
        None => None,
    }
}

/// A negative hexadecimal number, `0x` and its digits, in decimal with a
/// leading `-`.
pub fn negative_hexadecimal_to_decimal(raw: &[char]) -> (r: Vec<char>)
    requires
        raw@.len() > 2,
        raw@[0] == '0',
        raw@[1] == 'x',
        forall|k: int| 2 <= k < raw@.len() ==> spec_hex_digit(#[trigger] raw@[k]),
    ensures
        r@ == seq!['-'] + spec_decimal(spec_hex_number(raw@.subrange(2, raw@.len() as int))),
{
    let digits = sub_chars(raw, 2, raw.len());
    let text = chars_to_string(digits.as_slice());
    let mut out: Vec<char> = Vec::new();
    out.push('-');
    match hex_digits_to_decimal(text.as_str()) {
        Some(decimal) => {
            let d = str_chars(decimal.as_str());
            push_all(&mut out, d.as_slice());
        },
        None => {},
    }
    out
}

/// `0X` becomes `0x`; other spellings are kept.
pub open spec fn spec_normalize_hexadecimal(raw: Seq<char>) -> Seq<char> {
    if raw.len() >= 2 && raw[0] == '0' && raw[1] == 'X' {
        seq!['0', 'x'] + raw.subrange(2, raw.len() as int)
    } else {
        raw
    }
}

pub fn normalize_hexadecimal(raw: &[char]) -> (r: Vec<char>)
    ensures
        r@ == spec_normalize_hexadecimal(raw@),
{
    let n = raw.len();
    if n >= 2 && raw[0] == '0' && raw[1] == 'X' {
        let mut out = vec!['0', 'x'];
        let rest = sub_chars(raw, 2, n);
        push_all(&mut out, rest.as_slice());
        out
    } else {
        sub_chars(raw, 0, n)
    }
}

/// The first `e` or `E` of a number, where its exponent starts.
pub open spec fn spec_exponent_start(raw: Seq<char>, from: int) -> int
    decreases raw.len() - from,
{
    if from < 0 || from >= raw.len() || raw[from] == 'e' || raw[from] == 'E' {
        from
    } else {
        spec_exponent_start(raw, from + 1)
    }
}

/// A decimal number with a digit on both sides of its point: `.5` becomes
/// `0.5` and `5.` becomes `5.0`; the exponent is kept.
pub open spec fn spec_normalize_decimal(raw: Seq<char>) -> Seq<char> {
    let e = spec_exponent_start(raw, 0);
    let mantissa = raw.subrange(0, e);
    let suffix = raw.subrange(e, raw.len() as int);
    (if mantissa.len() > 0 && mantissa[0] == '.' { seq!['0'] } else { seq![] }) + mantissa + (if mantissa.len()
        > 0 && mantissa[mantissa.len() - 1] == '.' {
        seq!['0']
    } else {
        seq![]
    }) + suffix
}

pub fn normalize_decimal(raw: &[char]) -> (r: Vec<char>)
    ensures
        r@ == spec_normalize_decimal(raw@),
{
    let n = raw.len();
    let mut e: usize = 0;
    while e < n && raw[e] != 'e' && raw[e] != 'E'
        invariant
            e <= n == raw@.len(),
            spec_exponent_start(raw@, e as int) == spec_exponent_start(raw@, 0),
        decreases n - e,
    {
        e = e + 1;
    }
    let mantissa = sub_chars(raw, 0, e);
    let suffix = sub_chars(raw, e, n);
    let mut out: Vec<char> = Vec::new();
    if mantissa.len() > 0 && mantissa[0] == '.' {
        out.push('0');
    }
    push_all(&mut out, mantissa.as_slice());
    if mantissa.len() > 0 && mantissa[mantissa.len() - 1] == '.' {
        out.push('0');
    }
    push_all(&mut out, suffix.as_slice());
    out
}

/// `digits` hexadecimal digits at `offset`: their value and where they end.
pub open spec fn spec_decode_hex(raw: Seq<char>, offset: int, digits: int) -> Option<(u32, int)> {
    if offset < 0 || offset + digits > raw.len() {
        None
    } else if forall|k: int| offset <= k < offset + digits ==> spec_hex_digit(#[trigger] raw[k]) {
        Some((spec_hex_number(raw.subrange(offset, offset + digits)) as u32, offset + digits))
    } else {
        None
    }
}

pub fn decode_hex(raw: &[char], offset: usize, digits: usize) -> (r: Option<(u32, usize)>)
    requires
        digits <= 4,
    ensures
        match spec_decode_hex(raw@, offset as int, digits as int) {
            Some((v, e)) => r == Some((v, e as usize)),
            None => r is None,
        },
        r matches Some((v, _)) ==> v < 0x10000 && v < pow16(digits as int),
{
    let n = raw.len();
    if offset > n || digits > n - offset {
        return None;
    }
    let end = offset + digits;
    let mut value: u32 = 0;
    let mut k = offset;
    assert(raw@.subrange(offset as int, offset as int) == Seq::<char>::empty());
    while k < end
        invariant
            offset <= k <= end <= n == raw@.len(),
            digits <= 4,
            end == offset + digits,
            forall|j: int| offset <= j < k ==> spec_hex_digit(#[trigger] raw@[j]),
            value == spec_hex_number(raw@.subrange(offset as int, k as int)),
            value < pow16(k - offset),
        decreases end - k,
    {
        if !is_hex_digit(raw[k]) {
            return None;
        }
        let d = hex_value(raw[k]);
        proof {
            assert(raw@.subrange(offset as int, k + 1).drop_last() == raw@.subrange(offset as int, k as int));
            lemma_pow16_step((k - offset) as nat);
        }
        value = value * 16 + d;
        k = k + 1;
    }
    proof {
        lemma_pow16_step(digits as nat);
    }
    Some((value, end))
}

/// `16^n`.
pub open spec fn pow16(n: int) -> nat
    decreases n,
{
    if n <= 0 {
        1
    } else {
        16 * pow16(n - 1)
    }
}

proof fn lemma_pow16_step(n: nat)
    ensures
        pow16(n + 1int) == 16 * pow16(n as int),
        n <= 4 ==> pow16(n as int) <= 0x10000,
{
    reveal_with_fuel(pow16, 6);
}

proof fn lemma_prepend_assoc(a: Seq<char>, b: Seq<char>, r: Result<Seq<char>, (int, Seq<char>)>)
    ensures
        spec_prepend(a + b, r) == spec_prepend(a, spec_prepend(b, r)),
{
    if let Ok(t) = r {
        assert((a + b) + t == a + (b + t));
    }
}

/// The decoded text with `prefix` in front, or the same error.
pub open spec fn spec_prepend(prefix: Seq<char>, r: Result<Seq<char>, (int, Seq<char>)>) -> Result<Seq<char>, (int, Seq<char>)> {
    match r {
        Ok(t) => Ok(prefix + t),
        Err(e) => Err(e),
    }
}

/// Whether `c` is a code unit of a high surrogate.
pub open spec fn spec_high_surrogate(v: u32) -> bool {
    0xD800 <= v <= 0xDBFF
}

pub open spec fn spec_low_surrogate(v: u32) -> bool {
    0xDC00 <= v <= 0xDFFF
}

/// The escape at `i` (a backslash with at least one character after it):
/// the characters it stands for and where the text goes on, or the offset
/// of what is wrong and what is wrong with it.
pub open spec fn spec_escape(raw: Seq<char>, i: int) -> Result<(Seq<char>, int), (int, Seq<char>)> {
    let e = raw[i + 1];
    let k = i + 2;
    if e == '\'' || e == '"' || e == '\\' || e == '/' {
        Ok((seq![e], k))
    } else if e == 'b' {
        Ok((seq!['\u{8}'], k))
    } else if e == 'f' {
        Ok((seq!['\u{c}'], k))
    } else if e == 'n' {
        Ok((seq!['\n'], k))
    } else if e == 'r' {
        Ok((seq!['\r'], k))
    } else if e == 't' {
        Ok((seq!['\t'], k))
    } else if e == 'v' {
        Ok((seq!['\u{b}'], k))
    } else if e == '0' {
        if k < raw.len() && crate::text::spec_digit(raw[k]) {
            Err((i, "legacy numeric escape sequences are not supported"@))
        } else {
            Ok((seq!['\0'], k))
        }
    } else if '1' <= e <= '9' {
        Err((i, "legacy numeric escape sequences are not supported"@))
    } else if e == 'x' {
        match spec_decode_hex(raw, k, 2) {
            None => Err((i, "invalid hexadecimal escape sequence"@)),
            Some((v, end)) => Ok((seq![v as char], end)),
        }
    } else if e == 'u' {
        match spec_decode_hex(raw, k, 4) {
            None => Err((i, "invalid Unicode escape sequence"@)),
            Some((first, end)) => if spec_high_surrogate(first) {
                if !(end + 1 < raw.len() && raw[end] == '\\' && raw[end + 1] == 'u') {
                    Err((i, "lone high surrogate in Unicode escape sequence"@))
                } else {
                    match spec_decode_hex(raw, end + 2, 4) {
                        None => Err((end, "invalid low surrogate in Unicode escape sequence"@)),
                        Some((second, end2)) => if !spec_low_surrogate(second) {
                            Err((end, "invalid low surrogate in Unicode escape sequence"@))
                        } else {
                            Ok((seq![(0x10000 + (first - 0xD800) * 1024 + (second - 0xDC00)) as char], end2))
                        },
                    }
                }
            } else if spec_low_surrogate(first) {
                Err((i, "lone low surrogate in Unicode escape sequence"@))
            } else {
                Ok((seq![first as char], end))
            },
        }
    } else if e == '\n' || e == '\u{2028}' || e == '\u{2029}' {
        Ok((seq![], k))
    } else if e == '\r' {
        if k < raw.len() && raw[k] == '\n' {
            Ok((seq![], k + 1))
        } else {
            Ok((seq![], k))
        }
    } else {
        Ok((seq![e], k))
    }
}

/// The decoded characters of the JSON5 string body `raw[i..]`, or the
/// offset of the escape that is wrong and what is wrong with it.
pub open spec fn spec_decode_string_from(raw: Seq<char>, i: int) -> Result<Seq<char>, (int, Seq<char>)>
    decreases raw.len() - i,
{
    if i < 0 || i >= raw.len() {
        Ok(seq![])
    } else if raw[i] != '\\' {
        spec_prepend(seq![raw[i]], spec_decode_string_from(raw, i + 1))
    } else if i + 1 == raw.len() {
        Err((i, "unterminated escape sequence"@))
    } else {
        match spec_escape(raw, i) {
            Err(e) => Err(e),
            Ok((d, next)) => if next <= i {
                Err((i, "unterminated escape sequence"@))
            } else {
                spec_prepend(d, spec_decode_string_from(raw, next))
            },
        }
    }
}

/// The exec result matches the spec result.
pub open spec fn decode_matches(r: Result<Vec<char>, (usize, &'static str)>, s: Result<Seq<char>, (int, Seq<char>)>) -> bool {
    match s {
        Ok(t) => r matches Ok(v) && v@ == t,
        Err((at, m)) => r matches Err((x, msg)) && x == at && msg@ == m,
    }
}

/// Decodes the escape at `i`.
fn decode_escape(raw: &[char], i: usize) -> (r: Result<(Option<char>, usize), (usize, &'static str)>)
    requires
        i + 1 < raw@.len(),
        raw@[i as int] == '\\',
    ensures
        match spec_escape(raw@, i as int) {
            Ok((d, next)) => r matches Ok((c, x)) && x == next && i < x <= raw@.len() && d == match c {
                Some(ch) => seq![ch],
                None => Seq::<char>::empty(),
            },
            Err((at, m)) => r matches Err((x, msg)) && x == at && msg@ == m,
        },
{
    let n = raw.len();
    let e = raw[i + 1];
    let k = i + 2;
    if e == '\'' || e == '"' || e == '\\' || e == '/' {
        return Ok((Some(e), k));
    } else if e == 'b' {
        return Ok((Some('\u{8}'), k));
    } else if e == 'f' {
        return Ok((Some('\u{c}'), k));
    } else if e == 'n' {
        return Ok((Some('\n'), k));
    } else if e == 'r' {
        return Ok((Some('\r'), k));
    } else if e == 't' {
        return Ok((Some('\t'), k));
    } else if e == 'v' {
        return Ok((Some('\u{b}'), k));
    }
    if e == '0' {
        if k < n && crate::text::is_digit(raw[k]) {
            return Err((i, "legacy numeric escape sequences are not supported"));
        }
        return Ok((Some('\0'), k));
    }
    if '1' <= e && e <= '9' {
        return Err((i, "legacy numeric escape sequences are not supported"));
    }
    if e == 'x' {
        return match decode_hex(raw, k, 2) {
            None => Err((i, "invalid hexadecimal escape sequence")),
            Some((v, end)) => match char_from_u32({
                proof {
                    reveal_with_fuel(pow16, 3);
                    assert(v < 256);
                }
                v
            }) {
                Some(ch) => {
                    proof { vstd::utf8::char_u32_cast(ch, v); }
                    Ok((Some(ch), end))
                },
                None => Err((i, "invalid hexadecimal escape sequence")),
            },
        };
    }
    if e == 'u' {
        return match decode_hex(raw, k, 4) {
            None => Err((i, "invalid Unicode escape sequence")),
            Some((first, end)) => {
                if 0xD800 <= first && first <= 0xDBFF {
                    if !(end < n && n - end >= 2 && raw[end] == '\\' && raw[end + 1] == 'u') {
                        return Err((i, "lone high surrogate in Unicode escape sequence"));
                    }
                    match decode_hex(raw, end + 2, 4) {
                        None => Err((end, "invalid low surrogate in Unicode escape sequence")),
                        Some((second, end2)) => {
                            if !(0xDC00 <= second && second <= 0xDFFF) {
                                return Err((end, "invalid low surrogate in Unicode escape sequence"));
                            }
                            let scalar = 0x10000 + (first - 0xD800) * 1024 + (second - 0xDC00);
                            match char_from_u32(scalar) {
                                Some(ch) => {
                                    proof { vstd::utf8::char_u32_cast(ch, scalar); }
                                    Ok((Some(ch), end2))
                                },
                                None => Err((end, "invalid low surrogate in Unicode escape sequence")),
                            }
                        },
                    }
                } else if 0xDC00 <= first && first <= 0xDFFF {
                    Err((i, "lone low surrogate in Unicode escape sequence"))
                } else {
                    match char_from_u32(first) {
                        Some(ch) => {
                            proof { vstd::utf8::char_u32_cast(ch, first); }
                            Ok((Some(ch), end))
                        },
                        None => Err((i, "lone low surrogate in Unicode escape sequence")),
                    }
                }
            },
        };
    }
    if e == '\n' || e == '\u{2028}' || e == '\u{2029}' {
        return Ok((None, k));
    }
    if e == '\r' {
        if k < n && raw[k] == '\n' {
            return Ok((None, k + 1));
        }
        return Ok((None, k));
    }
    Ok((Some(e), k))
}

/// Decodes the escapes of a JSON5 string body.
pub fn decode_string_body(raw: &[char]) -> (r: Result<Vec<char>, (usize, &'static str)>)
    ensures
        decode_matches(r, spec_decode_string_from(raw@, 0)),
{
    let n = raw.len();
    let mut out: Vec<char> = Vec::new();
    let mut i: usize = 0;
    while i < n
        invariant
            n == raw@.len(),
            i <= n,
            spec_decode_string_from(raw@, 0) == spec_prepend(out@, spec_decode_string_from(raw@, i as int)),
        decreases n - i,
    {
        let ghost before = out@;
        let ghost i0 = i as int;
        let c = raw[i];
        if c != '\\' {
            out.push(c);
            i = i + 1;
            proof {
                assert(out@ == before + seq![c]);
                lemma_prepend_assoc(before, seq![c], spec_decode_string_from(raw@, i as int));
            }
            continue;
        }
        if i + 1 == n {
            return Err((i, "unterminated escape sequence"));
        }
        match decode_escape(raw, i) {
            Err(e) => {
                return Err(e);
            },
            Ok((decoded, next)) => {
                let ghost d = match decoded {
                    Some(ch) => seq![ch],
                    None => Seq::<char>::empty(),
                };
                match decoded {
                    Some(ch) => {
                        out.push(ch);
                    },
                    None => {},
                }
                i = next;
                proof {
                    assert(out@ == before + d);
                    lemma_prepend_assoc(before, d, spec_decode_string_from(raw@, i as int));
                }
            },
        }
    }
    assert(out@ + Seq::<char>::empty() == out@);
    Ok(out)
}

/// Where the JSON5 line-separator scan is: outside strings and comments, in
/// a single- or double-quoted string, or in a line or block comment.
#[derive(Debug, Clone, Copy, PartialEq, Eq, Structural)]
pub enum SeparatorScan {
    Outside,
    SingleQuoted,
    DoubleQuoted,
    LineComment,
    BlockComment,
}

/// One step of the line-separator scan from `i`: where it goes on, its new
/// state and the replacement it records, or the position of a U+0085
/// outside strings and comments.
pub open spec fn spec_separator_step(s: Seq<char>, i: int, st: SeparatorScan) -> Result<(int, SeparatorScan, Option<Seq<char>>), int> {
    let c = s[i];
    let separator = c == '\u{2028}' || c == '\u{2029}';
    if st == SeparatorScan::Outside && c == '/' && i + 1 < s.len() && s[i + 1] == '/' {
        Ok((i + 2, SeparatorScan::LineComment, None))
    } else if st == SeparatorScan::Outside && c == '/' && i + 1 < s.len() && s[i + 1] == '*' {
        Ok((i + 2, SeparatorScan::BlockComment, None))
    } else if st == SeparatorScan::BlockComment && c == '*' && i + 1 < s.len() && s[i + 1] == '/' {
        Ok((i + 2, SeparatorScan::Outside, None))
    } else if st == SeparatorScan::Outside {
        if c == '\u{85}' {
            Err(i)
        } else {
            Ok((
                i + 1,
                if c == '\'' {
                    SeparatorScan::SingleQuoted
                } else if c == '"' {
                    SeparatorScan::DoubleQuoted
                } else {
                    SeparatorScan::Outside
                },
                if separator { Some(seq!['\n']) } else { None },
            ))
        }
    } else if st == SeparatorScan::SingleQuoted || st == SeparatorScan::DoubleQuoted {
        if c == '\\' {
            let next = if i + 1 < s.len() {
                if s[i + 1] == '\r' && i + 2 < s.len() && s[i + 2] == '\n' {
                    i + 3
                } else {
                    i + 2
                }
            } else {
                i + 1
            };
            Ok((next, st, None))
        } else if separator {
            Ok((i + 1, st, Some(if c == '\u{2028}' { seq!['\\', 'u', '2', '0', '2', '8'] } else { seq!['\\', 'u', '2', '0', '2', '9'] })))
        } else {
            let quote = if st == SeparatorScan::SingleQuoted { '\'' } else { '"' };
            Ok((i + 1, if c == quote { SeparatorScan::Outside } else { st }, None))
        }
    } else if st == SeparatorScan::LineComment {
        Ok((
            i + 1,
            if c == '\n' || c == '\r' || separator {
                SeparatorScan::Outside
            } else {
                st
            },
            if separator { Some(seq!['\n']) } else { None },
        ))
    } else {
        Ok((i + 1, st, if separator { Some(seq!['\n']) } else { None }))
    }
}

/// The replacements of the line-separator scan from `i` (position and
/// replacement text), or the position of a U+0085 outside strings and
/// comments.
pub open spec fn spec_separator_scan(s: Seq<char>, i: int, st: SeparatorScan) -> Result<Seq<(int, Seq<char>)>, int>
    decreases s.len() - i,
{
    if i < 0 || i >= s.len() {
        Ok(seq![])
    } else {
        match spec_separator_step(s, i, st) {
            Err(p) => Err(p),
            Ok((next, st2, rep)) => if next <= i {
                Ok(seq![])
            } else {
                match spec_separator_scan(s, next, st2) {
                    Err(p) => Err(p),
                    Ok(rest) => Ok(
                        match rep {
                            Some(t) => seq![(i, t)] + rest,
                            None => rest,
                        },
                    ),
                }
            },
        }
    }
}

/// A replacement in the normalized text and the character it replaced in
/// the original.
#[derive(Debug, Clone, Copy, PartialEq, Eq, Structural)]
pub struct NormalizedReplacement {
    pub normalized_start: usize,
    pub normalized_end: usize,
    pub original_start: usize,
    pub original_end: usize,
}

/// The text the JSON5 tokenizer reads and where it differs from the input.
#[derive(Debug)]
pub struct NormalizedInput {
    pub source: Vec<char>,
    pub replacements: Vec<NormalizedReplacement>,
}

/// The offset in the original input of an offset in the normalized text:
/// inside a replacement its start (its end at the end), elsewhere shifted
/// by the length differences of the replacements before it.
pub open spec fn spec_original_offset(reps: Seq<NormalizedReplacement>, offset: int, k: int, adjustment: int) -> int
    decreases reps.len() - k,
{
    if k < 0 || k >= reps.len() || offset < reps[k].normalized_start {
        if offset + adjustment < 0 {
            0
        } else if offset + adjustment > usize::MAX {
            usize::MAX as int
        } else {
            offset + adjustment
        }
    } else if offset <= reps[k].normalized_end {
        if offset == reps[k].normalized_end {
            reps[k].original_end as int
        } else {
            reps[k].original_start as int
        }
    } else {
        spec_original_offset(
            reps,
            offset,
            k + 1,
            adjustment + (reps[k].original_end - reps[k].original_start) - (reps[k].normalized_end
                - reps[k].normalized_start),
        )
    }
}

impl NormalizedInput {
    /// Every replacement spans at most eight characters on either side, and
    /// there are not too many of them to add up their differences.
    pub open spec fn wf(&self) -> bool {
        &&& forall|k: int| 0 <= k < self.replacements@.len() ==> (#[trigger] self.replacements@[k]).normalized_start
                <= self.replacements@[k].normalized_end && self.replacements@[k].original_start
                <= self.replacements@[k].original_end && self.replacements@[k].original_end - self.replacements@[k].original_start <= 8
                && self.replacements@[k].normalized_end - self.replacements@[k].normalized_start <= 8
        &&& self.replacements@.len() <= usize::MAX / 8
    }

    /// The offset in the original input of an offset in the normalized text.
    pub fn original_offset(&self, normalized_offset: usize) -> (r: usize)
        requires
            self.wf(),
        ensures
            r == spec_original_offset(self.replacements@, normalized_offset as int, 0, 0),
    {
        let mut adjustment: i128 = 0;
        let mut k: usize = 0;
        while k < self.replacements.len()
            invariant
                k <= self.replacements@.len() <= usize::MAX / 8,
                forall|j: int| 0 <= j < self.replacements@.len() ==> (#[trigger] self.replacements@[j]).normalized_start
                    <= self.replacements@[j].normalized_end && self.replacements@[j].original_start
                    <= self.replacements@[j].original_end && self.replacements@[j].original_end - self.replacements@[j].original_start <= 8
                    && self.replacements@[j].normalized_end - self.replacements@[j].normalized_start <= 8,
                -8 * k <= adjustment <= 8 * k,
                spec_original_offset(self.replacements@, normalized_offset as int, k as int, adjustment as int)
                    == spec_original_offset(self.replacements@, normalized_offset as int, 0, 0),
            decreases self.replacements@.len() - k,
        {
            let rep = self.replacements[k];
            if normalized_offset < rep.normalized_start {
                break;
            }
            if normalized_offset <= rep.normalized_end {
                return if normalized_offset == rep.normalized_end {
                    rep.original_end
                } else {
                    rep.original_start
                };
            }
            let orig = (rep.original_end - rep.original_start) as i128;
            let norm = (rep.normalized_end - rep.normalized_start) as i128;
            adjustment = adjustment + orig - norm;
            k = k + 1;
        }
        if adjustment < 0 {
            let down = (-adjustment) as usize;
            if normalized_offset >= down {
                normalized_offset - down
            } else {
                0
            }
        } else {
            let up = adjustment as usize;
            if normalized_offset <= usize::MAX - up {
                normalized_offset + up
            } else {
                usize::MAX
            }
        }
    }
}

/// The error `invalid JSON5: {message}` at the line and column of `offset`
/// in the original input.
pub open spec fn spec_invalid_json5_at(original: Seq<char>, offset: int, message: Seq<char>, e: YamarkError) -> bool {
    &&& e.diagnostic.message@ == "invalid JSON5: "@ + message
    &&& e.diagnostic.line as int == spec_line_column(original, offset).0
    &&& e.diagnostic.column as int == spec_line_column(original, offset).1
    &&& e.diagnostic.severity == crate::diagnostic::Severity::Error
    &&& e.diagnostic.path is None
}

pub fn invalid_json5_at(original: &[char], offset: usize, message: &str) -> (r: YamarkError)
    ensures
        spec_invalid_json5_at(original@, offset as int, message@, r),
{
    let (line, column) = line_column(original, offset);
    let mut m = str_chars("invalid JSON5: ");
    let mc = str_chars(message);
    push_all(&mut m, mc.as_slice());
    YamarkError::at(chars_to_string(m.as_slice()), line, column)
}

/// The text with every replacement `(position, text)` put in for the
/// character at its position, up to the `k`-th replacement.
pub open spec fn spec_replaced_prefix(s: Seq<char>, reps: Seq<(int, Seq<char>)>, k: int) -> Seq<char>
    decreases k,
{
    if k <= 0 || k > reps.len() {
        seq![]
    } else {
        spec_replaced_prefix(s, reps, k - 1) + s.subrange(spec_copied_through(reps, k - 1), reps[k - 1].0)
            + reps[k - 1].1
    }
}

/// Where the original text is copied from after the first `k` replacements.
pub open spec fn spec_copied_through(reps: Seq<(int, Seq<char>)>, k: int) -> int {
    if k <= 0 || k > reps.len() {
        0
    } else {
        reps[k - 1].0 + 1
    }
}

/// The normalized text of `s` with the replacements `reps`.
pub open spec fn spec_normalized_source(s: Seq<char>, reps: Seq<(int, Seq<char>)>) -> Seq<char> {
    spec_replaced_prefix(s, reps, reps.len() as int) + s.subrange(
        spec_copied_through(reps, reps.len() as int),
        s.len() as int,
    )
}

/// The `k`-th replacement as it stands in the normalized text.
pub open spec fn spec_normalized_replacement(s: Seq<char>, reps: Seq<(int, Seq<char>)>, k: int) -> NormalizedReplacement {
    let start = spec_replaced_prefix(s, reps, k).len() + (reps[k].0 - spec_copied_through(reps, k));
    NormalizedReplacement {
        normalized_start: start as usize,
        normalized_end: (start + reps[k].1.len()) as usize,
        original_start: reps[k].0 as usize,
        original_end: (reps[k].0 + 1) as usize,
    }
}

/// One step of the scan, run.
fn separator_step(s: &[char], i: usize, st: SeparatorScan) -> (r: Result<(usize, SeparatorScan, Option<Vec<char>>), usize>)
    requires
        i < s@.len(),
    ensures
        match spec_separator_step(s@, i as int, st) {
            Err(p) => r == Err::<(usize, SeparatorScan, Option<Vec<char>>), usize>(p as usize),
            Ok((next, st2, rep)) => r matches Ok((n2, st3, rep2)) && n2 == next && st3 == st2 && i < n2 <= s@.len()
                && match rep {
                Some(t) => rep2 matches Some(v) && v@ == t,
                None => rep2 is None,
            },
        },
{
    let n = s.len();
    let c = s[i];
    let separator = c == '\u{2028}' || c == '\u{2029}';
    let next_is = |x: char| -> (b: bool)
        ensures
            b == (i + 1 < s@.len() && s@[i + 1] == x),
        { i + 1 < n && s[i + 1] == x };
    if st == SeparatorScan::Outside && c == '/' && next_is('/') {
        return Ok((i + 2, SeparatorScan::LineComment, None));
    }
    if st == SeparatorScan::Outside && c == '/' && next_is('*') {
        return Ok((i + 2, SeparatorScan::BlockComment, None));
    }
    if st == SeparatorScan::BlockComment && c == '*' && next_is('/') {
        return Ok((i + 2, SeparatorScan::Outside, None));
    }
    let newline_rep: Option<Vec<char>> = if separator {
        Some(vec!['\n'])
    } else {
        None
    };
    match st {
        SeparatorScan::Outside => {
            if c == '\u{85}' {
                return Err(i);
            }
            let st2 = if c == '\'' {
                SeparatorScan::SingleQuoted
            } else if c == '"' {
                SeparatorScan::DoubleQuoted
            } else {
                SeparatorScan::Outside
            };
            Ok((i + 1, st2, newline_rep))
        },
        SeparatorScan::SingleQuoted | SeparatorScan::DoubleQuoted => {
            if c == '\\' {
                let next = if i + 1 < n {
                    if s[i + 1] == '\r' && i + 2 < n && s[i + 2] == '\n' {
                        i + 3
                    } else {
                        i + 2
                    }
                } else {
                    i + 1
                };
                Ok((next, st, None))
            } else if separator {
                let t = if c == '\u{2028}' {
                    vec!['\\', 'u', '2', '0', '2', '8']
                } else {
                    vec!['\\', 'u', '2', '0', '2', '9']
                };
                Ok((i + 1, st, Some(t)))
            } else {
                let quote = if st == SeparatorScan::SingleQuoted {
                    '\''
                } else {
                    '"'
                };
                Ok((i + 1, if c == quote {
                    SeparatorScan::Outside
                } else {
                    st
                }, None))
            }
        },
        SeparatorScan::LineComment => {
            let st2 = if c == '\n' || c == '\r' || separator {
                SeparatorScan::Outside
            } else {
                st
            };
            Ok((i + 1, st2, newline_rep))
        },
        SeparatorScan::BlockComment => Ok((i + 1, st, newline_rep)),
    }
}

/// The views of a vector of replacements found by the scan.
pub open spec fn rep_views(v: Seq<(usize, Vec<char>)>) -> Seq<(int, Seq<char>)> {
    v.map_values(|r: (usize, Vec<char>)| (r.0 as int, r.1@))
}

/// The replacements of the line-separator scan.
fn scan_separators(s: &[char]) -> (r: Result<Vec<(usize, Vec<char>)>, usize>)
    ensures
        match spec_separator_scan(s@, 0, SeparatorScan::Outside) {
            Err(p) => r == Err::<Vec<(usize, Vec<char>)>, usize>(p as usize),
            Ok(reps) => r matches Ok(v) && rep_views(v@) == reps,
        },
        r matches Ok(v) ==> forall|k: int| 0 <= k < v@.len() ==> (#[trigger] v@[k]).0 < s@.len() && (k > 0 ==> v@[k - 1].0 < v@[k].0)
            && 1 <= v@[k].1@.len() <= 6,
{
    let n = s.len();
    let mut reps: Vec<(usize, Vec<char>)> = Vec::new();
    let mut i: usize = 0;
    let mut st = SeparatorScan::Outside;
    while i < n
        invariant
            n == s@.len(),
            i <= n,
            forall|k: int| 0 <= k < reps@.len() ==> (#[trigger] reps@[k]).0 < i && (k > 0 ==> reps@[k - 1].0 < reps@[k].0)
                && 1 <= reps@[k].1@.len() <= 6,
            spec_separator_scan(s@, 0, SeparatorScan::Outside) == match spec_separator_scan(s@, i as int, st) {
                Err(p) => Err(p),
                Ok(rest) => Ok(rep_views(reps@) + rest),
            },
        decreases n - i,
    {
        match separator_step(s, i, st) {
            Err(p) => {
                return Err(p);
            },
            Ok((next, st2, rep)) => {
                let ghost before = reps@;
                let ghost i0 = i as int;
                let ghost rep_view: Option<Seq<char>> = match &rep {
                    Some(t) => Some(t@),
                    None => None,
                };
                match rep {
                    Some(t) => {
                        reps.push((i, t));
                        proof {
                            assert(rep_views(reps@) == rep_views(before).push((i0, t@)));
                        }
                    },
                    None => {},
                }
                proof {
                    match spec_separator_scan(s@, next as int, st2) {
                        Err(_) => {},
                        Ok(rest) => {
                            if let Some(t) = rep_view {
                                assert(rep_views(before) + (seq![(i0, t)] + rest) == rep_views(before).push((i0, t)) + rest);
                            }
                        },
                    }
                }
                i = next;
                st = st2;
            },
        }
    }
    assert(rep_views(reps@) + Seq::<(int, Seq<char>)>::empty() == rep_views(reps@));
    Ok(reps)
}

proof fn lemma_separator_scan_error(s: Seq<char>, i: int, st: SeparatorScan)
    requires
        0 <= i,
    ensures
        spec_separator_scan(s, i, st) matches Err(p) ==> i <= p < s.len(),
    decreases s.len() - i,
{
    if 0 <= i < s.len() {
        if let Ok((next, st2, _)) = spec_separator_step(s, i, st) {
            if next > i {
                lemma_separator_scan_error(s, next, st2);
            }
        }
    }
}

/// The text the JSON5 tokenizer reads: U+2028 and U+2029 become a line
/// break outside strings and in comments, and a `\u` escape inside strings;
/// a U+0085 outside strings and comments is an error.
/// Builds the normalized text from the replacements of the scan.
#[verifier::rlimit(60)]
fn build_normalized(input: &[char], reps: Vec<(usize, Vec<char>)>) -> (r: NormalizedInput)
    requires
        input@.len() <= usize::MAX / 8,
        forall|k: int| 0 <= k < reps@.len() ==> (#[trigger] reps@[k]).0 < input@.len() && (k > 0 ==> reps@[k - 1].0 < reps@[k].0)
            && 1 <= reps@[k].1@.len() <= 6,
    ensures
        r.wf(),
        r.source@ == spec_normalized_source(input@, rep_views(reps@)),
        r.replacements@.len() == reps@.len(),
        forall|k: int|
            0 <= k < reps@.len() ==> #[trigger] r.replacements@[k] == spec_normalized_replacement(input@, rep_views(reps@), k),
{
    let n = input.len();
    let ghost rv = rep_views(reps@);
    let mut source: Vec<char> = Vec::new();
    let mut replacements: Vec<NormalizedReplacement> = Vec::new();
    let mut copied: usize = 0;
    let mut k: usize = 0;
    while k < reps.len()
        invariant
            n == input@.len(),
            rv == rep_views(reps@),
            k <= reps@.len(),
            forall|j: int| 0 <= j < reps@.len() ==> (#[trigger] reps@[j]).0 < n && (j > 0 ==> reps@[j - 1].0 < reps@[j].0)
                && 1 <= reps@[j].1@.len() <= 6,
            source@ == spec_replaced_prefix(input@, rv, k as int),
            copied as int == spec_copied_through(rv, k as int),
            copied <= n,
            k > 0 ==> copied == reps@[k - 1].0 + 1,
            replacements@.len() == k,
            forall|j: int| 0 <= j < k ==> #[trigger] replacements@[j] == spec_normalized_replacement(input@, rv, j),
            n <= usize::MAX / 8,
            k <= copied,
            forall|j: int| 0 <= j < replacements@.len() ==> (#[trigger] replacements@[j]).normalized_start
                <= replacements@[j].normalized_end && replacements@[j].original_start
                <= replacements@[j].original_end && replacements@[j].original_end - replacements@[j].original_start <= 8
                && replacements@[j].normalized_end - replacements@[j].normalized_start <= 8,
        decreases reps@.len() - k,
    {
        let start = reps[k].0;
        proof {
            if k > 0 {
                assert(reps@[k - 1].0 < reps@[k as int].0);
            }
        }
        let between = sub_chars(input, copied, start);
        push_all(&mut source, between.as_slice());
        let normalized_start = source.len();
        push_all(&mut source, reps[k].1.as_slice());
        let normalized_end = source.len();
        let ghost before = replacements@;
        replacements.push(NormalizedReplacement {
            normalized_start,
            normalized_end,
            original_start: start,
            original_end: start + 1,
        });
        proof {
            assert(rv[k as int] == (start as int, reps@[k as int].1@));
            assert(spec_replaced_prefix(input@, rv, k + 1) == spec_replaced_prefix(input@, rv, k as int)
                + input@.subrange(copied as int, start as int) + rv[k as int].1);
            assert(forall|j: int| 0 <= j < k ==> replacements@[j] == before[j]);
        }
        copied = start + 1;
        k = k + 1;
    }
    let rest = sub_chars(input, copied, n);
    push_all(&mut source, rest.as_slice());
    assert(rv.len() == reps@.len());
    assert(source@ == spec_normalized_source(input@, rv));
    NormalizedInput { source, replacements }
}

/// The text the JSON5 tokenizer reads: U+2028 and U+2029 become a line
/// break outside strings and in comments, and a `\u` escape inside strings;
/// a U+0085 outside strings and comments is an error. A slice of `char`
/// takes four bytes per character and at most `isize::MAX` bytes, so it
/// never holds more than `usize::MAX / 8` characters.
pub fn normalize_line_separators(input: &[char]) -> (r: Result<NormalizedInput, YamarkError>)
    requires
        input@.len() <= usize::MAX / 8,
    ensures
        r matches Ok(n) ==> n.wf(),
        match spec_separator_scan(input@, 0, SeparatorScan::Outside) {
            Err(p) => r matches Err(e) && spec_invalid_json5_at(input@, p, "U+0085 is not JSON5 whitespace"@, e),
            Ok(reps) => r matches Ok(n) && n.source@ == spec_normalized_source(input@, reps) && n.replacements@.len()
                == reps.len() && forall|k: int|
                0 <= k < reps.len() ==> #[trigger] n.replacements@[k] == spec_normalized_replacement(input@, reps, k),
        },
{
    proof {
        lemma_separator_scan_error(input@, 0, SeparatorScan::Outside);
    }
    match scan_separators(input) {
        Err(p) => Err(invalid_json5_at(input, p, "U+0085 is not JSON5 whitespace")),
        Ok(reps) => Ok(build_normalized(input, reps)),
    }
}

/// The characters of a JSON5 identifier `raw[i..]` with its `\uXXXX`
/// escapes decoded, each checked to start (the first) or continue an
/// identifier; or the offset of what is wrong and what is wrong with it.
pub open spec fn spec_decode_identifier_from(raw: Seq<char>, i: int, first: bool) -> Result<Seq<char>, (int, Seq<char>)>
    decreases raw.len() - i,
{
    if i < 0 || i >= raw.len() {
        Ok(seq![])
    } else {
        let step: Result<(char, int), (int, Seq<char>)> = if raw[i] == '\\' {
            if !(i + 1 < raw.len() && raw[i + 1] == 'u') {
                Err((i, "identifier escapes must use \\u followed by four hex digits"@))
            } else {
                match spec_decode_hex(raw, i + 2, 4) {
                    None => Err((i, "invalid Unicode escape in identifier"@)),
                    Some((unit, end)) => if !vstd::utf8::is_scalar(unit) {
                        Err((i, "surrogate escapes are not valid in identifiers"@))
                    } else {
                        Ok((unit as char, end))
                    },
                }
            }
        } else {
            Ok((raw[i], i + 1))
        };
        match step {
            Err(e) => Err(e),
            Ok((value, next)) => if !(if first { spec_identifier_start(value) } else { spec_identifier_part(value) }) {
                Err((i, "escaped character is not valid in a JSON5 IdentifierName"@))
            } else if next <= i {
                Ok(seq![])
            } else {
                spec_prepend(seq![value], spec_decode_identifier_from(raw, next, false))
            },
        }
    }
}

/// Decodes a JSON5 identifier.
pub fn decode_identifier_body(raw: &[char]) -> (r: Result<Vec<char>, (usize, &'static str)>)
    ensures
        decode_matches(r, spec_decode_identifier_from(raw@, 0, true)),
{
    let n = raw.len();
    let mut out: Vec<char> = Vec::new();
    let mut i: usize = 0;
    while i < n
        invariant
            n == raw@.len(),
            i <= n,
            (i == 0) == (out@.len() == 0),
            spec_decode_identifier_from(raw@, 0, true) == spec_prepend(
                out@,
                spec_decode_identifier_from(raw@, i as int, out@.len() == 0),
            ),
        decreases n - i,
    {
        let ghost before = out@;
        let c = raw[i];
        let (value, next) = if c == '\\' {
            if !(i + 1 < n && raw[i + 1] == 'u') {
                return Err((i, "identifier escapes must use \\u followed by four hex digits"));
            }
            match decode_hex(raw, i + 2, 4) {
                None => {
                    return Err((i, "invalid Unicode escape in identifier"));
                },
                Some((unit, end)) => match char_from_u32(unit) {
                    None => {
                        return Err((i, "surrogate escapes are not valid in identifiers"));
                    },
                    Some(ch) => {
                        proof {
                            vstd::utf8::char_u32_cast(ch, unit);
                        }
                        (ch, end)
                    },
                },
            }
        } else {
            (c, i + 1)
        };
        let valid = if out.len() == 0 {
            is_identifier_start(value)
        } else {
            is_identifier_part(value)
        };
        if !valid {
            return Err((i, "escaped character is not valid in a JSON5 IdentifierName"));
        }
        out.push(value);
        i = next;
        proof {
            assert(out@ == before + seq![value]);
            lemma_prepend_assoc(before, seq![value], spec_decode_identifier_from(raw@, i as int, false));
        }
    }
    assert(out@ + Seq::<char>::empty() == out@);
    Ok(out)
}

/// `a + b`, kept at the largest `usize`.
pub open spec fn spec_sat_add(a: int, b: int) -> int {
    if a + b <= usize::MAX {
        a + b
    } else {
        usize::MAX as int
    }
}

/// A decoding error, placed at the original position of `base + at`.
fn decode_error(original: &[char], normalized: &NormalizedInput, base: usize, at: usize, message: &str) -> (r: YamarkError)
    requires
        normalized.wf(),
    ensures
        spec_invalid_json5_at(
            original@,
            spec_original_offset(normalized.replacements@, spec_sat_add(base as int, at as int), 0, 0),
            message@,
            r,
        ),
{
    let offset = if base <= usize::MAX - at {
        base + at
    } else {
        usize::MAX
    };
    invalid_json5_at(original, normalized.original_offset(offset), message)
}

/// Decodes a JSON5 string body that starts at `base` in the normalized
/// text; errors are placed in the original input.
pub fn decode_string(raw: &[char], base: usize, normalized: &NormalizedInput, original: &[char]) -> (r: Result<Vec<char>, YamarkError>)
    requires
        normalized.wf(),
    ensures
        match spec_decode_string_from(raw@, 0) {
            Ok(t) => r matches Ok(v) && v@ == t,
            Err((at, m)) => r matches Err(e) && spec_invalid_json5_at(
                original@,
                spec_original_offset(normalized.replacements@, spec_sat_add(base as int, at), 0, 0),
                m,
                e,
            ),
        },
{
    match decode_string_body(raw) {
        Ok(v) => Ok(v),
        Err((at, m)) => Err(decode_error(original, normalized, base, at, m)),
    }
}

/// Decodes a JSON5 identifier that starts at `base` in the normalized text;
/// errors are placed in the original input.
pub fn decode_identifier(raw: &[char], base: usize, normalized: &NormalizedInput, original: &[char]) -> (r: Result<Vec<char>, YamarkError>)
    requires
        normalized.wf(),
    ensures
        match spec_decode_identifier_from(raw@, 0, true) {
            Ok(t) => r matches Ok(v) && v@ == t,
            Err((at, m)) => r matches Err(e) && spec_invalid_json5_at(
                original@,
                spec_original_offset(normalized.replacements@, spec_sat_add(base as int, at), 0, 0),
                m,
                e,
            ),
        },
{
    match decode_identifier_body(raw) {
        Ok(v) => Ok(v),
        Err((at, m)) => Err(decode_error(original, normalized, base, at, m)),
    }
}

/// A converted JSON5 value with the comments before and after it.
#[derive(Debug)]
pub struct Json5Node {
    pub leading: Vec<Vec<char>>,
    pub kind: Json5Kind,
    pub trailing: Vec<Vec<char>>,
}

/// The value of a converted JSON5 node; a collection also holds the
/// comments before its closing bracket.
#[derive(Debug)]
pub enum Json5Kind {
    Null,
    Bool(bool),
    Number(Vec<char>),
    String(Vec<char>),
    Array { items: Vec<Json5Node>, tail: Vec<Vec<char>> },
    Object { members: Vec<Json5Member>, tail: Vec<Vec<char>> },
}

/// An object member: the comments before it, its key and its value.
#[derive(Debug)]
pub struct Json5Member {
    pub leading: Vec<Vec<char>>,
    pub key: Vec<char>,
    pub value: Json5Node,
}

/// Whether a key of a JSON5 object can stay plain in YAML: an identifier
/// that is not `null`, `true` or `false` in any letter case.
pub open spec fn spec_plain_json5_key(k: Seq<char>) -> bool {
    &&& k.len() > 0
    &&& spec_identifier_start(k[0])
    &&& forall|i: int| 1 <= i < k.len() ==> spec_identifier_part(#[trigger] k[i])
    &&& !spec_eq_ignore_ascii_case(k, "null"@)
    &&& !spec_eq_ignore_ascii_case(k, "true"@)
    &&& !spec_eq_ignore_ascii_case(k, "false"@)
}

/// A key as YAML: plain when it can be, else double-quoted.
pub open spec fn spec_json5_key(k: Seq<char>) -> Seq<char> {
    if spec_plain_json5_key(k) {
        k
    } else {
        spec_double_quoted(k)
    }
}

pub fn emit_json5_mapping_key(out: &mut Vec<char>, value: &[char])
    ensures
        final(out)@ == old(out)@ + spec_json5_key(value@),
{
    let n = value.len();
    let starts_plain = n > 0 && is_identifier_start(value[0]);
    let mut continues_plain = true;
    let mut i: usize = 1;
    while i < n
        invariant
            n == value@.len(),
            1 <= i,
            continues_plain == forall|j: int| 1 <= j < i && j < n ==> spec_identifier_part(#[trigger] value@[j]),
        decreases n - i,
    {
        if !is_identifier_part(value[i]) {
            continues_plain = false;
        }
        i = i + 1;
    }
    let null = str_chars("null");
    let t = str_chars("true");
    let f = str_chars("false");
    let reserved = eq_ignore_ascii_case(value, null.as_slice()) || eq_ignore_ascii_case(value, t.as_slice())
        || eq_ignore_ascii_case(value, f.as_slice());
    if starts_plain && continues_plain && !reserved {
        push_all(out, value);
    } else {
        emit_yaml_double_quoted(out, value);
    }
}

/// A value as a YAML flow value.
pub open spec fn spec_flow_kind(kind: Json5Kind) -> Seq<char>
    decreases kind,
{
    match kind {
        Json5Kind::Null => "null"@,
        Json5Kind::Bool(b) => if b {
            "true"@
        } else {
            "false"@
        },
        Json5Kind::Number(v) => v@,
        Json5Kind::String(v) => spec_double_quoted(v@),
        Json5Kind::Array { items, .. } => seq!['['] + spec_flow_items(items@) + seq![']'],
        Json5Kind::Object { members, .. } => seq!['{'] + spec_flow_members(members@) + seq!['}'],
    }
}

pub open spec fn spec_flow_items(items: Seq<Json5Node>) -> Seq<char>
    decreases items,
{
    if items.len() == 0 {
        seq![]
    } else {
        spec_flow_items(items.subrange(0, items.len() - 1)) + (if items.len() > 1 {
            seq![',']
        } else {
            seq![]
        }) + spec_flow_kind(items[items.len() - 1].kind)
    }
}

pub open spec fn spec_flow_members(members: Seq<Json5Member>) -> Seq<char>
    decreases members,
{
    if members.len() == 0 {
        seq![]
    } else {
        spec_flow_members(members.subrange(0, members.len() - 1)) + (if members.len() > 1 {
            seq![',']
        } else {
            seq![]
        }) + spec_json5_key(members[members.len() - 1].key@) + seq![':', ' '] + spec_flow_kind(
            members[members.len() - 1].value.kind,
        )
    }
}

/// Emits a value as a YAML flow value.
#[verifier::rlimit(60)]
pub fn emit_flow_kind(out: &mut Vec<char>, kind: &Json5Kind)
    ensures
        final(out)@ == old(out)@ + spec_flow_kind(*kind),
    decreases kind,
{
    let ghost o = out@;
    match kind {
        Json5Kind::Null => {
            let w = str_chars("null");
            push_all(out, w.as_slice());
        },
        Json5Kind::Bool(b) => {
            let w = if *b {
                str_chars("true")
            } else {
                str_chars("false")
            };
            push_all(out, w.as_slice());
        },
        Json5Kind::Number(v) => {
            push_all(out, v.as_slice());
        },
        Json5Kind::String(v) => {
            emit_yaml_double_quoted(out, v.as_slice());
        },
        Json5Kind::Array { items, .. } => {
            out.push('[');
            let mut i: usize = 0;
            while i < items.len()
                invariant
                    i <= items@.len(),
                    out@ == o + seq!['['] + spec_flow_items(items@.subrange(0, i as int)),
                decreases items@.len() - i,
            {
                proof {
                    assert(items@.subrange(0, i + 1).subrange(0, i as int) == items@.subrange(0, i as int));
                    assert(decreases_to!(kind => items@[i as int].kind));
                }
                if i != 0 {
                    out.push(',');
                }
                emit_flow_kind(out, &items[i].kind);
                i = i + 1;
            }
            out.push(']');
            assert(items@.subrange(0, items@.len() as int) == items@);
        },
        Json5Kind::Object { members, .. } => {
            out.push('{');
            let mut i: usize = 0;
            while i < members.len()
                invariant
                    i <= members@.len(),
                    out@ == o + seq!['{'] + spec_flow_members(members@.subrange(0, i as int)),
                decreases members@.len() - i,
            {
                proof {
                    assert(members@.subrange(0, i + 1).subrange(0, i as int) == members@.subrange(0, i as int));
                    assert(decreases_to!(kind => members@[i as int].value.kind));
                }
                if i != 0 {
                    out.push(',');
                }
                emit_json5_mapping_key(out, members[i].key.as_slice());
                out.push(':');
                out.push(' ');
                emit_flow_kind(out, &members[i].value.kind);
                i = i + 1;
            }
            out.push('}');
            assert(members@.subrange(0, members@.len() as int) == members@);
        },
    }
}

/// Comments as YAML comment lines at `indent`.
pub open spec fn spec_comments(cs: Seq<Vec<char>>, indent: nat) -> Seq<char>
    decreases cs.len(),
{
    if cs.len() == 0 {
        seq![]
    } else {
        spec_comments(cs.drop_last(), indent) + spec_comment_line(cs.last()@, indent, "json5"@)
    }
}

pub fn emit_comments(out: &mut Vec<char>, comments: &Vec<Vec<char>>, indent: usize)
    ensures
        final(out)@ == old(out)@ + spec_comments(comments@, indent as nat),
{
    let ghost o = out@;
    let dialect = str_chars("json5");
    let mut k: usize = 0;
    while k < comments.len()
        invariant
            k <= comments@.len(),
            dialect@ == "json5"@,
            out@ == o + spec_comments(comments@.subrange(0, k as int), indent as nat),
        decreases comments@.len() - k,
    {
        proof {
            assert(comments@.subrange(0, k + 1).drop_last() == comments@.subrange(0, k as int));
        }
        emit_yaml_comment_line(out, comments[k].as_slice(), indent, dialect.as_slice());
        k = k + 1;
    }
    assert(comments@.subrange(0, comments@.len() as int) == comments@);
}

/// The indentation one level deeper, kept at the largest `usize`.
pub open spec fn spec_deeper(indent: usize) -> usize {
    if indent <= usize::MAX - 2 {
        (indent + 2) as usize
    } else {
        usize::MAX
    }
}

fn deeper(indent: usize) -> (r: usize)
    ensures
        r == spec_deeper(indent),
{
    if indent <= usize::MAX - 2 {
        indent + 2
    } else {
        usize::MAX
    }
}

/// `n` spaces.
pub open spec fn spaces(n: nat) -> Seq<char> {
    Seq::new(n, |_i: int| ' ')
}

/// Whether a value is written on the line of its key or marker.
pub open spec fn spec_kind_is_inline(kind: Json5Kind) -> bool {
    match kind {
        Json5Kind::Array { items, tail } => items@.len() == 0 && tail@.len() == 0,
        Json5Kind::Object { members, tail } => members@.len() == 0 && tail@.len() == 0,
        _ => true,
    }
}

pub fn kind_is_inline(kind: &Json5Kind) -> (r: bool)
    ensures
        r == spec_kind_is_inline(*kind),
{
    match kind {
        Json5Kind::Array { items, tail } => items.len() == 0 && tail.len() == 0,
        Json5Kind::Object { members, tail } => members.len() == 0 && tail.len() == 0,
        _ => true,
    }
}

/// Whether the value has no leading comments and is written inline.
pub open spec fn spec_node_is_inline(node: Json5Node) -> bool {
    node.leading@.len() == 0 && spec_kind_is_inline(node.kind)
}

/// The block rendering of a node at `indent`.
pub open spec fn spec_block_node(node: Json5Node, indent: usize) -> Seq<char>
    decreases node, 0nat,
{
    spec_comments(node.leading@, indent as nat) + spec_block_kind(node.kind, indent) + spec_comments(
        node.trailing@,
        indent as nat,
    )
}

/// The block rendering of a value at `indent`: members and items one per
/// line, an empty collection as `{}` or `[]` after its comments, a scalar
/// as its flow value.
pub open spec fn spec_block_kind(kind: Json5Kind, indent: usize) -> Seq<char>
    decreases kind, 0nat,
{
    match kind {
        Json5Kind::Object { members, tail } => if members@.len() > 0 {
            spec_block_members(members@, indent) + spec_comments(tail@, indent as nat)
        } else {
            spec_comments(tail@, indent as nat) + spaces(indent as nat) + seq!['{', '}', '\n']
        },
        Json5Kind::Array { items, tail } => if items@.len() > 0 {
            spec_block_items(items@, indent) + spec_comments(tail@, indent as nat)
        } else {
            spec_comments(tail@, indent as nat) + spaces(indent as nat) + seq!['[', ']', '\n']
        },
        _ => spaces(indent as nat) + spec_flow_kind(kind) + seq!['\n'],
    }
}

pub open spec fn spec_block_members(ms: Seq<Json5Member>, indent: usize) -> Seq<char>
    decreases ms, 0nat,
{
    if ms.len() == 0 {
        seq![]
    } else {
        spec_block_members(ms.subrange(0, ms.len() - 1), indent) + spec_block_member(ms[ms.len() - 1], indent)
    }
}

/// One member of a block mapping.
pub open spec fn spec_block_member(m: Json5Member, indent: usize) -> Seq<char>
    decreases m, 0nat,
{
    spec_comments(m.leading@, indent as nat) + match m.value.kind {
        Json5Kind::Object { members, tail } if members@.len() == 0 => spec_member_empty(
            m,
            indent,
            seq!['{', '}'],
            tail@,
        ),
        Json5Kind::Array { items, tail } if items@.len() == 0 => spec_member_empty(m, indent, seq!['[', ']'], tail@),
        _ => spec_member_value(m.key@, m.value, indent),
    }
}

/// A member whose value is an empty collection: its comments, then
/// `key: {}` or `key: []`.
pub open spec fn spec_member_empty(m: Json5Member, indent: usize, syntax: Seq<char>, tail: Seq<Vec<char>>) -> Seq<char> {
    spec_comments(m.value.leading@, indent as nat) + spec_comments(tail, indent as nat) + spaces(indent as nat)
        + spec_json5_key(m.key@) + seq![':', ' '] + syntax + seq!['\n'] + spec_comments(m.value.trailing@, indent as nat)
}

/// A member with any other value: inline after the key, or as a block
/// below it.
pub open spec fn spec_member_value(key: Seq<char>, value: Json5Node, indent: usize) -> Seq<char>
    decreases value, 1nat,
{
    let k = spaces(indent as nat) + spec_json5_key(key);
    if spec_node_is_inline(value) {
        k + seq![':', ' '] + spec_flow_kind(value.kind) + seq!['\n'] + spec_comments(value.trailing@, indent as nat)
    } else {
        k + seq![':', '\n'] + spec_block_node(value, spec_deeper(indent))
    }
}

pub open spec fn spec_block_items(items: Seq<Json5Node>, indent: usize) -> Seq<char>
    decreases items, 0nat,
{
    if items.len() == 0 {
        seq![]
    } else {
        spec_block_items(items.subrange(0, items.len() - 1), indent) + spec_block_item(items[items.len() - 1], indent)
    }
}

/// One item of a block sequence.
pub open spec fn spec_block_item(item: Json5Node, indent: usize) -> Seq<char>
    decreases item, 0nat,
{
    let head = spec_comments(item.leading@, indent as nat);
    let rest = match item.kind {
        Json5Kind::Object { members, tail } if members@.len() == 0 => spec_comments(tail@, indent as nat) + spaces(
            indent as nat,
        ) + seq!['-', ' ', '{', '}', '\n'] + spec_comments(item.trailing@, indent as nat),
        Json5Kind::Array { items, tail } if items@.len() == 0 => spec_comments(tail@, indent as nat) + spaces(
            indent as nat,
        ) + seq!['-', ' ', '[', ']', '\n'] + spec_comments(item.trailing@, indent as nat),
        _ => spaces(indent as nat) + (if spec_kind_is_inline(item.kind) {
            seq!['-', ' '] + spec_flow_kind(item.kind) + seq!['\n']
        } else {
            seq!['-', '\n'] + spec_block_kind(item.kind, spec_deeper(indent))
        }) + spec_comments(item.trailing@, indent as nat),
    };
    head + rest
}

/// Emits a node as block YAML at `indent`.
pub fn emit_block_node(out: &mut Vec<char>, node: &Json5Node, indent: usize)
    ensures
        final(out)@ == old(out)@ + spec_block_node(*node, indent),
    decreases node, 0nat,
{
    let ghost o = out@;
    emit_comments(out, &node.leading, indent);
    let ghost a = out@;
    proof {
        assert(decreases_to!(node => node.kind));
    }
    emit_block_kind(out, &node.kind, indent);
    let ghost b = out@;
    emit_comments(out, &node.trailing, indent);
    assert(out@ == o + (a.subrange(o.len() as int, a.len() as int) + b.subrange(a.len() as int, b.len() as int)
        + out@.subrange(b.len() as int, out@.len() as int)));
}

/// Emits a value as block YAML at `indent`.
#[verifier::rlimit(60)]
pub fn emit_block_kind(out: &mut Vec<char>, kind: &Json5Kind, indent: usize)
    ensures
        final(out)@ == old(out)@ + spec_block_kind(*kind, indent),
    decreases kind, 0nat,
{
    let ghost o = out@;
    match kind {
        Json5Kind::Object { members, tail } => {
            if members.len() > 0 {
                let mut i: usize = 0;
                assert(members@.subrange(0, 0) == Seq::<Json5Member>::empty());
                while i < members.len()
                    invariant
                        i <= members@.len(),
                        out@ == o + spec_block_members(members@.subrange(0, i as int), indent),
                    decreases members@.len() - i,
                {
                    proof {
                        assert(members@.subrange(0, i + 1).subrange(0, i as int) == members@.subrange(0, i as int));
                        assert(decreases_to!(kind => members@[i as int]));
                    }
                    emit_block_member(out, &members[i], indent);
                    i = i + 1;
                }
                assert(members@.subrange(0, members@.len() as int) == members@);
                emit_comments(out, tail, indent);
            } else {
                emit_comments(out, tail, indent);
                push_yaml_indent(out, indent);
                out.push('{');
                out.push('}');
                out.push('\n');
            }
        },
        Json5Kind::Array { items, tail } => {
            if items.len() > 0 {
                let mut i: usize = 0;
                assert(items@.subrange(0, 0) == Seq::<Json5Node>::empty());
                while i < items.len()
                    invariant
                        i <= items@.len(),
                        out@ == o + spec_block_items(items@.subrange(0, i as int), indent),
                    decreases items@.len() - i,
                {
                    proof {
                        assert(items@.subrange(0, i + 1).subrange(0, i as int) == items@.subrange(0, i as int));
                        assert(decreases_to!(kind => items@[i as int]));
                    }
                    emit_block_item(out, &items[i], indent);
                    i = i + 1;
                }
                assert(items@.subrange(0, items@.len() as int) == items@);
                emit_comments(out, tail, indent);
            } else {
                emit_comments(out, tail, indent);
                push_yaml_indent(out, indent);
                out.push('[');
                out.push(']');
                out.push('\n');
            }
        },
        _ => {
            push_yaml_indent(out, indent);
            emit_flow_kind(out, kind);
            out.push('\n');
        },
    }
}

/// Emits one member of a block mapping.
pub fn emit_block_member(out: &mut Vec<char>, m: &Json5Member, indent: usize)
    ensures
        final(out)@ == old(out)@ + spec_block_member(*m, indent),
    decreases m, 0nat,
{
    let ghost o = out@;
    emit_comments(out, &m.leading, indent);
    let ghost a = out@;
    match &m.value.kind {
        Json5Kind::Object { members, tail } if members.len() == 0 => {
            emit_member_empty(out, m, indent, true, tail);
        },
        Json5Kind::Array { items, tail } if items.len() == 0 => {
            emit_member_empty(out, m, indent, false, tail);
        },
        _ => {
            proof {
                assert(decreases_to!(m => m.value));
            }
            emit_member_value(out, m.key.as_slice(), &m.value, indent);
        },
    }
    assert(out@ == o + (a.subrange(o.len() as int, a.len() as int) + out@.subrange(a.len() as int, out@.len() as int)));
}

#[verifier::rlimit(50)]
fn emit_member_empty(out: &mut Vec<char>, m: &Json5Member, indent: usize, object: bool, tail: &Vec<Vec<char>>)
    ensures
        final(out)@ == old(out)@ + spec_member_empty(
            *m,
            indent,
            if object {
                seq!['{', '}']
            } else {
                seq!['[', ']']
            },
            tail@,
        ),
{
    let ghost o = out@;
    let ghost syntax = if object {
        seq!['{', '}']
    } else {
        seq!['[', ']']
    };
    emit_comments(out, &m.value.leading, indent);
    emit_comments(out, tail, indent);
    push_yaml_indent(out, indent);
    emit_json5_mapping_key(out, m.key.as_slice());
    let ghost head = out@;
    out.push(':');
    out.push(' ');
    if object {
        out.push('{');
        out.push('}');
    } else {
        out.push('[');
        out.push(']');
    }
    out.push('\n');
    assert(out@ =~= head + seq![':', ' '] + syntax + seq!['\n']);
    let ghost mid = out@;
    emit_comments(out, &m.value.trailing, indent);
    assert(out@ =~= mid + spec_comments(m.value.trailing@, indent as nat));
}

fn emit_member_value(out: &mut Vec<char>, key: &[char], value: &Json5Node, indent: usize)
    ensures
        final(out)@ == old(out)@ + spec_member_value(key@, *value, indent),
    decreases value, 1nat,
{
    push_yaml_indent(out, indent);
    emit_json5_mapping_key(out, key);
    if value.leading.len() == 0 && kind_is_inline(&value.kind) {
        out.push(':');
        out.push(' ');
        emit_flow_kind(out, &value.kind);
        out.push('\n');
        emit_comments(out, &value.trailing, indent);
    } else {
        out.push(':');
        out.push('\n');
        emit_block_node(out, value, deeper(indent));
    }
}

/// Emits one item of a block sequence.
#[verifier::rlimit(60)]
pub fn emit_block_item(out: &mut Vec<char>, item: &Json5Node, indent: usize)
    ensures
        final(out)@ == old(out)@ + spec_block_item(*item, indent),
    decreases item, 0nat,
{
    let ghost o = out@;
    emit_comments(out, &item.leading, indent);
    let empty: Option<(bool, &Vec<Vec<char>>)> = match &item.kind {
        Json5Kind::Object { members, tail } => if members.len() == 0 {
            Some((true, tail))
        } else {
            None
        },
        Json5Kind::Array { items, tail } => if items.len() == 0 {
            Some((false, tail))
        } else {
            None
        },
        _ => None,
    };
    match empty {
        Some((object, tail)) => {
            emit_comments(out, tail, indent);
            push_yaml_indent(out, indent);
            out.push('-');
            out.push(' ');
            if object {
                out.push('{');
                out.push('}');
            } else {
                out.push('[');
                out.push(']');
            }
            out.push('\n');
            emit_comments(out, &item.trailing, indent);
        },
        None => {
            push_yaml_indent(out, indent);
            if kind_is_inline(&item.kind) {
                out.push('-');
                out.push(' ');
                emit_flow_kind(out, &item.kind);
                out.push('\n');
            } else {
                out.push('-');
                out.push('\n');
                proof {
                    assert(decreases_to!(item => item.kind));
                }
                emit_block_kind(out, &item.kind, deeper(indent));
            }
            emit_comments(out, &item.trailing, indent);
        },
    }
}

/// A block-comment line as kept: spaces and tabs trimmed, one leading `*`
/// removed, trimmed again.
pub open spec fn spec_block_comment_line(text: Seq<char>) -> Seq<char> {
    if spec_trim_blanks(text).len() > 0 && spec_trim_blanks(text)[0] == '*' {
        spec_trim_blanks(spec_trim_blanks(text).drop_first())
    } else {
        spec_trim_blanks(spec_trim_blanks(text))
    }
}

/// Where a line comment whose text starts at `i` ends: at the first line
/// break, or at the end.
pub open spec fn spec_line_comment_end(s: Seq<char>, i: int) -> int
    decreases s.len() - i,
{
    if i < 0 || i >= s.len() || s[i] == '\n' || s[i] == '\r' || s[i] == '\u{2028}' || s[i] == '\u{2029}' {
        i
    } else {
        spec_line_comment_end(s, i + 1)
    }
}

/// Where a block comment whose text starts at `i` ends: at the first `*/`,
/// or at the end.
pub open spec fn spec_block_comment_end(s: Seq<char>, i: int) -> int
    decreases s.len() - i,
{
    if i < 0 || i >= s.len() || (s[i] == '*' && i + 1 < s.len() && s[i + 1] == '/') {
        i
    } else {
        spec_block_comment_end(s, i + 1)
    }
}

proof fn lemma_comment_ends(s: Seq<char>, i: int)
    requires
        0 <= i <= s.len(),
    ensures
        i <= spec_line_comment_end(s, i) <= s.len(),
        i <= spec_block_comment_end(s, i) <= s.len(),
        spec_block_comment_end(s, i) < s.len() ==> spec_block_comment_end(s, i) + 2 <= s.len(),
    decreases s.len() - i,
{
    if i < s.len() {
        lemma_comment_ends(s, i + 1);
    }
}

/// The comments of a run of whitespace and comments from `i`: each line
/// comment trimmed, each line of a block comment as kept.
pub open spec fn spec_wsc_comments(s: Seq<char>, i: int) -> Seq<Seq<char>>
    decreases s.len() - i,
{
    if i < 0 || i >= s.len() {
        seq![]
    } else if s[i] == '/' && i + 1 < s.len() && s[i + 1] == '/' {
        let end = spec_line_comment_end(s, i + 2);
        if end < i + 2 || end > s.len() {
            seq![]
        } else {
            seq![crate::text::spec_trim(s.subrange(i + 2, end))] + spec_wsc_comments(s, end)
        }
    } else if s[i] == '/' && i + 1 < s.len() && s[i + 1] == '*' {
        let end = spec_block_comment_end(s, i + 2);
        let next = if end < s.len() {
            end + 2
        } else {
            end
        };
        if end < i + 2 || next > s.len() {
            seq![]
        } else {
            spec_comment_lines(s.subrange(i + 2, end)).map_values(|l: Seq<char>| spec_block_comment_line(l))
                + spec_wsc_comments(s, next)
        }
    } else {
        spec_wsc_comments(s, i + 1)
    }
}

/// The comments of a run of whitespace and comments.
pub fn comments_from_wsc(wsc: &[char]) -> (r: Vec<Vec<char>>)
    ensures
        r@.map_values(|v: Vec<char>| v@) == spec_wsc_comments(wsc@, 0),
{
    let n = wsc.len();
    let mut comments: Vec<Vec<char>> = Vec::new();
    let mut offset: usize = 0;
    while offset < n
        invariant
            n == wsc@.len(),
            offset <= n,
            comments@.map_values(|v: Vec<char>| v@) + spec_wsc_comments(wsc@, offset as int) == spec_wsc_comments(wsc@, 0),
        decreases n - offset,
    {
        let ghost before = comments@.map_values(|v: Vec<char>| v@);
        proof {
            lemma_comment_ends(wsc@, offset as int);
            if offset + 2 <= n {
                lemma_comment_ends(wsc@, offset + 2);
            }
        }
        if wsc[offset] == '/' && offset + 1 < n && wsc[offset + 1] == '/' {
            let mut end = offset + 2;
            while end < n && wsc[end] != '\n' && wsc[end] != '\r' && wsc[end] != '\u{2028}' && wsc[end] != '\u{2029}'
                invariant
                    offset + 2 <= end <= n == wsc@.len(),
                    spec_line_comment_end(wsc@, end as int) == spec_line_comment_end(wsc@, offset + 2),
                decreases n - end,
            {
                end = end + 1;
            }
            let body = sub_chars(wsc, offset + 2, end);
            let t = crate::text::trim(body.as_slice());
            comments.push(t);
            proof {
                assert(comments@.map_values(|v: Vec<char>| v@) == before.push(t@));
                assert(before.push(t@) + spec_wsc_comments(wsc@, end as int) == before + (seq![t@] + spec_wsc_comments(
                    wsc@,
                    end as int,
                )));
            }
            offset = end;
        } else if wsc[offset] == '/' && offset + 1 < n && wsc[offset + 1] == '*' {
            let mut end = offset + 2;
            while end < n && !(wsc[end] == '*' && end + 1 < n && wsc[end + 1] == '/')
                invariant
                    offset + 2 <= end <= n == wsc@.len(),
                    spec_block_comment_end(wsc@, end as int) == spec_block_comment_end(wsc@, offset + 2),
                decreases n - end,
            {
                end = end + 1;
            }
            let body = sub_chars(wsc, offset + 2, end);
            let lines = comment_lines(body.as_slice());
            let ghost lv = lines@.map_values(|v: Vec<char>| v@);
            let ghost kept = lv.map_values(|l: Seq<char>| spec_block_comment_line(l));
            let mut k: usize = 0;
            while k < lines.len()
                invariant
                    k <= lines@.len(),
                    lv == lines@.map_values(|v: Vec<char>| v@),
                    kept == lv.map_values(|l: Seq<char>| spec_block_comment_line(l)),
                    comments@.map_values(|v: Vec<char>| v@) == before + kept.subrange(0, k as int),
                decreases lines@.len() - k,
            {
                let line = trim_comment_line(lines[k].as_slice());
                let ghost prev = comments@.map_values(|v: Vec<char>| v@);
                comments.push(line);
                proof {
                    assert(comments@.map_values(|v: Vec<char>| v@) == prev.push(line@));
                    assert(kept.subrange(0, k + 1) == kept.subrange(0, k as int).push(kept[k as int]));
                    assert(lv[k as int] == lines@[k as int]@);
                }
                k = k + 1;
            }
            assert(kept.subrange(0, kept.len() as int) == kept);
            let next = if end < n {
                end + 2
            } else {
                end
            };
            proof {
                assert(comments@.map_values(|v: Vec<char>| v@) + spec_wsc_comments(wsc@, next as int) == before + (kept
                    + spec_wsc_comments(wsc@, next as int)));
            }
            offset = next;
        } else {
            offset = offset + 1;
        }
    }
    assert(comments@.map_values(|v: Vec<char>| v@) + Seq::<Seq<char>>::empty() == comments@.map_values(|v: Vec<char>| v@));
    comments
}

/// The kinds of JSON5 tokens.
#[derive(Debug, Clone, Copy, PartialEq, Eq, Structural)]
pub enum Json5TokenKind {
    LeftBrace,
    RightBrace,
    LeftBracket,
    RightBracket,
    Comma,
    Colon,
    Name,
    SingleQuotedString,
    DoubleQuotedString,
    BlockComment,
    LineComment,
    Whitespace,
    True,
    False,
    Null,
    Integer,
    Float,
    Infinity,
    Nan,
    Exponent,
    Hexadecimal,
    Plus,
    Minus,
    Eof,
}

/// A token of the normalized text: where it starts, its kind, where it ends.
#[derive(Debug, Clone, Copy, PartialEq, Eq, Structural)]
pub struct Json5Token {
    pub start: usize,
    pub kind: Json5TokenKind,
    pub end: usize,
}

/// Whitespace and comments.
pub open spec fn spec_is_trivia(kind: Json5TokenKind) -> bool {
    kind == Json5TokenKind::Whitespace || kind == Json5TokenKind::LineComment || kind == Json5TokenKind::BlockComment
}

pub fn is_trivia(kind: Json5TokenKind) -> (r: bool)
    ensures
        r == spec_is_trivia(kind),
{
    kind == Json5TokenKind::Whitespace || kind == Json5TokenKind::LineComment || kind == Json5TokenKind::BlockComment
}

/// The deepest nesting JSON5 input may have.
pub const MAX_JSON5_NESTING: usize = 256;

/// The checks of the token run from `i`: the nesting stays within the
/// limit and no unary operator follows another; the result is whether a
/// comment occurs, or the start of the offending token and the message.
pub open spec fn spec_token_checks(
    toks: Seq<Json5Token>,
    i: int,
    nesting: int,
    previous_unary: bool,
    has_comments: bool,
) -> Result<bool, (int, Seq<char>)>
    decreases toks.len() - i,
{
    if i < 0 || i >= toks.len() {
        Ok(has_comments)
    } else {
        let t = toks[i];
        let opens = t.kind == Json5TokenKind::LeftBrace || t.kind == Json5TokenKind::LeftBracket;
        let closes = t.kind == Json5TokenKind::RightBrace || t.kind == Json5TokenKind::RightBracket;
        let nesting2 = if opens {
            nesting + 1
        } else if closes {
            if nesting > 0 {
                nesting - 1
            } else {
                0
            }
        } else {
            nesting
        };
        let comments2 = has_comments || t.kind == Json5TokenKind::LineComment || t.kind == Json5TokenKind::BlockComment;
        let unary = t.kind == Json5TokenKind::Plus || t.kind == Json5TokenKind::Minus;
        if opens && nesting2 > MAX_JSON5_NESTING {
            Err((t.start as int, "nesting exceeds 256 levels"@))
        } else if !spec_is_trivia(t.kind) && unary && previous_unary {
            Err((t.start as int, "Only one unary operator is allowed"@))
        } else {
            spec_token_checks(
                toks,
                i + 1,
                nesting2,
                if spec_is_trivia(t.kind) {
                    previous_unary
                } else {
                    unary
                },
                comments2,
            )
        }
    }
}

/// Whether the first token after `i` that is not whitespace or a comment
/// is a colon.
pub open spec fn spec_colon_follows(toks: Seq<Json5Token>, i: int) -> bool
    decreases toks.len() - i,
{
    if i + 1 < 0 || i + 1 >= toks.len() {
        false
    } else if spec_is_trivia(toks[i + 1].kind) {
        spec_colon_follows(toks, i + 1)
    } else {
        toks[i + 1].kind == Json5TokenKind::Colon
    }
}

/// A word that names a value.
pub open spec fn spec_reserved_word(kind: Json5TokenKind) -> bool {
    kind == Json5TokenKind::True || kind == Json5TokenKind::False || kind == Json5TokenKind::Null || kind
        == Json5TokenKind::Infinity || kind == Json5TokenKind::Nan
}

/// A token as the parser gets it: a block comment followed by `/` takes
/// the `/` in, and a reserved word before a colon is a name.
pub open spec fn spec_fixed_token(toks: Seq<Json5Token>, i: int, source: Seq<char>) -> Json5Token {
    let t = toks[i];
    Json5Token {
        start: t.start,
        kind: if spec_reserved_word(t.kind) && spec_colon_follows(toks, i) {
            Json5TokenKind::Name
        } else {
            t.kind
        },
        end: if t.kind == Json5TokenKind::BlockComment && t.end < source.len() && source[t.end as int] == '/' {
            (t.end + 1) as usize
        } else {
            t.end
        },
    }
}

/// Checks the tokens of the normalized text and fixes them for the parser;
/// returns whether a comment occurs, or the start of the offending token
/// and what is wrong.
pub fn check_tokens(tokens: &mut Vec<Json5Token>, source: &[char]) -> (r: Result<bool, (usize, &'static str)>)
    ensures
        match spec_token_checks(old(tokens)@, 0, 0, false, false) {
            Ok(c) => r == Ok::<bool, (usize, &'static str)>(c) && final(tokens)@.len() == old(tokens)@.len()
                && forall|k: int| 0 <= k < old(tokens)@.len() ==> #[trigger] final(tokens)@[k] == spec_fixed_token(old(tokens)@, k, source@),
            Err((at, m)) => r matches Err((x, msg)) && x == at && msg@ == m,
        },
{
    let ghost toks = tokens@;
    let n = tokens.len();
    let mut nesting: usize = 0;
    let mut previous_unary = false;
    let mut has_comments = false;
    let mut i: usize = 0;
    while i < n
        invariant
            n == tokens@.len() == toks.len(),
            i <= n,
            nesting <= MAX_JSON5_NESTING,
            spec_token_checks(toks, i as int, nesting as int, previous_unary, has_comments) == spec_token_checks(toks, 0, 0, false, false),
        decreases n - i,
    {
        let t = tokens[i];
        let opens = t.kind == Json5TokenKind::LeftBrace || t.kind == Json5TokenKind::LeftBracket;
        let closes = t.kind == Json5TokenKind::RightBrace || t.kind == Json5TokenKind::RightBracket;
        if opens {
            if nesting == MAX_JSON5_NESTING {
                return Err((t.start, "nesting exceeds 256 levels"));
            }
            nesting = nesting + 1;
        } else if closes {
            nesting = if nesting > 0 {
                nesting - 1
            } else {
                0
            };
        }
        if t.kind == Json5TokenKind::LineComment || t.kind == Json5TokenKind::BlockComment {
            has_comments = true;
        }
        if !is_trivia(t.kind) {
            let unary = t.kind == Json5TokenKind::Plus || t.kind == Json5TokenKind::Minus;
            if unary && previous_unary {
                return Err((t.start, "Only one unary operator is allowed"));
            }
            previous_unary = unary;
        }
        i = i + 1;
    }
    let mut k: usize = 0;
    while k < n
        invariant
            n == tokens@.len() == toks.len(),
            k <= n,
            forall|j: int| 0 <= j < k ==> #[trigger] tokens@[j] == spec_fixed_token(toks, j, source@),
            forall|j: int| k <= j < n ==> #[trigger] tokens@[j] == toks[j],
        decreases n - k,
    {
        let t = tokens[k];
        let end = if t.kind == Json5TokenKind::BlockComment && t.end < source.len() && source[t.end] == '/' {
            t.end + 1
        } else {
            t.end
        };
        let mut kind = t.kind;
        if t.kind == Json5TokenKind::True || t.kind == Json5TokenKind::False || t.kind == Json5TokenKind::Null
            || t.kind == Json5TokenKind::Infinity || t.kind == Json5TokenKind::Nan {
            let mut j = k + 1;
            while j < n && is_trivia(tokens[j].kind)
                invariant
                    k < j <= n == tokens@.len() == toks.len(),
                    forall|x: int| k < x < n ==> #[trigger] tokens@[x] == toks[x],
                    spec_colon_follows(toks, j - 1) == spec_colon_follows(toks, k as int),
                decreases n - j,
            {
                j = j + 1;
            }
            if j < n && tokens[j].kind == Json5TokenKind::Colon {
                kind = Json5TokenKind::Name;
            }
        }
        let ghost before = tokens@;
        tokens.set(k, Json5Token { start: t.start, kind, end });
        proof {
            assert(forall|j: int| 0 <= j < n && j != k ==> tokens@[j] == before[j]);
        }
        k = k + 1;
    }
    Ok(has_comments)
}

/// A parsed JSON5 value as the parser gives it: raw spellings of numbers,
/// strings and identifiers, and the whitespace-and-comment runs around the
/// parts of collections.
#[derive(Debug)]
pub enum Json5Ast {
    Object { pairs: Vec<Json5Pair>, context: Option<Vec<char>> },
    Array { values: Vec<Json5ArrayValue>, context: Option<Vec<char>> },
    Integer(Vec<char>),
    Float(Vec<char>),
    Exponent(Vec<char>),
    Null,
    Infinity,
    NaN,
    Hexadecimal(Vec<char>),
    Bool(bool),
    DoubleQuotedString(Vec<char>),
    SingleQuotedString(Vec<char>),
    Unary { minus: bool, value: Box<Json5Ast> },
    Identifier(Vec<char>),
}

/// An object member as parsed: key, value, and the runs before and after
/// the colon, after the value, and after the comma.
#[derive(Debug)]
pub struct Json5Pair {
    pub key: Json5Ast,
    pub value: Json5Ast,
    pub context: Option<(Vec<char>, Vec<char>, Vec<char>, Option<Vec<char>>)>,
}

/// An array item as parsed: value, and the runs after it and after its comma.
#[derive(Debug)]
pub struct Json5ArrayValue {
    pub value: Json5Ast,
    pub context: Option<(Vec<char>, Option<Vec<char>>)>,
}

/// A parsed JSON5 document: its value and the runs before and after it.
#[derive(Debug)]
pub struct Json5Text {
    pub value: Json5Ast,
    pub context: Option<(Vec<char>, Vec<char>)>,
}

/// A hexadecimal spelling: `0x` or `0X` and at least one digit.
pub open spec fn spec_hex_spelling(raw: Seq<char>) -> bool {
    &&& raw.len() > 2
    &&& raw[0] == '0'
    &&& (raw[1] == 'x' || raw[1] == 'X')
    &&& forall|k: int| 2 <= k < raw.len() ==> spec_hex_digit(#[trigger] raw[k])
}

/// The parser's values have well-formed hexadecimal spellings.
pub open spec fn spec_ast_wf(ast: Json5Ast) -> bool
    decreases ast,
{
    match ast {
        Json5Ast::Hexadecimal(raw) => spec_hex_spelling(raw@),
        Json5Ast::Unary { value, .. } => spec_ast_wf(*value),
        Json5Ast::Array { values, .. } => forall|k: int| 0 <= k < values@.len() ==> spec_ast_wf(#[trigger] values@[k].value),
        Json5Ast::Object { pairs, .. } => forall|k: int| 0 <= k < pairs@.len() ==> spec_ast_wf(#[trigger] pairs@[k].value),
        _ => true,
    }
}

/// The YAML spelling of a number value, or none for a value that is no
/// number.
pub open spec fn spec_number_of(ast: Json5Ast) -> Option<Seq<char>>
    decreases ast,
{
    match ast {
        Json5Ast::Integer(raw) => Some(spec_normalize_decimal(raw@)),
        Json5Ast::Float(raw) => Some(spec_normalize_decimal(raw@)),
        Json5Ast::Exponent(raw) => Some(spec_normalize_decimal(raw@)),
        Json5Ast::Hexadecimal(raw) => Some(spec_normalize_hexadecimal(raw@)),
        Json5Ast::Infinity => Some(".inf"@),
        Json5Ast::NaN => Some(".nan"@),
        Json5Ast::Unary { minus, value } => match spec_number_of(*value) {
            None => None,
            Some(n) => if minus && n != ".nan"@ {
                if *value is Hexadecimal {
                    Some(seq!['-'] + spec_decimal(spec_hex_number(n.subrange(2, n.len() as int))))
                } else {
                    Some(seq!['-'] + n)
                }
            } else {
                Some(n)
            },
        },
        _ => None,
    }
}

/// Whether converting `ast` succeeds: every string, identifier and key
/// decodes, and every unary operator applies to a number.
pub open spec fn spec_convertible(ast: Json5Ast) -> bool
    decreases ast,
{
    match ast {
        Json5Ast::Object { pairs, .. } => forall|k: int|
            0 <= k < pairs@.len() ==> spec_key_of(#[trigger] pairs@[k].key) is Some
                && spec_convertible(pairs@[k].value),
        Json5Ast::Array { values, .. } => forall|k: int|
            0 <= k < values@.len() ==> spec_convertible(#[trigger] values@[k].value),
        Json5Ast::DoubleQuotedString(raw) => spec_decode_string_from(raw@, 0) is Ok,
        Json5Ast::SingleQuotedString(raw) => spec_decode_string_from(raw@, 0) is Ok,
        Json5Ast::Identifier(raw) => spec_decode_identifier_from(raw@, 0, true) is Ok,
        Json5Ast::Unary { value, .. } => spec_number_of(*value) is Some,
        _ => true,
    }
}

/// A value with a number spelling converts, and only to a number.
pub proof fn lemma_number_converts(ast: Json5Ast, kind: Json5Kind)
    requires
        spec_number_of(ast) is Some,
    ensures
        spec_convertible(ast),
        spec_converts(ast, kind) ==> kind is Number,
{
}

/// The views of a vector of comments.
pub open spec fn cviews(v: Seq<Vec<char>>) -> Seq<Seq<char>> {
    v.map_values(|x: Vec<char>| x@)
}

/// The comments of an optional run.
pub open spec fn spec_run_comments(w: Option<Vec<char>>) -> Seq<Seq<char>> {
    match w {
        Some(run) => spec_wsc_comments(run@, 0),
        None => seq![],
    }
}

/// The comments that go before item `k` of an array (after its last item
/// for `k` equal to the length): those after the opening bracket, or after
/// the previous item's comma.
pub open spec fn spec_array_pending(values: Seq<Json5ArrayValue>, context: Option<Vec<char>>, k: int) -> Seq<Seq<char>> {
    if k == 0 {
        spec_run_comments(context)
    } else {
        match values[k - 1].context {
            Some((_, w1)) => spec_run_comments(w1),
            None => seq![],
        }
    }
}

/// The comments that go before member `k` of an object.
pub open spec fn spec_object_pending(pairs: Seq<Json5Pair>, context: Option<Vec<char>>, k: int) -> Seq<Seq<char>> {
    if k == 0 {
        spec_run_comments(context)
    } else {
        match pairs[k - 1].context {
            Some((_, _, _, w3)) => spec_run_comments(w3),
            None => seq![],
        }
    }
}

/// The decoded key of a member: an identifier or a string.
pub open spec fn spec_key_of(ast: Json5Ast) -> Option<Seq<char>> {
    match ast {
        Json5Ast::Identifier(raw) => match spec_decode_identifier_from(raw@, 0, true) {
            Ok(v) => Some(v),
            Err(_) => None,
        },
        Json5Ast::DoubleQuotedString(raw) => match spec_decode_string_from(raw@, 0) {
            Ok(v) => Some(v),
            Err(_) => None,
        },
        Json5Ast::SingleQuotedString(raw) => match spec_decode_string_from(raw@, 0) {
            Ok(v) => Some(v),
            Err(_) => None,
        },
        _ => None,
    }
}

/// Whether `kind` is what converting `ast` gives: numbers in YAML
/// spelling, strings and identifiers decoded, and collections with the
/// comments of their runs placed before, after and inside their parts.
pub open spec fn spec_converts(ast: Json5Ast, kind: Json5Kind) -> bool
    decreases ast,
{
    match ast {
        Json5Ast::Object { pairs, context } => match kind {
            Json5Kind::Object { members, tail } => {
                &&& members@.len() == pairs@.len()
                &&& cviews(tail@) == spec_object_pending(pairs@, context, pairs@.len() as int)
                &&& forall|k: int|
                    0 <= k < pairs@.len() ==> {
                        let m = #[trigger] members@[k];
                        &&& spec_key_of(pairs@[k].key) == Some(m.key@)
                        &&& cviews(m.leading@) == spec_object_pending(pairs@, context, k) + match pairs@[k].context {
                            Some((w0, w1, _, _)) => spec_wsc_comments(w0@, 0) + spec_wsc_comments(w1@, 0),
                            None => seq![],
                        }
                        &&& m.value.leading@.len() == 0
                        &&& cviews(m.value.trailing@) == match pairs@[k].context {
                            Some((_, _, w2, _)) => spec_wsc_comments(w2@, 0),
                            None => seq![],
                        }
                        &&& spec_converts(pairs@[k].value, m.value.kind)
                    }
            },
            _ => false,
        },
        Json5Ast::Array { values, context } => match kind {
            Json5Kind::Array { items, tail } => {
                &&& items@.len() == values@.len()
                &&& cviews(tail@) == spec_array_pending(values@, context, values@.len() as int)
                &&& forall|k: int|
                    0 <= k < values@.len() ==> {
                        let item = #[trigger] items@[k];
                        &&& cviews(item.leading@) == spec_array_pending(values@, context, k)
                        &&& cviews(item.trailing@) == match values@[k].context {
                            Some((w0, _)) => spec_wsc_comments(w0@, 0),
                            None => seq![],
                        }
                        &&& spec_converts(values@[k].value, item.kind)
                    }
            },
            _ => false,
        },
        Json5Ast::Null => kind is Null,
        Json5Ast::Bool(b) => kind matches Json5Kind::Bool(x) && x == b,
        Json5Ast::DoubleQuotedString(raw) => kind matches Json5Kind::String(v) && spec_decode_string_from(raw@, 0) == Ok::<
            Seq<char>,
            (int, Seq<char>),
        >(v@),
        Json5Ast::SingleQuotedString(raw) => kind matches Json5Kind::String(v) && spec_decode_string_from(raw@, 0) == Ok::<
            Seq<char>,
            (int, Seq<char>),
        >(v@),
        Json5Ast::Identifier(raw) => kind matches Json5Kind::String(v) && spec_decode_identifier_from(raw@, 0, true)
            == Ok::<Seq<char>, (int, Seq<char>)>(v@),
        _ => spec_number_of(ast) matches Some(n) && kind matches Json5Kind::Number(v) && v@ == n,
    }
}

/// The first token at or after `i` that is not whitespace or a comment,
/// and the position just after it; none, with the position at the end (or
/// at `i` when it is past the end), when only trivia is left.
pub open spec fn spec_cursor_next(tokens: Seq<Json5Token>, i: int) -> (Option<Json5Token>, int)
    decreases tokens.len() - i,
{
    if i < 0 || i >= tokens.len() {
        (None, i)
    } else if !spec_is_trivia(tokens[i].kind) {
        (Some(tokens[i]), i + 1)
    } else {
        spec_cursor_next(tokens, i + 1)
    }
}

/// The next token that is not whitespace or a comment, and the cursor
/// moved past it.
fn cursor_next(tokens: &[Json5Token], index: &mut usize) -> (r: Option<Json5Token>)
    ensures
        r == spec_cursor_next(tokens@, *old(index) as int).0,
        *final(index) == spec_cursor_next(tokens@, *old(index) as int).1,
        *old(index) <= *final(index),
{
    let ghost start = *index as int;
    while *index < tokens.len()
        invariant
            *old(index) <= *index,
            start == *old(index),
            spec_cursor_next(tokens@, *index as int) == spec_cursor_next(tokens@, start),
        decreases tokens@.len() - *index,
    {
        let t = tokens[*index];
        *index = *index + 1;
        if !is_trivia(t.kind) {
            return Some(t);
        }
    }
    None
}

/// Moves the cursor past the next significant token when it is of `kind`;
/// otherwise leaves it where it is.
fn consume_if(tokens: &[Json5Token], index: &mut usize, kind: Json5TokenKind)
    ensures
        *final(index) == match spec_cursor_next(tokens@, *old(index) as int).0 {
            Some(t) => if t.kind == kind {
                spec_cursor_next(tokens@, *old(index) as int).1
            } else {
                *old(index) as int
            },
            None => *old(index) as int,
        },
{
    let mut probe = *index;
    if let Some(t) = cursor_next(tokens, &mut probe) {
        if t.kind == kind {
            *index = probe;
        }
    }
}

/// The comments of an optional run, computed.
fn run_comments(w: &Option<Vec<char>>) -> (r: Vec<Vec<char>>)
    ensures
        cviews(r@) == spec_run_comments(*w),
{
    match w {
        Some(run) => comments_from_wsc(run.as_slice()),
        None => {
            let r: Vec<Vec<char>> = Vec::new();
            assert(cviews(r@) == Seq::<Seq<char>>::empty());
            r
        },
    }
}

/// `a` followed by `b`.
fn concat_comments(a: Vec<Vec<char>>, b: Vec<Vec<char>>) -> (r: Vec<Vec<char>>)
    ensures
        cviews(r@) == cviews(a@) + cviews(b@),
{
    let mut a = a;
    let mut b = b;
    let ghost av = a@;
    let ghost bv = b@;
    a.append(&mut b);
    assert(a@ == av + bv);
    assert(cviews(a@) == cviews(av) + cviews(bv));
    a
}

/// Whether a number spelling is `.nan`.
fn is_nan_spelling(v: &Vec<char>) -> (r: bool)
    ensures
        r == (v@ == ".nan"@),
{
    let nan = str_chars(".nan");
    crate::text::chars_eq(v.as_slice(), nan.as_slice())
}

/// Why converting a JSON5 value fails: a decoding or key error at an
/// offset of the normalized text, or a unary operator on a value that is
/// no number.
pub enum Json5ConvertError {
    At(int, Seq<char>),
    UnaryNotNumber,
}

/// Where the cursor is after moving past the next significant token when
/// it is of `kind`.
pub open spec fn spec_consume(t: Seq<Json5Token>, i: int, kind: Json5TokenKind) -> int {
    match spec_cursor_next(t, i).0 {
        Some(x) => if x.kind == kind {
            spec_cursor_next(t, i).1
        } else {
            i
        },
        None => i,
    }
}

/// The offset of a token, or 0 when there is none.
pub open spec fn spec_token_start(t: Option<Json5Token>) -> int {
    match t {
        Some(x) => x.start as int,
        None => 0,
    }
}

/// The offset just inside a string token's opening quote.
pub open spec fn spec_string_base(t: Option<Json5Token>) -> int {
    match t {
        Some(x) => if x.start < usize::MAX {
            x.start + 1
        } else {
            x.start as int
        },
        None => 0,
    }
}

/// Decoding a string body whose token starts at `base`.
pub open spec fn spec_string_step(raw: Seq<char>, base: int) -> Result<(), Json5ConvertError> {
    match spec_decode_string_from(raw, 0) {
        Ok(_) => Ok(()),
        Err((at, m)) => Err(Json5ConvertError::At(spec_sat_add(base, at), m)),
    }
}

/// Decoding an identifier whose token starts at `base`.
pub open spec fn spec_identifier_step(raw: Seq<char>, base: int) -> Result<(), Json5ConvertError> {
    match spec_decode_identifier_from(raw, 0, true) {
        Ok(_) => Ok(()),
        Err((at, m)) => Err(Json5ConvertError::At(spec_sat_add(base, at), m)),
    }
}

/// Converting an object key whose token starts at `start`.
pub open spec fn spec_key_step(key: Json5Ast, start: int) -> Result<(), Json5ConvertError> {
    match key {
        Json5Ast::Identifier(raw) => spec_identifier_step(raw@, start),
        Json5Ast::DoubleQuotedString(raw) => spec_string_step(raw@, if start < usize::MAX { start + 1 } else { start }),
        Json5Ast::SingleQuotedString(raw) => spec_string_step(raw@, if start < usize::MAX { start + 1 } else { start }),
        _ => Err(Json5ConvertError::At(start, "object key is not an IdentifierName or string"@)),
    }
}

/// Converting `ast` with the token cursor at `i`: whether it fails and
/// why, and where the cursor ends when it does not.
pub open spec fn spec_convert_walk(ast: Json5Ast, t: Seq<Json5Token>, i: int) -> (Result<(), Json5ConvertError>, int)
    decreases ast, 1nat, 0nat,
{
    match ast {
        Json5Ast::Object { .. } => {
            let r = spec_walk_members(ast, t, spec_consume(t, i, Json5TokenKind::LeftBrace), 0);
            match r.0 {
                Ok(_) => (Ok(()), spec_consume(t, r.1, Json5TokenKind::RightBrace)),
                Err(e) => (Err(e), r.1),
            }
        },
        Json5Ast::Array { .. } => {
            let r = spec_walk_items(ast, t, spec_consume(t, i, Json5TokenKind::LeftBracket), 0);
            match r.0 {
                Ok(_) => (Ok(()), spec_consume(t, r.1, Json5TokenKind::RightBracket)),
                Err(e) => (Err(e), r.1),
            }
        },
        Json5Ast::DoubleQuotedString(raw) => {
            let n = spec_cursor_next(t, i);
            (spec_string_step(raw@, spec_string_base(n.0)), n.1)
        },
        Json5Ast::SingleQuotedString(raw) => {
            let n = spec_cursor_next(t, i);
            (spec_string_step(raw@, spec_string_base(n.0)), n.1)
        },
        Json5Ast::Identifier(raw) => {
            let n = spec_cursor_next(t, i);
            (spec_identifier_step(raw@, spec_token_start(n.0)), n.1)
        },
        Json5Ast::Unary { minus, value } => {
            let n = spec_cursor_next(t, i);
            let r = spec_convert_walk(*value, t, n.1);
            match r.0 {
                Ok(_) => if spec_number_of(*value) is Some {
                    (Ok(()), r.1)
                } else {
                    (Err(Json5ConvertError::UnaryNotNumber), r.1)
                },
                Err(e) => (Err(e), r.1),
            }
        },
        _ => (Ok(()), spec_cursor_next(t, i).1),
    }
}

/// Converting the members of an object from member `k` on.
pub open spec fn spec_walk_members(ast: Json5Ast, t: Seq<Json5Token>, i: int, k: int) -> (Result<(), Json5ConvertError>, int)
    decreases ast, 0nat, (match ast {
        Json5Ast::Object { pairs, .. } => pairs@.len() - k,
        _ => 0,
    }),
{
    match ast {
        Json5Ast::Object { pairs, .. } => if 0 <= k < pairs@.len() {
            let pair = pairs@[k];
            let n = spec_cursor_next(t, i);
            match spec_key_step(pair.key, spec_token_start(n.0)) {
                Err(e) => (Err(e), n.1),
                Ok(_) => {
                    let j = spec_consume(t, n.1, Json5TokenKind::Colon);
                    proof {
                        assert(decreases_to!(ast => pairs@[k].value));
                    }
                    let r = spec_convert_walk(pair.value, t, j);
                    match r.0 {
                        Err(e) => (Err(e), r.1),
                        Ok(_) => {
                            let after = match pair.context {
                                Some((_, _, _, w3)) => match w3 {
                                    Some(_) => spec_consume(t, r.1, Json5TokenKind::Comma),
                                    None => r.1,
                                },
                                None => spec_consume(t, r.1, Json5TokenKind::Comma),
                            };
                            spec_walk_members(ast, t, after, k + 1)
                        },
                    }
                },
            }
        } else {
            (Ok(()), i)
        },
        _ => (Ok(()), i),
    }
}

/// Converting the items of an array from item `k` on.
pub open spec fn spec_walk_items(ast: Json5Ast, t: Seq<Json5Token>, i: int, k: int) -> (Result<(), Json5ConvertError>, int)
    decreases ast, 0nat, (match ast {
        Json5Ast::Array { values, .. } => values@.len() - k,
        _ => 0,
    }),
{
    match ast {
        Json5Ast::Array { values, .. } => if 0 <= k < values@.len() {
            let item = values@[k];
            proof {
                assert(decreases_to!(ast => values@[k].value));
            }
            let r = spec_convert_walk(item.value, t, i);
            match r.0 {
                Err(e) => (Err(e), r.1),
                Ok(_) => {
                    let after = match item.context {
                        Some((_, w1)) => match w1 {
                            Some(_) => spec_consume(t, r.1, Json5TokenKind::Comma),
                            None => r.1,
                        },
                        None => spec_consume(t, r.1, Json5TokenKind::Comma),
                    };
                    spec_walk_items(ast, t, after, k + 1)
                },
            }
        } else {
            (Ok(()), i)
        },
        _ => (Ok(()), i),
    }
}

/// `r` is the error that `e` describes, placed in the original input.
pub open spec fn spec_convert_error_is(e: Json5ConvertError, r: YamarkError, original: Seq<char>, reps: Seq<NormalizedReplacement>) -> bool {
    match e {
        Json5ConvertError::At(offset, message) => spec_invalid_json5_at(
            original,
            spec_original_offset(reps, offset, 0, 0),
            message,
            r,
        ),
        Json5ConvertError::UnaryNotNumber => r.diagnostic.message@ == "invalid JSON5: unary operator requires a number"@
            && r.diagnostic.line == 1 && r.diagnostic.column == 1,
    }
}

/// Converts a parsed value; the cursor follows the tokens so that errors
/// can be placed.
#[verifier::rlimit(80)]
#[verifier::spinoff_prover]
pub fn convert_value(
    ast: &Json5Ast,
    tokens: &[Json5Token],
    index: &mut usize,
    normalized: &NormalizedInput,
    original: &[char],
) -> (r: Result<Json5Node, YamarkError>)
    requires
        normalized.wf(),
        spec_ast_wf(*ast),
    ensures
        r matches Ok(node) ==> node.leading@.len() == 0 && node.trailing@.len() == 0 && spec_converts(*ast, node.kind),
        r is Ok <==> spec_convertible(*ast),
        ({
            let w = spec_convert_walk(*ast, tokens@, *old(index) as int);
            match w.0 {
                Ok(_) => r is Ok && *final(index) == w.1,
                Err(e) => r matches Err(err) && spec_convert_error_is(e, err, original@, normalized.replacements@),
            }
        }),
    decreases ast, 1nat,
{
    let kind = match ast {
        Json5Ast::Object { pairs, context } => {
            consume_if(tokens, index, Json5TokenKind::LeftBrace);
            match convert_object(ast, pairs, context, tokens, index, normalized, original) {
                Ok(k) => k,
                Err(e) => {
                    return Err(e);
                },
            }
        },
        Json5Ast::Array { values, context } => {
            consume_if(tokens, index, Json5TokenKind::LeftBracket);
            match convert_array(ast, values, context, tokens, index, normalized, original) {
                Ok(k) => k,
                Err(e) => {
                    return Err(e);
                },
            }
        },
        Json5Ast::Integer(raw) | Json5Ast::Float(raw) | Json5Ast::Exponent(raw) => {
            let _ = cursor_next(tokens, index);
            Json5Kind::Number(normalize_decimal(raw.as_slice()))
        },
        Json5Ast::Hexadecimal(raw) => {
            let _ = cursor_next(tokens, index);
            Json5Kind::Number(normalize_hexadecimal(raw.as_slice()))
        },
        Json5Ast::Null => {
            let _ = cursor_next(tokens, index);
            Json5Kind::Null
        },
        Json5Ast::Infinity => {
            let _ = cursor_next(tokens, index);
            Json5Kind::Number(str_chars(".inf"))
        },
        Json5Ast::NaN => {
            let _ = cursor_next(tokens, index);
            Json5Kind::Number(str_chars(".nan"))
        },
        Json5Ast::Bool(b) => {
            let _ = cursor_next(tokens, index);
            Json5Kind::Bool(*b)
        },
        Json5Ast::DoubleQuotedString(raw) | Json5Ast::SingleQuotedString(raw) => {
            let start = match cursor_next(tokens, index) {
                Some(t) => if t.start < usize::MAX {
                    t.start + 1
                } else {
                    t.start
                },
                None => 0,
            };
            match decode_string(raw.as_slice(), start, normalized, original) {
                Ok(v) => Json5Kind::String(v),
                Err(e) => {
                    return Err(e);
                },
            }
        },
        Json5Ast::Identifier(raw) => {
            let start = match cursor_next(tokens, index) {
                Some(t) => t.start,
                None => 0,
            };
            match decode_identifier(raw.as_slice(), start, normalized, original) {
                Ok(v) => Json5Kind::String(v),
                Err(e) => {
                    return Err(e);
                },
            }
        },
        Json5Ast::Unary { minus, value } => match convert_unary(ast, *minus, value, tokens, index, normalized, original) {
            Ok(k) => k,
            Err(e) => {
                return Err(e);
            },
        },
    };
    let leading: Vec<Vec<char>> = Vec::new();
    let trailing: Vec<Vec<char>> = Vec::new();
    Ok(Json5Node { leading, kind, trailing })
}

/// Converts a unary operator applied to a number.
#[verifier::rlimit(80)]
#[verifier::spinoff_prover]
fn convert_unary(
    ast: &Json5Ast,
    minus: bool,
    value: &Box<Json5Ast>,
    tokens: &[Json5Token],
    index: &mut usize,
    normalized: &NormalizedInput,
    original: &[char],
) -> (r: Result<Json5Kind, YamarkError>)
    requires
        normalized.wf(),
        spec_ast_wf(*ast),
        *ast == (Json5Ast::Unary { minus, value: *value }),
    ensures
        r matches Ok(kind) ==> spec_converts(*ast, kind),
        r is Ok <==> spec_convertible(*ast),
        ({
            let w = spec_convert_walk(*ast, tokens@, *old(index) as int);
            match w.0 {
                Ok(_) => r is Ok && *final(index) == w.1,
                Err(e) => r matches Err(err) && spec_convert_error_is(e, err, original@, normalized.replacements@),
            }
        }),
    decreases ast, 0nat,
{
    let _ = cursor_next(tokens, index);
    proof {
        assert(decreases_to!(ast => **value));
        assert(spec_ast_wf(**value));
    }
    proof {
        if spec_number_of(**value) is Some {
            lemma_number_converts(**value, Json5Kind::Null);
        }
    }
    let inner = match convert_value(value, tokens, index, normalized, original) {
        Ok(n) => n,
        Err(e) => {
            return Err(e);
        },
    };
    proof {
        if spec_number_of(**value) is Some {
            lemma_number_converts(**value, inner.kind);
        }
    }
    let number = match inner.kind {
        Json5Kind::Number(n) => n,
        _ => {
            return Err(YamarkError::new(crate::text::chars_to_string(
                str_chars("invalid JSON5: unary operator requires a number").as_slice(),
            )));
        },
    };
    proof {
        assert(spec_number_of(**value) == Some(number@));
    }
    if minus && !is_nan_spelling(&number) {
        match &**value {
            Json5Ast::Hexadecimal(raw) => {
                proof {
                    assert(spec_hex_spelling(raw@));
                    assert(number@ == spec_normalize_hexadecimal(raw@));
                    assert(forall|k: int| 2 <= k < number@.len() ==> number@[k] == raw@[k]);
                }
                let d = negative_hexadecimal_to_decimal(number.as_slice());
                assert(spec_number_of(*ast) == Some(d@));
                Ok(Json5Kind::Number(d))
            },
            _ => {
                let mut out = vec!['-'];
                push_all(&mut out, number.as_slice());
                assert(spec_number_of(*ast) == Some(out@));
                Ok(Json5Kind::Number(out))
            },
        }
    } else {
        assert(spec_number_of(*ast) == Some(number@));
        Ok(Json5Kind::Number(number))
    }
}

/// Converts the items of an array.
#[verifier::rlimit(80)]
#[verifier::spinoff_prover]
fn convert_array(
    ast: &Json5Ast,
    values: &Vec<Json5ArrayValue>,
    context: &Option<Vec<char>>,
    tokens: &[Json5Token],
    index: &mut usize,
    normalized: &NormalizedInput,
    original: &[char],
) -> (r: Result<Json5Kind, YamarkError>)
    requires
        normalized.wf(),
        spec_ast_wf(*ast),
        *ast == (Json5Ast::Array { values: *values, context: *context }),
    ensures
        r matches Ok(kind) ==> spec_converts(*ast, kind),
        r is Ok <==> spec_convertible(*ast),
        ({
            let w = spec_walk_items(*ast, tokens@, *old(index) as int, 0);
            match w.0 {
                Ok(_) => r is Ok && *final(index) == spec_consume(tokens@, w.1, Json5TokenKind::RightBracket),
                Err(e) => r matches Err(err) && spec_convert_error_is(e, err, original@, normalized.replacements@),
            }
        }),
    decreases ast, 0nat,
{
    let mut pending = run_comments(context);
    let mut items: Vec<Json5Node> = Vec::new();
    let mut k: usize = 0;
    while k < values.len()
        invariant
            normalized.wf(),
            *ast == (Json5Ast::Array { values: *values, context: *context }),
            spec_ast_wf(*ast),
            k <= values@.len(),
            items@.len() == k,
            spec_walk_items(*ast, tokens@, *old(index) as int, 0) == spec_walk_items(*ast, tokens@, *index as int, k as int),
            forall|j: int| 0 <= j < k ==> spec_convertible(#[trigger] values@[j].value),
            cviews(pending@) == spec_array_pending(values@, *context, k as int),
            forall|j: int|
                0 <= j < k ==> {
                    let item = #[trigger] items@[j];
                    &&& cviews(item.leading@) == spec_array_pending(values@, *context, j)
                    &&& cviews(item.trailing@) == match values@[j].context {
                        Some((w0, _)) => spec_wsc_comments(w0@, 0),
                        None => seq![],
                    }
                    &&& spec_converts(values@[j].value, item.kind)
                },
        decreases values@.len() - k,
    {
        proof {
            assert(decreases_to!(ast => values@[k as int].value));
            assert(spec_ast_wf(values@[k as int].value));
        }
        let ghost before_index = *index as int;
        let converted = match convert_value(&values[k].value, tokens, index, normalized, original) {
            Ok(c) => c,
            Err(e) => {
                return Err(e);
            },
        };
        let leading = pending;
        let mut trailing: Vec<Vec<char>> = Vec::new();
        pending = Vec::new();
        match &values[k].context {
            Some((w0, w1)) => {
                trailing = comments_from_wsc(w0.as_slice());
                match w1 {
                    Some(after_comma) => {
                        consume_if(tokens, index, Json5TokenKind::Comma);
                        pending = comments_from_wsc(after_comma.as_slice());
                    },
                    None => {},
                }
            },
            None => {
                consume_if(tokens, index, Json5TokenKind::Comma);
            },
        }
        assert(cviews(pending@) == spec_array_pending(values@, *context, k + 1));
        let ghost before = items@;
        let node = Json5Node { leading, kind: converted.kind, trailing };
        items.push(node);
        proof {
            assert(forall|j: int| 0 <= j < k ==> items@[j] == before[j]);
            assert(cviews(trailing@) == match values@[k as int].context {
                Some((w0, _)) => spec_wsc_comments(w0@, 0),
                None => Seq::<Seq<char>>::empty(),
            });
        }
        k = k + 1;
    }
    consume_if(tokens, index, Json5TokenKind::RightBracket);
    Ok(Json5Kind::Array { items, tail: pending })
}

/// Converts the key of a member.
#[verifier::rlimit(80)]
#[verifier::spinoff_prover]
fn convert_key(
    key: &Json5Ast,
    tokens: &[Json5Token],
    index: &mut usize,
    normalized: &NormalizedInput,
    original: &[char],
) -> (r: Result<Vec<char>, YamarkError>)
    requires
        normalized.wf(),
    ensures
        r matches Ok(v) ==> spec_key_of(*key) == Some(v@),
        r is Ok <==> spec_key_of(*key) is Some,
        *final(index) == spec_cursor_next(tokens@, *old(index) as int).1,
        match spec_key_step(*key, spec_token_start(spec_cursor_next(tokens@, *old(index) as int).0)) {
            Ok(_) => r is Ok,
            Err(e) => r matches Err(err) && spec_convert_error_is(e, err, original@, normalized.replacements@),
        },
{
    let start = match cursor_next(tokens, index) {
        Some(t) => t.start,
        None => 0,
    };
    match key {
        Json5Ast::Identifier(raw) => decode_identifier(raw.as_slice(), start, normalized, original),
        Json5Ast::DoubleQuotedString(raw) | Json5Ast::SingleQuotedString(raw) => {
            let base = if start < usize::MAX {
                start + 1
            } else {
                start
            };
            decode_string(raw.as_slice(), base, normalized, original)
        },
        _ => Err(invalid_json5_at(original, normalized.original_offset(start), "object key is not an IdentifierName or string")),
    }
}

/// Converts the members of an object.
#[verifier::rlimit(80)]
#[verifier::spinoff_prover]
fn convert_object(
    ast: &Json5Ast,
    pairs: &Vec<Json5Pair>,
    context: &Option<Vec<char>>,
    tokens: &[Json5Token],
    index: &mut usize,
    normalized: &NormalizedInput,
    original: &[char],
) -> (r: Result<Json5Kind, YamarkError>)
    requires
        normalized.wf(),
        spec_ast_wf(*ast),
        *ast == (Json5Ast::Object { pairs: *pairs, context: *context }),
    ensures
        r matches Ok(kind) ==> spec_converts(*ast, kind),
        r is Ok <==> spec_convertible(*ast),
        ({
            let w = spec_walk_members(*ast, tokens@, *old(index) as int, 0);
            match w.0 {
                Ok(_) => r is Ok && *final(index) == spec_consume(tokens@, w.1, Json5TokenKind::RightBrace),
                Err(e) => r matches Err(err) && spec_convert_error_is(e, err, original@, normalized.replacements@),
            }
        }),
    decreases ast, 0nat,
{
    let mut pending = run_comments(context);
    let mut members: Vec<Json5Member> = Vec::new();
    let mut k: usize = 0;
    while k < pairs.len()
        invariant
            normalized.wf(),
            *ast == (Json5Ast::Object { pairs: *pairs, context: *context }),
            spec_ast_wf(*ast),
            k <= pairs@.len(),
            members@.len() == k,
            spec_walk_members(*ast, tokens@, *old(index) as int, 0) == spec_walk_members(*ast, tokens@, *index as int, k as int),
            forall|j: int|
                0 <= j < k ==> spec_key_of(#[trigger] pairs@[j].key) is Some && spec_convertible(
                    pairs@[j].value,
                ),
            cviews(pending@) == spec_object_pending(pairs@, *context, k as int),
            forall|j: int|
                0 <= j < k ==> {
                    let m = #[trigger] members@[j];
                    &&& spec_key_of(pairs@[j].key) == Some(m.key@)
                    &&& cviews(m.leading@) == spec_object_pending(pairs@, *context, j) + match pairs@[j].context {
                        Some((w0, w1, _, _)) => spec_wsc_comments(w0@, 0) + spec_wsc_comments(w1@, 0),
                        None => seq![],
                    }
                    &&& m.value.leading@.len() == 0
                    &&& cviews(m.value.trailing@) == match pairs@[j].context {
                        Some((_, _, w2, _)) => spec_wsc_comments(w2@, 0),
                        None => seq![],
                    }
                    &&& spec_converts(pairs@[j].value, m.value.kind)
                },
        decreases pairs@.len() - k,
    {
        let ghost before_index = *index as int;
        let key = match convert_key(&pairs[k].key, tokens, index, normalized, original) {
            Ok(v) => v,
            Err(e) => {
                return Err(e);
            },
        };
        consume_if(tokens, index, Json5TokenKind::Colon);
        proof {
            assert(decreases_to!(ast => pairs@[k as int].value));
            assert(spec_ast_wf(pairs@[k as int].value));
        }
        let converted = match convert_value(&pairs[k].value, tokens, index, normalized, original) {
            Ok(c) => c,
            Err(e) => {
                return Err(e);
            },
        };
        let mut leading = pending;
        let mut trailing: Vec<Vec<char>> = Vec::new();
        pending = Vec::new();
        match &pairs[k].context {
            Some((w0, w1, w2, w3)) => {
                let c0 = comments_from_wsc(w0.as_slice());
                let c1 = comments_from_wsc(w1.as_slice());
                leading = concat_comments(concat_comments(leading, c0), c1);
                trailing = comments_from_wsc(w2.as_slice());
                match w3 {
                    Some(after_comma) => {
                        consume_if(tokens, index, Json5TokenKind::Comma);
                        pending = comments_from_wsc(after_comma.as_slice());
                    },
                    None => {},
                }
            },
            None => {
                consume_if(tokens, index, Json5TokenKind::Comma);
                assert(cviews(leading@) == cviews(leading@) + Seq::<Seq<char>>::empty());
            },
        }
        assert(cviews(pending@) == spec_object_pending(pairs@, *context, k + 1));
        let ghost before = members@;
        let value = Json5Node { leading: Vec::new(), kind: converted.kind, trailing };
        members.push(Json5Member { leading, key, value });
        proof {
            assert(forall|j: int| 0 <= j < k ==> members@[j] == before[j]);
        }
        k = k + 1;
    }
    consume_if(tokens, index, Json5TokenKind::RightBrace);
    Ok(Json5Kind::Object { members, tail: pending })
}

/// Converts a parsed document: the runs before and after the value become
/// its leading and trailing comments.
pub fn convert_document(
    document: &Json5Text,
    tokens: &[Json5Token],
    normalized: &NormalizedInput,
    original: &[char],
) -> (r: Result<Json5Node, YamarkError>)
    requires
        normalized.wf(),
        spec_ast_wf(document.value),
    ensures
        r matches Ok(node) ==> spec_converts(document.value, node.kind) && cviews(node.leading@) == match document.context {
            Some((w0, _)) => spec_wsc_comments(w0@, 0),
            None => seq![],
        } && cviews(node.trailing@) == match document.context {
            Some((_, w1)) => spec_wsc_comments(w1@, 0),
            None => seq![],
        },
        r is Ok <==> spec_convertible(document.value),
        spec_convert_walk(document.value, tokens@, 0).0 matches Err(e) ==> r matches Err(err) && spec_convert_error_is(
            e,
            err,
            original@,
            normalized.replacements@,
        ),
{
    let mut index: usize = 0;
    let mut node = match convert_value(&document.value, tokens, &mut index, normalized, original) {
        Ok(n) => n,
        Err(e) => {
            return Err(e);
        },
    };
    match &document.context {
        Some((w0, w1)) => {
            let leading = comments_from_wsc(w0.as_slice());
            let trailing = comments_from_wsc(w1.as_slice());
            node.leading = leading;
            node.trailing = trailing;
        },
        None => {
            assert(cviews(node.leading@) == Seq::<Seq<char>>::empty());
            assert(cviews(node.trailing@) == Seq::<Seq<char>>::empty());
        },
    }
    Ok(node)
}

/// An error of the tokenizer, the parser or the token checks at an offset
/// of the normalized text, placed in the original input.
pub fn error_at_normalized(original: &[char], normalized: &NormalizedInput, offset: usize, message: &str) -> (r: YamarkError)
    requires
        normalized.wf(),
    ensures
        spec_invalid_json5_at(original@, spec_original_offset(normalized.replacements@, offset as int, 0, 0), message@, r),
{
    invalid_json5_at(original, normalized.original_offset(offset), message)
}

/// The YAML of a converted document: block style with its comments when
/// the source has comments, else one flow value; always ending in a line
/// break.
pub open spec fn spec_json5_yaml(root: Json5Node, has_comments: bool) -> Seq<char> {
    let body = if has_comments {
        spec_block_node(root, 0)
    } else {
        spec_flow_kind(root.kind) + seq!['\n']
    };
    if body.len() > 0 && body[body.len() - 1] == '\n' {
        body
    } else {
        body + seq!['\n']
    }
}

/// Whether `root` is what converting the document gives.
pub open spec fn spec_converts_document(document: Json5Text, root: Json5Node) -> bool {
    &&& spec_converts(document.value, root.kind)
    &&& cviews(root.leading@) == match document.context {
        Some((w0, _)) => spec_wsc_comments(w0@, 0),
        None => seq![],
    }
    &&& cviews(root.trailing@) == match document.context {
        Some((_, w1)) => spec_wsc_comments(w1@, 0),
        None => seq![],
    }
}

/// Renders a parsed JSON5 document as YAML.
#[verifier::rlimit(40)]
pub fn json5_document_to_yaml(
    document: &Json5Text,
    tokens: &[Json5Token],
    has_comments: bool,
    normalized: &NormalizedInput,
    original: &[char],
) -> (r: Result<String, YamarkError>)
    requires
        normalized.wf(),
        spec_ast_wf(document.value),
    ensures
        r matches Ok(out) ==> exists|root: Json5Node| #[trigger] spec_converts_document(*document, root)
            && out@ == spec_json5_yaml(root, has_comments),
        r is Ok <==> spec_convertible(document.value),
        spec_convert_walk(document.value, tokens@, 0).0 matches Err(e) ==> r matches Err(err) && spec_convert_error_is(
            e,
            err,
            original@,
            normalized.replacements@,
        ),
{
    let root = match convert_document(document, tokens, normalized, original) {
        Ok(n) => n,
        Err(e) => {
            return Err(e);
        },
    };
    proof {
        assert(spec_converts_document(*document, root));
    }
    let mut output: Vec<char> = Vec::new();
    if has_comments {
        emit_block_node(&mut output, &root, 0);
    } else {
        emit_flow_kind(&mut output, &root.kind);
        output.push('\n');
    }
    if !(output.len() > 0 && output[output.len() - 1] == '\n') {
        output.push('\n');
    }
    assert(output@ == spec_json5_yaml(root, has_comments));
    Ok(chars_to_string(output.as_slice()))
}

} // verus!
