//! The YAML 1.2 core schema as the formatter reads it: which plain scalars
//! are null, booleans, integers or floats, and which strings may be written
//! plain.
use vstd::prelude::*;
use crate::text::{
    chars_eq, is_digit, is_hex_digit, spec_digit, spec_hex_digit, spec_trim, spec_ws, sub_chars,
    trim,
};
use crate::yaml_model::{YamlScalarSemantic, YamlScalarStyle};

verus! {

/// The digit classes of prefixed integers.
#[derive(Debug, Clone, Copy, PartialEq, Eq, Structural)]
pub enum Radix {
    Binary,
    Octal,
    Decimal,
    Hexadecimal,
}

pub open spec fn spec_radix_digit(r: Radix, c: char) -> bool {
    match r {
        Radix::Binary => c == '0' || c == '1',
        Radix::Octal => '0' <= c && c <= '7',
        Radix::Decimal => spec_digit(c),
        Radix::Hexadecimal => spec_hex_digit(c),
    }
}

fn radix_digit(r: Radix, c: char) -> (b: bool)
    ensures
        b == spec_radix_digit(r, c),
{
    match r {
        Radix::Binary => c == '0' || c == '1',
        Radix::Octal => '0' <= c && c <= '7',
        Radix::Decimal => is_digit(c),
        Radix::Hexadecimal => is_hex_digit(c),
    }
}

/// Digits of `r`, possibly separated by single underscores, with a digit at
/// both ends.
pub open spec fn spec_radix_digits(r: Radix, s: Seq<char>) -> bool {
    &&& s.len() > 0
    &&& spec_radix_digit(r, s[0])
    &&& spec_radix_digit(r, s.last())
    &&& forall|i: int| 0 <= i < s.len() ==> spec_radix_digit(r, #[trigger] s[i]) || s[i] == '_'
    &&& forall|i: int| 0 <= i < s.len() - 1 ==> !(#[trigger] s[i] == '_' && s[i + 1] == '_')
}

pub fn yaml_radix_digits(r: Radix, value: &[char]) -> (b: bool)
    ensures
        b == spec_radix_digits(r, value@),
{
    let n = value.len();
    let mut saw_digit = false;
    let mut previous_underscore = false;
    let mut i: usize = 0;
    while i < n
        invariant
            n == value@.len(),
            i <= n,
            saw_digit == (i > 0),
            i > 0 ==> spec_radix_digit(r, value@[0]),
            previous_underscore == (i > 0 && value@[i - 1] == '_'),
            i > 0 && !previous_underscore ==> spec_radix_digit(r, value@[i - 1]),
            forall|k: int| 0 <= k < i ==> spec_radix_digit(r, #[trigger] value@[k]) || value@[k] == '_',
            forall|k: int| 0 <= k < i - 1 ==> !(#[trigger] value@[k] == '_' && value@[k + 1] == '_'),
        decreases n - i,
    {
        let c = value[i];
        if radix_digit(r, c) {
            saw_digit = true;
            previous_underscore = false;
        } else if c == '_' && saw_digit && !previous_underscore {
            previous_underscore = true;
        } else {
            proof {
                if i > 0 && c == '_' {
                    assert(value@[i - 1] == '_' && value@[i as int] == '_');
                }
            }
            return false;
        }
        i = i + 1;
    }
    saw_digit && !previous_underscore
}

/// Decimal digits with single underscores between them.
pub fn yaml_decimal_digits(value: &[char]) -> (b: bool)
    ensures
        b == spec_radix_digits(Radix::Decimal, value@),
{
    yaml_radix_digits(Radix::Decimal, value)
}

/// The text after one leading `+` or `-`.
pub open spec fn spec_strip_sign(s: Seq<char>) -> Seq<char> {
    if s.len() > 0 && (s[0] == '+' || s[0] == '-') {
        s.drop_first()
    } else {
        s
    }
}

pub fn strip_sign(value: &[char]) -> (r: Vec<char>)
    ensures
        r@ == spec_strip_sign(value@),
{
    if value.len() > 0 && (value[0] == '+' || value[0] == '-') {
        let r = sub_chars(value, 1, value.len());
        assert(r@ =~= value@.drop_first());
        r
    } else {
        sub_chars(value, 0, value.len())
    }
}

/// `0b`, `0o` or `0x` (either case) followed by digits of that radix.
pub open spec fn spec_prefixed_integer(s: Seq<char>) -> bool {
    s.len() >= 2 && s[0] == '0' && (((s[1] == 'b' || s[1] == 'B') && spec_radix_digits(
        Radix::Binary,
        s.subrange(2, s.len() as int),
    )) || ((s[1] == 'o' || s[1] == 'O') && spec_radix_digits(
        Radix::Octal,
        s.subrange(2, s.len() as int),
    )) || ((s[1] == 'x' || s[1] == 'X') && spec_radix_digits(
        Radix::Hexadecimal,
        s.subrange(2, s.len() as int),
    )))
}

pub fn yaml_prefixed_integer(value: &[char]) -> (b: bool)
    ensures
        b == spec_prefixed_integer(value@),
{
    if value.len() < 2 || value[0] != '0' {
        return false;
    }
    let digits = sub_chars(value, 2, value.len());
    let p = value[1];
    if p == 'b' || p == 'B' {
        yaml_radix_digits(Radix::Binary, digits.as_slice())
    } else if p == 'o' || p == 'O' {
        yaml_radix_digits(Radix::Octal, digits.as_slice())
    } else if p == 'x' || p == 'X' {
        yaml_radix_digits(Radix::Hexadecimal, digits.as_slice())
    } else {
        false
    }
}

/// An optionally signed decimal or prefixed integer.
pub open spec fn spec_integer(s: Seq<char>) -> bool {
    spec_radix_digits(Radix::Decimal, spec_strip_sign(s)) || spec_prefixed_integer(
        spec_strip_sign(s),
    )
}

pub fn yaml_integer(value: &[char]) -> (b: bool)
    ensures
        b == spec_integer(value@),
{
    let u = strip_sign(value);
    yaml_decimal_digits(u.as_slice()) || yaml_prefixed_integer(u.as_slice())
}

pub open spec fn spec_is_word(s: Seq<char>, w: Seq<char>) -> bool {
    s == w
}

/// Empty, `~`, `null`, `Null` or `NULL`.
pub open spec fn spec_null(s: Seq<char>) -> bool {
    s.len() == 0 || s == seq!['~'] || s == seq!['n', 'u', 'l', 'l'] || s == seq!['N', 'u', 'l', 'l']
        || s == seq!['N', 'U', 'L', 'L']
}

pub fn yaml_null(value: &[char]) -> (b: bool)
    ensures
        b == spec_null(value@),
{
    let w2 = vec!['n', 'u', 'l', 'l'];
    let w3 = vec!['N', 'u', 'l', 'l'];
    let w4 = vec!['N', 'U', 'L', 'L'];
    let tilde = value.len() == 1 && value[0] == '~';
    proof {
        if value@.len() == 1 && value@[0] == '~' {
            assert(value@ =~= seq!['~']);
        }
    }
    value.len() == 0 || tilde || chars_eq(value, w2.as_slice())
        || chars_eq(value, w3.as_slice()) || chars_eq(value, w4.as_slice())
}

/// The value of `true`, `True`, `TRUE`, `false`, `False` or `FALSE`.
pub open spec fn spec_bool(s: Seq<char>) -> Option<bool> {
    if s == seq!['t', 'r', 'u', 'e'] || s == seq!['T', 'r', 'u', 'e'] || s == seq!['T', 'R', 'U', 'E'] {
        Some(true)
    } else if s == seq!['f', 'a', 'l', 's', 'e'] || s == seq!['F', 'a', 'l', 's', 'e'] || s
        == seq!['F', 'A', 'L', 'S', 'E'] {
        Some(false)
    } else {
        None
    }
}

pub fn yaml_bool(value: &[char]) -> (r: Option<bool>)
    ensures
        r == spec_bool(value@),
{
    let t1 = vec!['t', 'r', 'u', 'e'];
    let t2 = vec!['T', 'r', 'u', 'e'];
    let t3 = vec!['T', 'R', 'U', 'E'];
    let f1 = vec!['f', 'a', 'l', 's', 'e'];
    let f2 = vec!['F', 'a', 'l', 's', 'e'];
    let f3 = vec!['F', 'A', 'L', 'S', 'E'];
    if chars_eq(value, t1.as_slice()) || chars_eq(value, t2.as_slice()) || chars_eq(
        value,
        t3.as_slice(),
    ) {
        Some(true)
    } else if chars_eq(value, f1.as_slice()) || chars_eq(value, f2.as_slice()) || chars_eq(
        value,
        f3.as_slice(),
    ) {
        Some(false)
    } else {
        None
    }
}

/// `.inf` in three spellings with an optional sign, or `.nan` in three
/// spellings.
pub open spec fn spec_float_special(s: Seq<char>) -> bool {
    let u = spec_strip_sign(s);
    u == seq!['.', 'i', 'n', 'f'] || u == seq!['.', 'I', 'n', 'f'] || u == seq!['.', 'I', 'N', 'F']
        || s == seq!['.', 'n', 'a', 'n'] || s == seq!['.', 'N', 'a', 'N'] || s == seq![
        '.',
        'N',
        'A',
        'N',
    ]
}

pub fn yaml_float_special(value: &[char]) -> (b: bool)
    ensures
        b == spec_float_special(value@),
{
    let u = strip_sign(value);
    let i1 = vec!['.', 'i', 'n', 'f'];
    let i2 = vec!['.', 'I', 'n', 'f'];
    let i3 = vec!['.', 'I', 'N', 'F'];
    let n1 = vec!['.', 'n', 'a', 'n'];
    let n2 = vec!['.', 'N', 'a', 'N'];
    let n3 = vec!['.', 'N', 'A', 'N'];
    chars_eq(u.as_slice(), i1.as_slice()) || chars_eq(u.as_slice(), i2.as_slice()) || chars_eq(
        u.as_slice(),
        i3.as_slice(),
    ) || chars_eq(value, n1.as_slice()) || chars_eq(value, n2.as_slice()) || chars_eq(
        value,
        n3.as_slice(),
    )
}

/// The position of the first `c` in `s`, if any.
pub open spec fn spec_first_index(s: Seq<char>, c: char) -> Option<int> {
    if exists|i: int| 0 <= i < s.len() && s[i] == c {
        Some(choose|i: int| 0 <= i < s.len() && s[i] == c && forall|j: int| 0 <= j < i ==> s[j] != c)
    } else {
        None
    }
}

/// Finds the first `c` in `s`.
pub fn first_index(s: &[char], c: char) -> (r: Option<usize>)
    ensures
        match r {
            Some(i) => i < s@.len() && s@[i as int] == c && forall|j: int| 0 <= j < i ==> s@[j] != c,
            None => forall|j: int| 0 <= j < s@.len() ==> s@[j] != c,
        },
{
    crate::text::find_char_from(s, 0, c)
}

/// `digits.digits`, where one side may be empty but not both.
pub open spec fn spec_decimal_fraction(s: Seq<char>) -> bool {
    exists|dot: int|
        0 <= dot < s.len() && s[dot] == '.' && (forall|j: int| 0 <= j < dot ==> s[j] != '.') && ({
            let before = s.subrange(0, dot);
            let after = s.subrange(dot + 1, s.len() as int);
            (before.len() == 0 || spec_radix_digits(Radix::Decimal, before)) && (after.len() == 0
                || spec_radix_digits(Radix::Decimal, after)) && !(before.len() == 0 && after.len()
                == 0)
        })
}

pub fn yaml_decimal_fraction(value: &[char]) -> (b: bool)
    ensures
        b == spec_decimal_fraction(value@),
{
    let n = value.len();
    match first_index(value, '.') {
        None => false,
        Some(dot) => {
            let before = sub_chars(value, 0, dot);
            let after = sub_chars(value, dot + 1, n);
            let r = (before.len() == 0 || yaml_decimal_digits(before.as_slice())) && (after.len()
                == 0 || yaml_decimal_digits(after.as_slice())) && !(before.len() == 0 && after.len()
                == 0);
            proof {
                if r {
                    assert(value@[dot as int] == '.');
                } else {
                    assert forall|d: int|
                        0 <= d < value@.len() && value@[d] == '.' && (forall|j: int|
                            0 <= j < d ==> value@[j] != '.') implies !({
                        let bf = value@.subrange(0, d);
                        let af = value@.subrange(d + 1, value@.len() as int);
                        (bf.len() == 0 || spec_radix_digits(Radix::Decimal, bf)) && (af.len() == 0
                            || spec_radix_digits(Radix::Decimal, af)) && !(bf.len() == 0 && af.len()
                            == 0)
                    }) by {
                        if d < dot {
                        } else if d > dot {
                            assert(value@[dot as int] == '.');
                        }
                    }
                }
            }
            r
        },
    }
}

/// Digits, or a decimal fraction.
pub open spec fn spec_float_number_part(s: Seq<char>) -> bool {
    spec_radix_digits(Radix::Decimal, s) || spec_decimal_fraction(s)
}

pub fn yaml_float_number_part(value: &[char]) -> (b: bool)
    ensures
        b == spec_float_number_part(value@),
{
    yaml_decimal_digits(value) || yaml_decimal_fraction(value)
}

/// The position of the first `e` or `E`, if any.
pub fn first_exponent_marker(s: &[char]) -> (r: Option<usize>)
    ensures
        match r {
            Some(i) => i < s@.len() && (s@[i as int] == 'e' || s@[i as int] == 'E') && forall|j: int|
                0 <= j < i ==> s@[j] != 'e' && s@[j] != 'E',
            None => forall|j: int| 0 <= j < s@.len() ==> s@[j] != 'e' && s@[j] != 'E',
        },
{
    let mut i: usize = 0;
    while i < s.len()
        invariant
            i <= s@.len(),
            forall|j: int| 0 <= j < i ==> s@[j] != 'e' && s@[j] != 'E',
        decreases s@.len() - i,
    {
        if s[i] == 'e' || s[i] == 'E' {
            return Some(i);
        }
        i = i + 1;
    }
    None
}

/// The spelling of a float: an optional sign, then digits, a decimal
/// fraction, or a number part with an exponent.
pub open spec fn spec_float_spelling(s: Seq<char>) -> bool {
    let u = spec_strip_sign(s);
    u.len() > 0 && (spec_radix_digits(Radix::Decimal, u) || (if exists|i: int|
        0 <= i < u.len() && (u[i] == 'e' || u[i] == 'E') {
        exists|e: int|
            0 <= e < u.len() && (u[e] == 'e' || u[e] == 'E') && (forall|j: int|
                0 <= j < e ==> u[j] != 'e' && u[j] != 'E') && spec_float_number_part(
                u.subrange(0, e),
            ) && spec_radix_digits(
                Radix::Decimal,
                spec_strip_sign(u.subrange(e + 1, u.len() as int)),
            )
    } else {
        spec_decimal_fraction(u)
    }))
}

pub fn yaml_float_spelling(value: &[char]) -> (b: bool)
    ensures
        b == spec_float_spelling(value@),
{
    let u = strip_sign(value);
    if u.len() == 0 {
        return false;
    }
    if yaml_decimal_digits(u.as_slice()) {
        return true;
    }
    match first_exponent_marker(u.as_slice()) {
        None => yaml_decimal_fraction(u.as_slice()),
        Some(e) => {
            let number = sub_chars(u.as_slice(), 0, e);
            let exponent = sub_chars(u.as_slice(), e + 1, u.len());
            let exp_digits = strip_sign(exponent.as_slice());
            let r = yaml_float_number_part(number.as_slice()) && yaml_decimal_digits(
                exp_digits.as_slice(),
            );
            proof {
                assert(u@[e as int] == 'e' || u@[e as int] == 'E');
                if !r {
                    assert forall|e2: int|
                        0 <= e2 < u@.len() && (u@[e2] == 'e' || u@[e2] == 'E') && (forall|j: int|
                            0 <= j < e2 ==> u@[j] != 'e' && u@[j] != 'E') implies !(
                    spec_float_number_part(u@.subrange(0, e2)) && spec_radix_digits(
                        Radix::Decimal,
                        spec_strip_sign(u@.subrange(e2 + 1, u@.len() as int)),
                    )) by {
                        if e2 != e {
                            if e2 < e {
                            } else {
                            }
                        }
                    }
                }
            }
            r
        },
    }
}

/// A float of the core schema: a special value, or a float spelling that is
/// not a plain integer.
pub open spec fn spec_float_semantic(s: Seq<char>) -> bool {
    spec_float_special(s) || ({
        let u = spec_strip_sign(s);
        u.len() > 0 && !spec_radix_digits(Radix::Decimal, u) && spec_float_spelling(s)
    })
}

pub fn yaml_float_semantic(value: &[char]) -> (b: bool)
    ensures
        b == spec_float_semantic(value@),
{
    if yaml_float_special(value) {
        return true;
    }
    let u = strip_sign(value);
    if u.len() == 0 || yaml_decimal_digits(u.as_slice()) {
        return false;
    }
    yaml_float_spelling(value)
}

/// The core-schema type of a plain scalar that is not a string.
pub open spec fn spec_non_string_semantic(s: Seq<char>) -> Option<YamlScalarSemantic> {
    if spec_null(s) {
        Some(YamlScalarSemantic::Null)
    } else if spec_bool(s) is Some {
        Some(YamlScalarSemantic::Boolean)
    } else if spec_integer(s) {
        Some(YamlScalarSemantic::Integer)
    } else if spec_float_semantic(s) {
        Some(YamlScalarSemantic::Float)
    } else {
        None
    }
}

pub fn non_string_core_semantic(value: &[char]) -> (r: Option<YamlScalarSemantic>)
    ensures
        r == spec_non_string_semantic(value@),
{
    if yaml_null(value) {
        Some(YamlScalarSemantic::Null)
    } else if yaml_bool(value).is_some() {
        Some(YamlScalarSemantic::Boolean)
    } else if yaml_integer(value) {
        Some(YamlScalarSemantic::Integer)
    } else if yaml_float_semantic(value) {
        Some(YamlScalarSemantic::Float)
    } else {
        None
    }
}

/// The style a quoted or plain scalar is written in.
pub open spec fn spec_scalar_style(v: Seq<char>) -> YamlScalarStyle {
    if v.len() > 0 && v[0] == '\'' {
        YamlScalarStyle::SingleQuoted
    } else if v.len() > 0 && v[0] == '"' {
        YamlScalarStyle::DoubleQuoted
    } else {
        YamlScalarStyle::Plain
    }
}

pub fn scalar_style(value: &[char]) -> (r: YamlScalarStyle)
    ensures
        r == spec_scalar_style(value@),
{
    if value.len() > 0 && value[0] == '\'' {
        YamlScalarStyle::SingleQuoted
    } else if value.len() > 0 && value[0] == '"' {
        YamlScalarStyle::DoubleQuoted
    } else {
        YamlScalarStyle::Plain
    }
}

/// Quoted scalars are strings; plain scalars are typed by the core schema;
/// block scalars are left unknown.
pub open spec fn spec_semantic_for_style(v: Seq<char>, style: YamlScalarStyle) -> YamlScalarSemantic {
    match style {
        YamlScalarStyle::SingleQuoted | YamlScalarStyle::DoubleQuoted => YamlScalarSemantic::String,
        YamlScalarStyle::Plain => match spec_non_string_semantic(v) {
            Some(s) => s,
            None => YamlScalarSemantic::String,
        },
        _ => YamlScalarSemantic::Unknown,
    }
}

pub fn scalar_semantic_for_style(value: &[char], style: YamlScalarStyle) -> (r: YamlScalarSemantic)
    ensures
        r == spec_semantic_for_style(value@, style),
{
    match style {
        YamlScalarStyle::SingleQuoted | YamlScalarStyle::DoubleQuoted => YamlScalarSemantic::String,
        YamlScalarStyle::Plain => match non_string_core_semantic(value) {
            Some(s) => s,
            None => YamlScalarSemantic::String,
        },
        _ => YamlScalarSemantic::Unknown,
    }
}

/// The semantic of an untagged scalar written as `value`.
pub open spec fn spec_scalar_semantic(v: Seq<char>) -> YamlScalarSemantic {
    spec_semantic_for_style(spec_trim(v), spec_scalar_style(spec_trim(v)))
}

pub fn scalar_semantic(value: &[char]) -> (r: YamlScalarSemantic)
    ensures
        r == spec_scalar_semantic(value@),
{
    let t = trim(value);
    let style = scalar_style(t.as_slice());
    scalar_semantic_for_style(t.as_slice(), style)
}

/// The semantic of an empty scalar with an optional tag.
pub fn empty_scalar_semantic_with_tag(tag: Option<&[char]>) -> (r: YamlScalarSemantic)
    ensures
        match tag {
            None => r == YamlScalarSemantic::Null,
            Some(t) => r == (if t@ == seq!['!', '!', 's', 't', 'r'] {
                YamlScalarSemantic::String
            } else if t@ == seq!['!', '!', 'n', 'u', 'l', 'l'] {
                YamlScalarSemantic::Null
            } else {
                YamlScalarSemantic::Unknown
            }),
        },
{
    match tag {
        None => YamlScalarSemantic::Null,
        Some(t) => {
            let s = vec!['!', '!', 's', 't', 'r'];
            let nl = vec!['!', '!', 'n', 'u', 'l', 'l'];
            if chars_eq(t, s.as_slice()) {
                YamlScalarSemantic::String
            } else if chars_eq(t, nl.as_slice()) {
                YamlScalarSemantic::Null
            } else {
                YamlScalarSemantic::Unknown
            }
        },
    }
}

/// A block scalar header with `|` is literal, otherwise folded.
pub fn block_scalar_style(header: &[char]) -> (r: YamlScalarStyle)
    ensures
        r == (if header@.contains('|') {
            YamlScalarStyle::LiteralBlock
        } else {
            YamlScalarStyle::FoldedBlock
        }),
{
    if crate::text::contains_char(header, '|') {
        YamlScalarStyle::LiteralBlock
    } else {
        YamlScalarStyle::FoldedBlock
    }
}

/// Characters that may appear in an anchor or alias name.
pub open spec fn spec_anchor_char(c: char) -> bool {
    !spec_ws(c) && !(c == '[' || c == ']' || c == '{' || c == '}' || c == ',' || c == ':' || c
        == '?' || c == '#' || c == '&' || c == '*' || c == '!' || c == '|' || c == '>' || c
        == '\'' || c == '"' || c == '%' || c == '@' || c == '`')
}

pub fn is_anchor_char(c: char) -> (r: bool)
    ensures
        r == spec_anchor_char(c),
{
    !crate::text::is_ws(c) && !(c == '[' || c == ']' || c == '{' || c == '}' || c == ',' || c
        == ':' || c == '?' || c == '#' || c == '&' || c == '*' || c == '!' || c == '|' || c
        == '>' || c == '\'' || c == '"' || c == '%' || c == '@' || c == '`')
}

/// An alias: `*` followed by a non-empty anchor name, ignoring surrounding
/// whitespace.
pub open spec fn spec_alias_scalar(v: Seq<char>) -> bool {
    let t = spec_trim(v);
    t.len() > 1 && t[0] == '*' && forall|i: int| 1 <= i < t.len() ==> spec_anchor_char(#[trigger] t[i])
}

pub fn alias_scalar(value: &[char]) -> (r: bool)
    ensures
        r == spec_alias_scalar(value@),
{
    let t = trim(value);
    if t.len() <= 1 || t[0] != '*' {
        return false;
    }
    let mut i: usize = 1;
    while i < t.len()
        invariant
            1 <= i <= t@.len(),
            forall|k: int| 1 <= k < i ==> spec_anchor_char(#[trigger] t@[k]),
        decreases t@.len() - i,
    {
        if !is_anchor_char(t[i]) {
            return false;
        }
        i = i + 1;
    }
    true
}

/// The normalized spelling of a core-schema boolean.
pub fn normalize_yaml_bool(value: &[char]) -> (r: Option<Vec<char>>)
    ensures
        match spec_bool(value@) {
            Some(true) => r matches Some(v) && v@ == seq!['t', 'r', 'u', 'e'],
            Some(false) => r matches Some(v) && v@ == seq!['f', 'a', 'l', 's', 'e'],
            None => r is None,
        },
{
    match yaml_bool(value) {
        Some(true) => Some(vec!['t', 'r', 'u', 'e']),
        Some(false) => Some(vec!['f', 'a', 'l', 's', 'e']),
        None => None,
    }
}

/// The width of the normalized spelling of a core-schema boolean.
pub fn normalized_yaml_bool_width(value: &[char]) -> (r: Option<usize>)
    ensures
        match spec_bool(value@) {
            Some(true) => r == Some(4usize),
            Some(false) => r == Some(5usize),
            None => r is None,
        },
{
    match yaml_bool(value) {
        Some(true) => Some(4),
        Some(false) => Some(5),
        None => None,
    }
}

/// Characters that can occur in a null, boolean, integer or float of the
/// core schema; a decoded scalar with any other character is a string.
pub open spec fn spec_core_non_string_char(c: char) -> bool {
    spec_digit(c) || c == '+' || c == '-' || c == '_' || c == '.' || c == '~' || c == 'a' || c
        == 'A' || c == 'e' || c == 'E' || c == 'f' || c == 'F' || c == 'i' || c == 'I' || c == 'l'
        || c == 'L' || c == 'n' || c == 'N' || c == 'r' || c == 'R' || c == 's' || c == 'S' || c
        == 't' || c == 'T' || c == 'u' || c == 'U'
}

pub fn yaml_core_non_string_semantic_char(c: char) -> (r: bool)
    ensures
        r == spec_core_non_string_char(c),
{
    is_digit(c) || c == '+' || c == '-' || c == '_' || c == '.' || c == '~' || c == 'a' || c
        == 'A' || c == 'e' || c == 'E' || c == 'f' || c == 'F' || c == 'i' || c == 'I' || c == 'l'
        || c == 'L' || c == 'n' || c == 'N' || c == 'r' || c == 'R' || c == 's' || c == 'S' || c
        == 't' || c == 'T' || c == 'u' || c == 'U'
}

/// Indicator characters a plain scalar cannot start with.
pub open spec fn spec_unsafe_start(c: char) -> bool {
    c == '?' || c == ':' || c == ',' || c == '[' || c == ']' || c == '{' || c == '}' || c == '#'
        || c == '&' || c == '*' || c == '!' || c == '|' || c == '>' || c == '@' || c == '`' || c
        == '"' || c == '\'' || c == '%'
}

pub fn plain_scalar_unsafe_start_byte(c: char) -> (r: bool)
    ensures
        r == spec_unsafe_start(c),
{
    c == '?' || c == ':' || c == ',' || c == '[' || c == ']' || c == '{' || c == '}' || c == '#'
        || c == '&' || c == '*' || c == '!' || c == '|' || c == '>' || c == '@' || c == '`' || c
        == '"' || c == '\'' || c == '%'
}

pub fn plain_scalar_unsafe_first_char(c: char) -> (r: bool)
    ensures
        r == ((c as u32) < 0x80 && spec_unsafe_start(c)),
{
    (c as u32) < 0x80 && plain_scalar_unsafe_start_byte(c)
}

/// A value cannot start a plain scalar: it is empty, starts with an
/// indicator, or starts with `-` followed by the end or whitespace.
pub open spec fn spec_unsafe_start_value(v: Seq<char>) -> bool {
    if v.len() == 0 {
        true
    } else if v[0] == '-' {
        v.len() == 1 || crate::text::spec_ascii_ws(v[1])
    } else {
        spec_unsafe_start(v[0])
    }
}

pub fn plain_scalar_unsafe_start_value(value: &[char]) -> (r: bool)
    ensures
        r == spec_unsafe_start_value(value@),
{
    if value.len() == 0 {
        true
    } else if value[0] == '-' {
        value.len() == 1 || crate::text::is_ascii_ws(value[1])
    } else {
        plain_scalar_unsafe_start_byte(value[0])
    }
}

/// Whether a string may be written plain in block context.
pub open spec fn spec_block_plain_safe(v: Seq<char>) -> bool {
    &&& !spec_unsafe_start_value(v)
    &&& !spec_ws(v[0]) && !crate::text::spec_control(v[0])
    &&& forall|i: int| 1 <= i < v.len() ==> !crate::text::spec_control(#[trigger] v[i])
    &&& forall|i: int|
        1 <= i < v.len() ==> !((v[i - 1] == ':' && #[trigger] v[i] == ' ') || (v[i - 1] == ' '
            && v[i] == '#'))
    &&& !spec_ws(v.last())
}

pub fn block_plain_string_safe(value: &[char]) -> (r: bool)
    ensures
        r == spec_block_plain_safe(value@),
{
    if plain_scalar_unsafe_start_value(value) {
        return false;
    }
    let first = value[0];
    if crate::text::is_ws(first) || crate::text::is_control(first) {
        return false;
    }
    let mut i: usize = 1;
    while i < value.len()
        invariant
            1 <= i <= value@.len(),
            forall|k: int| 1 <= k < i ==> !crate::text::spec_control(#[trigger] value@[k]),
            forall|k: int|
                1 <= k < i ==> !((value@[k - 1] == ':' && #[trigger] value@[k] == ' ') || (value@[k
                    - 1] == ' ' && value@[k] == '#')),
        decreases value@.len() - i,
    {
        let c = value[i];
        let p = value[i - 1];
        if crate::text::is_control(c) || (p == ':' && c == ' ') || (p == ' ' && c == '#') {
            return false;
        }
        i = i + 1;
    }
    !crate::text::is_ws(value[value.len() - 1])
}

/// Whether a string may be written plain inside a flow collection.
pub open spec fn spec_flow_plain_safe(v: Seq<char>) -> bool {
    &&& !spec_unsafe_start_value(v)
    &&& forall|i: int|
        0 <= i < v.len() ==> !crate::text::spec_control(#[trigger] v[i]) && v[i] != ',' && v[i]
            != '[' && v[i] != ']' && v[i] != '{' && v[i] != '}'
    &&& forall|i: int|
        1 <= i < v.len() ==> !((v[i - 1] == ':' && #[trigger] v[i] == ' ') || (v[i - 1] == ' '
            && v[i] == '#'))
}

pub fn flow_plain_scalar_safe(value: &[char]) -> (r: bool)
    ensures
        r == spec_flow_plain_safe(value@),
{
    if plain_scalar_unsafe_start_value(value) {
        return false;
    }
    let mut i: usize = 0;
    while i < value.len()
        invariant
            i <= value@.len(),
            forall|k: int|
                0 <= k < i ==> !crate::text::spec_control(#[trigger] value@[k]) && value@[k] != ','
                    && value@[k] != '[' && value@[k] != ']' && value@[k] != '{' && value@[k] != '}',
            forall|k: int|
                1 <= k < i ==> !((value@[k - 1] == ':' && #[trigger] value@[k] == ' ') || (value@[k
                    - 1] == ' ' && value@[k] == '#')),
        decreases value@.len() - i,
    {
        let c = value[i];
        if crate::text::is_control(c) || c == ',' || c == '[' || c == ']' || c == '{' || c == '}' {
            return false;
        }
        if i > 0 {
            let p = value[i - 1];
            if (p == ':' && c == ' ') || (p == ' ' && c == '#') {
                return false;
            }
        }
        i = i + 1;
    }
    true
}

/// Whether a string may be written as a plain scalar: it reads back as a
/// string and has no character that would end or change it.
pub open spec fn spec_plain_string_safe(v: Seq<char>, flow: bool) -> bool {
    spec_scalar_semantic(v) == YamlScalarSemantic::String && if flow {
        spec_flow_plain_safe(v)
    } else {
        spec_block_plain_safe(v)
    }
}

pub fn plain_string_safe(value: &[char], flow_context: bool) -> (r: bool)
    ensures
        r == spec_plain_string_safe(value@, flow_context),
{
    scalar_semantic(value) == YamlScalarSemantic::String && if flow_context {
        flow_plain_scalar_safe(value)
    } else {
        block_plain_string_safe(value)
    }
}

/// Every character of `s` is an ASCII digit.
pub open spec fn spec_all_ascii_digits(s: Seq<char>) -> bool {
    forall|i: int| 0 <= i < s.len() ==> '0' <= #[trigger] s[i] && s[i] <= '9'
}

proof fn lemma_ascii_digits_radix(s: Seq<char>)
    requires
        s.len() > 0,
        spec_all_ascii_digits(s),
    ensures
        spec_radix_digits(Radix::Decimal, s),
{
    assert(s.last() == s[s.len() - 1]);
}

/// Digits with an optional sign (`42`, `-7`, `+0`) are typed an integer by
/// the core schema.
#[verifier::spinoff_prover]
pub proof fn lemma_decimal_digits_is_integer(sign: Seq<char>, digits: Seq<char>)
    requires
        sign == Seq::<char>::empty() || sign == seq!['+'] || sign == seq!['-'],
        spec_all_ascii_digits(digits),
        digits.len() > 0,
    ensures
        spec_scalar_semantic(sign + digits) == YamlScalarSemantic::Integer,
{
    let s = sign + digits;
    lemma_signed_digits(sign, digits);
    assert(s[0] == '+' || s[0] == '-' || ('0' <= s[0] && s[0] <= '9')) by {
        if sign.len() == 0 {
            assert(s[0] == digits[0]);
        }
    }
    assert(s.last() == digits[digits.len() - 1]);
    assert(!spec_ws(s[0]) && !spec_ws(s.last()));
    crate::text::lemma_trim_trimmed(s);
    assert(spec_scalar_style(s) == YamlScalarStyle::Plain);
    if s == seq!['~'] || s == seq!['n', 'u', 'l', 'l'] || s == seq!['N', 'u', 'l', 'l'] || s == seq!['N', 'U', 'L', 'L'] {
        assert(s[0] == '~' || s[0] == 'n' || s[0] == 'N');
    }
    assert(!spec_null(s));
    if spec_bool(s) is Some {
        assert(s[0] == 't' || s[0] == 'T' || s[0] == 'f' || s[0] == 'F');
    }
    assert(spec_integer(s));
}

/// Infinity, with an optional sign, and not-a-number, each in its three
/// spellings (`.inf`, `-.Inf`, `+.INF`, `.nan`, `.NaN`, `.NAN`), are typed
/// a float by the core schema.
#[verifier::spinoff_prover]
pub proof fn lemma_special_values_are_float(sign: Seq<char>, word: Seq<char>)
    requires
        sign == Seq::<char>::empty() || sign == seq!['+'] || sign == seq!['-'],
        word == seq!['.', 'i', 'n', 'f'] || word == seq!['.', 'I', 'n', 'f'] || word == seq!['.', 'I', 'N', 'F']
            || sign.len() == 0 && (word == seq!['.', 'n', 'a', 'n'] || word == seq!['.', 'N', 'a', 'N']
            || word == seq!['.', 'N', 'A', 'N']),
    ensures
        spec_scalar_semantic(sign + word) == YamlScalarSemantic::Float,
{
    let s = sign + word;
    if sign.len() == 0 {
        assert(s =~= word);
    } else {
        assert(s.drop_first() =~= word);
    }
    assert(spec_strip_sign(s) == word);
    assert(s[0] == '+' || s[0] == '-' || s[0] == '.');
    assert(s.last() == word[3]);
    assert(!spec_ws(s[0]) && !spec_ws(s.last()));
    crate::text::lemma_trim_trimmed(s);
    assert(spec_scalar_style(s) == YamlScalarStyle::Plain);
    if s == seq!['~'] || s == seq!['n', 'u', 'l', 'l'] || s == seq!['N', 'u', 'l', 'l'] || s == seq!['N', 'U', 'L', 'L'] {
        assert(s[0] == '~' || s[0] == 'n' || s[0] == 'N');
    }
    assert(!spec_null(s));
    if spec_bool(s) is Some {
        assert(s[0] == 't' || s[0] == 'T' || s[0] == 'f' || s[0] == 'F');
    }
    assert(!spec_radix_digits(Radix::Decimal, word)) by {
        assert(!spec_radix_digit(Radix::Decimal, word[0]));
    }
    assert(!spec_prefixed_integer(word));
    assert(!spec_integer(s));
    assert(spec_float_special(s));
}

/// A decimal fraction, with an optional sign, digits before the point and
/// digits after it, one side possibly empty but not both (`1.5`, `-2.25`,
/// `.5`, `3.`), is typed a float by the core schema.
#[verifier::rlimit(40)]
#[verifier::spinoff_prover]
pub proof fn lemma_decimal_fraction_is_float(sign: Seq<char>, whole: Seq<char>, frac: Seq<char>)
    requires
        sign == Seq::<char>::empty() || sign == seq!['+'] || sign == seq!['-'],
        spec_all_ascii_digits(whole),
        spec_all_ascii_digits(frac),
        whole.len() + frac.len() > 0,
    ensures
        spec_scalar_semantic(sign + whole + seq!['.'] + frac) == YamlScalarSemantic::Float,
{
    let u = whole + seq!['.'] + frac;
    let s = sign + u;
    assert(sign + whole + seq!['.'] + frac =~= s);
    let d = whole.len() as int;
    assert(u[d] == '.');
    assert forall|i: int| 0 <= i < u.len() && i != d implies '0' <= #[trigger] u[i] && u[i] <= '9' by {
        if i < d {
            assert(u[i] == whole[i]);
        } else {
            assert(u[i] == frac[i - d - 1]);
        }
    }
    // The sign comes off, and nothing else.
    if sign.len() == 0 {
        assert(s =~= u);
        if u[0] == '+' || u[0] == '-' {
            assert(u[0] == '.' || ('0' <= u[0] && u[0] <= '9'));
        }
        assert(spec_strip_sign(s) == u);
    } else {
        assert(s.drop_first() =~= u);
        assert(spec_strip_sign(s) == u);
    }
    // Trimming leaves it as it is, and it is written plain.
    assert(!spec_ws(s[0])) by {
        if sign.len() == 0 {
            assert(s[0] == u[0]);
        }
    }
    assert(!spec_ws(s.last())) by {
        assert(s.last() == u[u.len() - 1]);
    }
    crate::text::lemma_trim_trimmed(s);
    assert(spec_scalar_style(s) == YamlScalarStyle::Plain) by {
        if sign.len() == 0 {
            assert(s[0] == u[0]);
        }
    }
    // Not null, not a boolean.
    assert(s.len() > 0);
    assert(s[0] == '+' || s[0] == '-' || s[0] == '.' || ('0' <= s[0] && s[0] <= '9')) by {
        if sign.len() == 0 {
            assert(s[0] == u[0]);
        }
    }
    if s == seq!['~'] || s == seq!['n', 'u', 'l', 'l'] || s == seq!['N', 'u', 'l', 'l'] || s == seq!['N', 'U', 'L', 'L'] {
        assert(s[0] == '~' || s[0] == 'n' || s[0] == 'N');
    }
    assert(!spec_null(s));
    if spec_bool(s) is Some {
        assert(s[0] == 't' || s[0] == 'T' || s[0] == 'f' || s[0] == 'F');
    }
    // Not an integer: the point is neither a digit nor `_`, and a prefix
    // needs `0` and a letter.
    assert(!spec_radix_digits(Radix::Decimal, u)) by {
        assert(!(spec_radix_digit(Radix::Decimal, u[d]) || u[d] == '_'));
    }
    assert(!spec_prefixed_integer(u)) by {
        if u.len() >= 2 && u[0] == '0' {
            assert(u[1] == '.' || ('0' <= u[1] && u[1] <= '9')) by {
                if d == 0 {
                } else if d == 1 {
                } else {
                    assert(u[1] == whole[1]);
                }
            }
        }
    }
    assert(!spec_integer(s));
    // A float: no exponent marker, and the fraction around the point.
    assert(!(exists|i: int| 0 <= i < u.len() && (u[i] == 'e' || u[i] == 'E'))) by {
        if exists|i: int| 0 <= i < u.len() && (u[i] == 'e' || u[i] == 'E') {
            let i = choose|i: int| 0 <= i < u.len() && (u[i] == 'e' || u[i] == 'E');
            if i != d {
                assert('0' <= u[i] && u[i] <= '9');
            }
        }
    }
    let before = u.subrange(0, d);
    let after = u.subrange(d + 1, u.len() as int);
    assert(before =~= whole);
    assert(after =~= frac);
    if whole.len() > 0 {
        lemma_ascii_digits_radix(whole);
    }
    if frac.len() > 0 {
        lemma_ascii_digits_radix(frac);
    }
    assert(forall|j: int| 0 <= j < d ==> u[j] != '.') by {
        assert forall|j: int| 0 <= j < d implies u[j] != '.' by {
            assert(u[j] == whole[j]);
        }
    }
    assert(spec_decimal_fraction(u));
    assert(!spec_float_special(s)) by {
        if u == seq!['.', 'i', 'n', 'f'] || u == seq!['.', 'I', 'n', 'f'] || u == seq!['.', 'I', 'N', 'F'] {
            assert(u[1] == 'i' || u[1] == 'I');
            assert(d == 0);
            assert(u[1] == frac[0]);
        }
        if s == seq!['.', 'n', 'a', 'n'] || s == seq!['.', 'N', 'a', 'N'] || s == seq!['.', 'N', 'A', 'N'] {
            assert(s[1] == 'n' || s[1] == 'N');
            assert(sign.len() == 0 && s =~= u && d == 0);
            assert(u[1] == frac[0]);
        }
    }
    assert(spec_float_spelling(s));
    assert(spec_float_semantic(s));
}

/// Digits, a point and digits, one side possibly empty but not both, are a
/// decimal fraction.
proof fn lemma_digits_around_point(whole: Seq<char>, frac: Seq<char>)
    requires
        spec_all_ascii_digits(whole),
        spec_all_ascii_digits(frac),
        whole.len() + frac.len() > 0,
    ensures
        spec_decimal_fraction(whole + seq!['.'] + frac),
{
    let m = whole + seq!['.'] + frac;
    let d = whole.len() as int;
    assert(m[d] == '.');
    assert(m.subrange(0, d) =~= whole);
    assert(m.subrange(d + 1, m.len() as int) =~= frac);
    if whole.len() > 0 {
        lemma_ascii_digits_radix(whole);
    }
    if frac.len() > 0 {
        lemma_ascii_digits_radix(frac);
    }
    assert forall|j: int| 0 <= j < d implies m[j] != '.' by {
        assert(m[j] == whole[j]);
    }
}

/// The parts of a number in exponent notation, laid end to end: the
/// mantissa, the marker at its end, then the exponent.
proof fn lemma_exponent_layout(
    whole: Seq<char>,
    point: Seq<char>,
    frac: Seq<char>,
    marker: char,
    exp_sign: Seq<char>,
    exp: Seq<char>,
)
    requires
        spec_all_ascii_digits(whole),
        spec_all_ascii_digits(frac),
        point == seq!['.'] && whole.len() + frac.len() > 0 || point == Seq::<char>::empty() && whole.len() > 0
            && frac.len() == 0,
        spec_all_ascii_digits(exp),
        exp.len() > 0,
    ensures
        ({
            let u = whole + point + frac + seq![marker] + exp_sign + exp;
            let m: int = (whole.len() + point.len() + frac.len()) as int;
            &&& m >= 1
            &&& u.len() == m + 1 + exp_sign.len() + exp.len()
            &&& u[m] == marker
            &&& forall|i: int| 0 <= i < m ==> ('0' <= #[trigger] u[i] && u[i] <= '9') || u[i] == '.'
            &&& '0' <= u.last() && u.last() <= '9'
            &&& u.subrange(0, m) == whole + point + frac
            &&& u.subrange(m + 1, u.len() as int) == exp_sign + exp
        }),
{
    let mant = whole + point + frac;
    let u = mant + seq![marker] + (exp_sign + exp);
    assert(whole + point + frac + seq![marker] + exp_sign + exp =~= u);
    let m = mant.len() as int;
    assert forall|i: int| 0 <= i < m implies ('0' <= #[trigger] u[i] && u[i] <= '9') || u[i] == '.' by {
        assert(u[i] == mant[i]);
        if i < whole.len() {
            assert(mant[i] == whole[i]);
        } else if i < whole.len() + point.len() {
            assert(mant[i] == point[i - whole.len()]);
        } else {
            assert(mant[i] == frac[i - whole.len() - point.len()]);
        }
    }
    assert(u.last() == exp[exp.len() - 1]);
    assert(u.subrange(0, m) =~= mant);
    assert(u.subrange(m + 1, u.len() as int) =~= exp_sign + exp);
}

/// An unsigned number whose first `e` or `E` follows a mantissa of digits
/// or a decimal fraction and precedes a signed run of digits is a float
/// spelling and no integer, and none of the special values.
#[verifier::rlimit(40)]
#[verifier::spinoff_prover]
proof fn lemma_exponent_spelling(sign: Seq<char>, u: Seq<char>, m: int)
    requires
        sign == Seq::<char>::empty() || sign == seq!['+'] || sign == seq!['-'],
        1 <= m < u.len(),
        u[m] == 'e' || u[m] == 'E',
        forall|i: int| 0 <= i < m ==> ('0' <= #[trigger] u[i] && u[i] <= '9') || u[i] == '.',
        spec_float_number_part(u.subrange(0, m)),
        spec_radix_digits(Radix::Decimal, spec_strip_sign(u.subrange(m + 1, u.len() as int))),
    ensures
        spec_strip_sign(sign + u) == u,
        !spec_radix_digits(Radix::Decimal, u),
        !spec_prefixed_integer(u),
        !spec_float_special(sign + u),
        spec_float_spelling(sign + u),
{
    let s = sign + u;
    if sign.len() == 0 {
        assert(s =~= u);
    } else {
        assert(s.drop_first() =~= u);
    }
    assert(spec_strip_sign(s) == u);
    assert(!(spec_radix_digit(Radix::Decimal, u[m]) || u[m] == '_'));
    assert(!spec_prefixed_integer(u)) by {
        if u.len() >= 2 && u[0] == '0' {
            if m >= 2 {
                assert(('0' <= u[1] && u[1] <= '9') || u[1] == '.');
            }
        }
    }
    assert(!spec_float_special(s)) by {
        if u == seq!['.', 'i', 'n', 'f'] || u == seq!['.', 'I', 'n', 'f'] || u == seq!['.', 'I', 'N', 'F'] {
            assert(u[1] == 'i' || u[1] == 'I');
            if m >= 2 {
                assert(('0' <= u[1] && u[1] <= '9') || u[1] == '.');
            }
        }
        if s == seq!['.', 'n', 'a', 'n'] || s == seq!['.', 'N', 'a', 'N'] || s == seq!['.', 'N', 'A', 'N'] {
            assert(sign.len() == 0) by {
                if sign.len() > 0 {
                    assert(s[0] == sign[0]);
                }
            }
            assert(s =~= u);
            assert(u[1] == 'n' || u[1] == 'N');
            if m >= 2 {
                assert(('0' <= u[1] && u[1] <= '9') || u[1] == '.');
            }
        }
    }
    assert(forall|j: int| 0 <= j < m ==> u[j] != 'e' && u[j] != 'E');
    assert(exists|i: int| 0 <= i < u.len() && (u[i] == 'e' || u[i] == 'E'));
}

/// A signed plain number that trims to itself, is a float spelling and is
/// neither an integer nor a special value reads as a float.
#[verifier::rlimit(40)]
#[verifier::spinoff_prover]
proof fn lemma_plain_float_reads_as_float(sign: Seq<char>, u: Seq<char>)
    requires
        sign == Seq::<char>::empty() || sign == seq!['+'] || sign == seq!['-'],
        u.len() > 0,
        ('0' <= u[0] && u[0] <= '9') || u[0] == '.',
        '0' <= u.last() && u.last() <= '9',
        spec_strip_sign(sign + u) == u,
        !spec_radix_digits(Radix::Decimal, u),
        !spec_prefixed_integer(u),
        !spec_float_special(sign + u),
        spec_float_spelling(sign + u),
    ensures
        spec_scalar_semantic(sign + u) == YamlScalarSemantic::Float,
{
    let s = sign + u;
    assert(s[0] == '+' || s[0] == '-' || s[0] == '.' || ('0' <= s[0] && s[0] <= '9')) by {
        if sign.len() == 0 {
            assert(s[0] == u[0]);
        }
    }
    assert(s.last() == u.last());
    assert(!spec_ws(s[0]) && !spec_ws(s.last()));
    crate::text::lemma_trim_trimmed(s);
    assert(spec_scalar_style(s) == YamlScalarStyle::Plain);
    if s == seq!['~'] || s == seq!['n', 'u', 'l', 'l'] || s == seq!['N', 'u', 'l', 'l'] || s == seq!['N', 'U', 'L', 'L'] {
        assert(s[0] == '~' || s[0] == 'n' || s[0] == 'N');
    }
    assert(!spec_null(s));
    if spec_bool(s) is Some {
        assert(s[0] == 't' || s[0] == 'T' || s[0] == 'f' || s[0] == 'F');
    }
    assert(!spec_integer(s));
    assert(spec_float_semantic(s));
}

/// Digits, or digits around a point, are the number part of a float.
proof fn lemma_mantissa_number_part(whole: Seq<char>, point: Seq<char>, frac: Seq<char>)
    requires
        spec_all_ascii_digits(whole),
        spec_all_ascii_digits(frac),
        point == seq!['.'] && whole.len() + frac.len() > 0 || point == Seq::<char>::empty() && whole.len() > 0
            && frac.len() == 0,
    ensures
        spec_float_number_part(whole + point + frac),
{
    if point.len() == 0 {
        assert(whole + point + frac =~= whole);
        lemma_ascii_digits_radix(whole);
    } else {
        assert(whole + point + frac =~= whole + seq!['.'] + frac);
        lemma_digits_around_point(whole, frac);
    }
}

/// Digits after an optional sign are decimal digits once the sign is off.
proof fn lemma_signed_digits(sign: Seq<char>, digits: Seq<char>)
    requires
        sign == Seq::<char>::empty() || sign == seq!['+'] || sign == seq!['-'],
        spec_all_ascii_digits(digits),
        digits.len() > 0,
    ensures
        spec_radix_digits(Radix::Decimal, spec_strip_sign(sign + digits)),
{
    if sign.len() == 0 {
        assert(sign + digits =~= digits);
        assert('0' <= digits[0] && digits[0] <= '9');
    } else {
        assert((sign + digits).drop_first() =~= digits);
    }
    assert(spec_strip_sign(sign + digits) == digits);
    lemma_ascii_digits_radix(digits);
}

/// A number in exponent notation, with an optional sign, digits or a
/// decimal fraction, `e` or `E`, an optional sign and at least one digit
/// (`1e5`, `-2.5E-3`, `.5e+2`, `3.e1`), is typed a float by the core schema.
#[verifier::rlimit(40)]
#[verifier::spinoff_prover]
pub proof fn lemma_exponent_number_is_float(
    sign: Seq<char>,
    whole: Seq<char>,
    point: Seq<char>,
    frac: Seq<char>,
    marker: char,
    exp_sign: Seq<char>,
    exp: Seq<char>,
)
    requires
        sign == Seq::<char>::empty() || sign == seq!['+'] || sign == seq!['-'],
        spec_all_ascii_digits(whole),
        spec_all_ascii_digits(frac),
        point == seq!['.'] && whole.len() + frac.len() > 0 || point == Seq::<char>::empty() && whole.len() > 0
            && frac.len() == 0,
        marker == 'e' || marker == 'E',
        exp_sign == Seq::<char>::empty() || exp_sign == seq!['+'] || exp_sign == seq!['-'],
        spec_all_ascii_digits(exp),
        exp.len() > 0,
    ensures
        spec_scalar_semantic(sign + whole + point + frac + seq![marker] + exp_sign + exp)
            == YamlScalarSemantic::Float,
{
    let u = whole + point + frac + seq![marker] + exp_sign + exp;
    let m: int = (whole.len() + point.len() + frac.len()) as int;
    lemma_exponent_layout(whole, point, frac, marker, exp_sign, exp);
    // Regrouped with the sign apart.
    vstd::seq_lib::lemma_concat_associative(sign, whole, point);
    vstd::seq_lib::lemma_concat_associative(sign, whole + point, frac);
    vstd::seq_lib::lemma_concat_associative(sign, whole + point + frac, seq![marker]);
    vstd::seq_lib::lemma_concat_associative(sign, whole + point + frac + seq![marker], exp_sign);
    vstd::seq_lib::lemma_concat_associative(sign, whole + point + frac + seq![marker] + exp_sign, exp);
    lemma_mantissa_number_part(whole, point, frac);
    lemma_signed_digits(exp_sign, exp);
    lemma_exponent_spelling(sign, u, m);
    lemma_plain_float_reads_as_float(sign, u);
}

} // verus!
