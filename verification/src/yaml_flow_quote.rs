//! Quoting of strings inside flow collections, their rendered widths, and
//! the typing of quoted and tagged scalars.
use vstd::prelude::*;
use crate::text::{
    chars_eq, contains_char, lemma_utf8_len_append, lemma_utf8_len_at_least_len, len_utf8, push_hex_upper,
    spec_control, spec_hex_upper, spec_len_utf8, spec_trim, spec_utf8_len, trim,
};
use crate::yaml_model::{YamlScalarSemantic, YamlScalarStyle};
use crate::yaml_scalar::{decode_quoted, spec_decode_quoted, DecodePolicy};
use crate::yaml_semantic::{
    non_string_core_semantic, scalar_semantic, scalar_style, spec_bool, spec_core_non_string_char,
    spec_float_semantic, spec_integer, spec_non_string_semantic, spec_null, spec_radix_digits,
    spec_scalar_semantic, spec_scalar_style, spec_strip_sign, spec_semantic_for_style,
    scalar_semantic_for_style, spec_unsafe_start, strip_sign, yaml_bool, yaml_decimal_digits,
    yaml_float_semantic, yaml_integer, yaml_null, Radix,
};

verus! {

/// The number of hexadecimal digits of `v` (at least one).
pub open spec fn spec_hex_digit_count(v: nat) -> nat
    decreases v,
{
    if v < 16 {
        1
    } else {
        1 + spec_hex_digit_count(v / 16)
    }
}

pub fn hex_digits(value: u32) -> (r: usize)
    ensures
        r == spec_hex_digit_count(value as nat),
        1 <= r <= 8,
{
    let mut v = value;
    let mut digits: usize = 1;
    assert(pow16_spec(0) == 1);
    assert((value as nat) * pow16_spec(0) == value as nat);
    while v >= 16
        invariant
            1 <= digits <= 8,
            digits + spec_hex_digit_count(v as nat) - 1 == spec_hex_digit_count(value as nat),
            v as nat * pow16_spec((digits - 1) as nat) <= value as nat,
        decreases v,
    {
        proof {
            assert(v as nat * pow16_spec((digits - 1) as nat) <= 0xffff_ffff);
            lemma_pow16_digits(v as nat, (digits - 1) as nat);
        }
        v = v / 16;
        digits = digits + 1;
    }
    digits
}

pub open spec fn pow16_spec(n: nat) -> nat
    decreases n,
{
    if n == 0 {
        1
    } else {
        16 * pow16_spec((n - 1) as nat)
    }
}

proof fn lemma_pow16_digits(v: nat, k: nat)
    requires
        v >= 16,
        v * pow16_spec(k) <= 0xffff_ffff,
    ensures
        k + 1 <= 7,
        (v / 16) * pow16_spec(k + 1) <= v * pow16_spec(k),
{
    assert(pow16_spec(k + 1) == 16 * pow16_spec(k));
    assert((v / 16) * (16 * pow16_spec(k)) <= v * pow16_spec(k)) by (nonlinear_arith)
        requires
            v >= 16,
    ;
    if k + 1 > 7 {
        lemma_pow16_grow(k);
        assert(v * pow16_spec(k) >= 16 * pow16_spec(7)) by (nonlinear_arith)
            requires
                v >= 16,
                pow16_spec(k) >= pow16_spec(7),
        ;
        reveal_with_fuel(pow16_spec, 8);
    }
}

proof fn lemma_pow16_grow(k: nat)
    requires
        k >= 7,
    ensures
        pow16_spec(k) >= pow16_spec(7),
    decreases k,
{
    if k > 7 {
        lemma_pow16_grow((k - 1) as nat);
    }
}

/// The bytes and characters one character takes inside a flow
/// double-quoted scalar.
pub open spec fn spec_double_quote_metrics(c: char) -> (nat, nat) {
    if c == '\0' || c == '\u{7}' || c == '\u{8}' || c == '\t' || c == '\n' || c == '\u{b}' || c
        == '\u{c}' || c == '\r' || c == '\u{1b}' || c == '"' || c == '\\' {
        (2, 2)
    } else if spec_control(c) {
        let b = if (c as u32) <= 0xff {
            4
        } else {
            2 + spec_hex_digit_count(c as nat)
        };
        (b, b)
    } else {
        (spec_len_utf8(c), 1)
    }
}

pub fn double_quote_char_metrics(c: char) -> (r: (usize, usize))
    ensures
        (r.0 as nat, r.1 as nat) == spec_double_quote_metrics(c),
{
    if c == '\0' || c == '\u{7}' || c == '\u{8}' || c == '\t' || c == '\n' || c == '\u{b}' || c
        == '\u{c}' || c == '\r' || c == '\u{1b}' || c == '"' || c == '\\' {
        (2, 2)
    } else if crate::text::is_control(c) {
        let b = if (c as u32) <= 0xff {
            4
        } else {
            2 + hex_digits(c as u32)
        };
        (b, b)
    } else {
        (len_utf8(c), 1)
    }
}

/// One character inside a flow double-quoted scalar.
pub open spec fn spec_flow_dq_char(c: char) -> Seq<char> {
    if c == '\0' {
        seq!['\\', '0']
    } else if c == '\u{7}' {
        seq!['\\', 'a']
    } else if c == '\u{8}' {
        seq!['\\', 'b']
    } else if c == '\t' {
        seq!['\\', 't']
    } else if c == '\n' {
        seq!['\\', 'n']
    } else if c == '\u{b}' {
        seq!['\\', 'v']
    } else if c == '\u{c}' {
        seq!['\\', 'f']
    } else if c == '\r' {
        seq!['\\', 'r']
    } else if c == '\u{1b}' {
        seq!['\\', 'e']
    } else if c == '"' {
        seq!['\\', '"']
    } else if c == '\\' {
        seq!['\\', '\\']
    } else if spec_control(c) {
        seq!['\\', 'x'] + spec_hex_upper(c as nat, 2)
    } else {
        seq![c]
    }
}

pub open spec fn spec_flow_dq_body(s: Seq<char>) -> Seq<char>
    decreases s.len(),
{
    if s.len() == 0 {
        Seq::empty()
    } else {
        spec_flow_dq_body(s.drop_last()) + spec_flow_dq_char(s.last())
    }
}

fn push_flow_dq_char(out: &mut Vec<char>, c: char)
    ensures
        final(out)@ == old(out)@ + spec_flow_dq_char(c),
{
    let ghost o = out@;
    let simple = if c == '\0' {
        Some('0')
    } else if c == '\u{7}' {
        Some('a')
    } else if c == '\u{8}' {
        Some('b')
    } else if c == '\t' {
        Some('t')
    } else if c == '\n' {
        Some('n')
    } else if c == '\u{b}' {
        Some('v')
    } else if c == '\u{c}' {
        Some('f')
    } else if c == '\r' {
        Some('r')
    } else if c == '\u{1b}' {
        Some('e')
    } else if c == '"' {
        Some('"')
    } else if c == '\\' {
        Some('\\')
    } else {
        None
    };
    match simple {
        Some(e) => {
            out.push('\\');
            out.push(e);
        },
        None => {
            if crate::text::is_control(c) {
                out.push('\\');
                out.push('x');
                push_hex_upper(out, c as u32, 2);
            } else {
                out.push(c);
            }
        },
    }
    assert(out@ =~= o + spec_flow_dq_char(c));
}

/// `value` as a double-quoted scalar for a flow collection.
pub fn quote_yaml_double_for_flow(value: &[char]) -> (r: Vec<char>)
    ensures
        r@ == seq!['"'] + spec_flow_dq_body(value@) + seq!['"'],
{
    let mut out: Vec<char> = Vec::new();
    out.push('"');
    let mut i: usize = 0;
    while i < value.len()
        invariant
            i <= value@.len(),
            out@ == seq!['"'] + spec_flow_dq_body(value@.subrange(0, i as int)),
        decreases value@.len() - i,
    {
        push_flow_dq_char(&mut out, value[i]);
        proof {
            let pre = value@.subrange(0, i + 1);
            assert(pre.drop_last() =~= value@.subrange(0, i as int));
        }
        i = i + 1;
    }
    out.push('"');
    assert(value@.subrange(0, value@.len() as int) =~= value@);
    out
}

/// Bytes and characters of the flow double-quoted form of `s`.
pub open spec fn spec_flow_dq_metrics(s: Seq<char>) -> (nat, nat)
    decreases s.len(),
{
    if s.len() == 0 {
        (2, 2)
    } else {
        let (b, c) = spec_flow_dq_metrics(s.drop_last());
        let (eb, ec) = spec_double_quote_metrics_flow(s.last());
        (b + eb, c + ec)
    }
}

/// Like `spec_double_quote_metrics`, but every control character takes a
/// four-character `\x` escape.
pub open spec fn spec_double_quote_metrics_flow(c: char) -> (nat, nat) {
    if c == '\0' || c == '\u{7}' || c == '\u{8}' || c == '\t' || c == '\n' || c == '\u{b}' || c
        == '\u{c}' || c == '\r' || c == '\u{1b}' || c == '"' || c == '\\' {
        (2, 2)
    } else if spec_control(c) {
        (4, 4)
    } else {
        (spec_len_utf8(c), 1)
    }
}

pub fn quote_yaml_double_for_flow_metrics(value: &[char]) -> (r: (usize, usize))
    requires
        spec_flow_dq_metrics(value@).0 <= usize::MAX,
    ensures
        (r.0 as nat, r.1 as nat) == spec_flow_dq_metrics(value@),
{
    let mut bytes: u128 = 2;
    let mut chars: u128 = 2;
    let mut i: usize = 0;
    while i < value.len()
        invariant
            i <= value@.len(),
            (bytes as nat, chars as nat) == spec_flow_dq_metrics(value@.subrange(0, i as int)),
            bytes <= 2 + 4 * i,
            chars <= 2 + 4 * i,
        decreases value@.len() - i,
    {
        let c = value[i];
        if c == '\0' || c == '\u{7}' || c == '\u{8}' || c == '\t' || c == '\n' || c == '\u{b}' || c
            == '\u{c}' || c == '\r' || c == '\u{1b}' || c == '"' || c == '\\' {
            bytes = bytes + 2;
            chars = chars + 2;
        } else if crate::text::is_control(c) {
            bytes = bytes + 4;
            chars = chars + 4;
        } else {
            bytes = bytes + len_utf8(c) as u128;
            chars = chars + 1;
        }
        proof {
            let pre = value@.subrange(0, i + 1);
            assert(pre.drop_last() =~= value@.subrange(0, i as int));
        }
        i = i + 1;
    }
    assert(value@.subrange(0, value@.len() as int) =~= value@);
    proof {
        lemma_flow_dq_chars_le_bytes(value@);
    }
    (bytes as usize, chars as usize)
}

/// Every character of the flow double-quoted form takes at least one byte.
proof fn lemma_flow_dq_chars_le_bytes(s: Seq<char>)
    ensures
        spec_flow_dq_metrics(s).1 <= spec_flow_dq_metrics(s).0,
    decreases s.len(),
{
    if s.len() > 0 {
        lemma_flow_dq_chars_le_bytes(s.drop_last());
    }
}

/// `s` with every `'` doubled.
pub open spec fn spec_double_single_quotes(s: Seq<char>) -> Seq<char>
    decreases s.len(),
{
    if s.len() == 0 {
        Seq::empty()
    } else {
        spec_double_single_quotes(s.drop_last()) + (if s.last() == '\'' {
            seq!['\'', '\'']
        } else {
            seq![s.last()]
        })
    }
}

/// How many times `c` occurs in `s`.
pub open spec fn spec_count_char(s: Seq<char>, c: char) -> nat
    decreases s.len(),
{
    if s.len() == 0 {
        0
    } else {
        spec_count_char(s.drop_last(), c) + (if s.last() == c {
            1nat
        } else {
            0nat
        })
    }
}

/// The flow double-quoted form of `s`.
pub open spec fn spec_flow_double(s: Seq<char>) -> Seq<char> {
    seq!['"'] + spec_flow_dq_body(s) + seq!['"']
}

/// The flow single-quoted form of `s`.
pub open spec fn spec_flow_single(s: Seq<char>) -> Seq<char> {
    seq!['\''] + spec_double_single_quotes(s) + seq!['\'']
}

/// The quoting a flow collection gives `s`: double-quoted when `s` holds a
/// control character or when the double-quoted form takes fewer UTF-8 bytes,
/// single-quoted otherwise.
pub open spec fn spec_flow_quote(s: Seq<char>) -> Seq<char> {
    if spec_has_control(s) {
        spec_flow_double(s)
    } else if spec_utf8_len(spec_flow_double(s)) < spec_utf8_len(spec_flow_single(s)) {
        spec_flow_double(s)
    } else {
        spec_flow_single(s)
    }
}

pub open spec fn spec_has_control(s: Seq<char>) -> bool {
    exists|i: int| 0 <= i < s.len() && spec_control(s[i])
}

pub fn has_control(s: &[char]) -> (r: bool)
    ensures
        r == spec_has_control(s@),
{
    let mut i: usize = 0;
    while i < s.len()
        invariant
            i <= s@.len(),
            forall|k: int| 0 <= k < i ==> !spec_control(s@[k]),
        decreases s@.len() - i,
    {
        if crate::text::is_control(s[i]) {
            return true;
        }
        i = i + 1;
    }
    false
}

/// The UTF-8 length of a character sequence.
pub fn utf8_len(s: &[char]) -> (r: usize)
    requires
        spec_utf8_len(s@) <= usize::MAX,
    ensures
        r == spec_utf8_len(s@),
{
    let mut total: u128 = 0;
    let mut i: usize = 0;
    while i < s.len()
        invariant
            i <= s@.len(),
            total == spec_utf8_len(s@.subrange(0, i as int)),
            total <= 4 * i,
        decreases s@.len() - i,
    {
        total = total + len_utf8(s[i]) as u128;
        proof {
            let pre = s@.subrange(0, i + 1);
            assert(pre.drop_last() =~= s@.subrange(0, i as int));
        }
        i = i + 1;
    }
    assert(s@.subrange(0, s@.len() as int) =~= s@);
    total as usize
}

proof fn lemma_ascii_pair_utf8(a: char, b: char)
    requires
        (a as u32) < 0x80,
        (b as u32) < 0x80,
    ensures
        spec_utf8_len(seq![a, b]) == 2,
{
    reveal_with_fuel(spec_utf8_len, 3);
    assert(seq![a, b].drop_last() =~= seq![a]);
    assert(seq![a].drop_last() =~= Seq::<char>::empty());
}

proof fn lemma_flow_dq_char_metrics(c: char)
    ensures
        spec_utf8_len(spec_flow_dq_char(c)) == spec_double_quote_metrics_flow(c).0,
        spec_flow_dq_char(c).len() == spec_double_quote_metrics_flow(c).1,
{
    let e = spec_flow_dq_char(c);
    if c == '\0' || c == '\u{7}' || c == '\u{8}' || c == '\t' || c == '\n' || c == '\u{b}' || c
        == '\u{c}' || c == '\r' || c == '\u{1b}' || c == '"' || c == '\\' {
        lemma_ascii_pair_utf8(e[0], e[1]);
        assert(e =~= seq![e[0], e[1]]);
    } else if spec_control(c) {
        let v = c as nat;
        assert(v < 256);
        reveal_with_fuel(spec_hex_upper, 3);
        let h = spec_hex_upper(v, 2);
        assert(h =~= seq![crate::text::spec_hex_char((v / 16) as u32), crate::text::spec_hex_char((v % 16) as u32)]);
        let x = seq!['\\', 'x'];
        lemma_hex_char_ascii((v / 16) as u32);
        lemma_hex_char_ascii((v % 16) as u32);
        lemma_ascii_pair_utf8('\\', 'x');
        lemma_ascii_pair_utf8(h[0], h[1]);
        lemma_utf8_len_append(x, h);
    } else {
        reveal_with_fuel(spec_utf8_len, 2);
        assert(e.drop_last() =~= Seq::<char>::empty());
    }
}

proof fn lemma_hex_char_ascii(v: u32)
    requires
        v < 16,
    ensures
        (crate::text::spec_hex_char(v) as u32) < 0x80,
{
    let b: u8 = if v < 10 {
        (v + 48) as u8
    } else {
        (v - 10 + 65) as u8
    };
    assert(b < 0x80);
    assert(crate::text::spec_hex_char(v) == b as char);
}

/// The metrics of the flow double-quoted form are its UTF-8 length and its
/// character count.
pub proof fn lemma_flow_double_metrics(s: Seq<char>)
    ensures
        spec_utf8_len(spec_flow_double(s)) == spec_flow_dq_metrics(s).0,
        spec_flow_double(s).len() == spec_flow_dq_metrics(s).1,
{
    lemma_flow_dq_body_metrics(s);
    let b = spec_flow_dq_body(s);
    lemma_utf8_len_append(seq!['"'], b);
    lemma_utf8_len_append(seq!['"'] + b, seq!['"']);
    reveal_with_fuel(spec_utf8_len, 2);
    assert(seq!['"'].drop_last() =~= Seq::<char>::empty());
}

proof fn lemma_flow_dq_body_metrics(s: Seq<char>)
    ensures
        spec_utf8_len(spec_flow_dq_body(s)) + 2 == spec_flow_dq_metrics(s).0,
        spec_flow_dq_body(s).len() + 2 == spec_flow_dq_metrics(s).1,
    decreases s.len(),
{
    if s.len() > 0 {
        lemma_flow_dq_body_metrics(s.drop_last());
        lemma_flow_dq_char_metrics(s.last());
        lemma_utf8_len_append(spec_flow_dq_body(s.drop_last()), spec_flow_dq_char(s.last()));
    }
}

/// Doubling the `'` of `s` adds one character and one byte per `'`.
pub proof fn lemma_flow_single_metrics(s: Seq<char>)
    ensures
        spec_utf8_len(spec_flow_single(s)) == spec_utf8_len(s) + 2 + spec_count_char(s, '\''),
        spec_flow_single(s).len() == s.len() + 2 + spec_count_char(s, '\''),
{
    lemma_double_single_quotes_metrics(s);
    let b = spec_double_single_quotes(s);
    lemma_utf8_len_append(seq!['\''], b);
    lemma_utf8_len_append(seq!['\''] + b, seq!['\'']);
    reveal_with_fuel(spec_utf8_len, 2);
    assert(seq!['\''].drop_last() =~= Seq::<char>::empty());
}

proof fn lemma_double_single_quotes_metrics(s: Seq<char>)
    ensures
        spec_utf8_len(spec_double_single_quotes(s)) == spec_utf8_len(s) + spec_count_char(s, '\''),
        spec_double_single_quotes(s).len() == s.len() + spec_count_char(s, '\''),
    decreases s.len(),
{
    if s.len() > 0 {
        let p = s.drop_last();
        let c = s.last();
        lemma_double_single_quotes_metrics(p);
        let t = if c == '\'' {
            seq!['\'', '\'']
        } else {
            seq![c]
        };
        lemma_utf8_len_append(spec_double_single_quotes(p), t);
        if c == '\'' {
            lemma_ascii_pair_utf8('\'', '\'');
        } else {
            reveal_with_fuel(spec_utf8_len, 2);
            assert(t.drop_last() =~= Seq::<char>::empty());
        }
    }
}

/// The UTF-8 byte counts and character counts of the double-quoted and
/// the single-quoted flow forms of `value`, counted wide enough not to
/// overflow.
fn flow_quote_counts(value: &[char]) -> (r: (u128, u128, u128, u128))
    ensures
        r.0 == spec_utf8_len(spec_flow_double(value@)),
        r.1 == spec_flow_double(value@).len(),
        r.2 == spec_utf8_len(spec_flow_single(value@)),
        r.3 == spec_flow_single(value@).len(),
{
    let mut double_bytes: u128 = 2;
    let mut double_chars: u128 = 2;
    let mut bytes: u128 = 0;
    let mut quotes: u128 = 0;
    let mut i: usize = 0;
    while i < value.len()
        invariant
            i <= value@.len(),
            (double_bytes as nat, double_chars as nat) == spec_flow_dq_metrics(value@.subrange(0, i as int)),
            bytes == spec_utf8_len(value@.subrange(0, i as int)),
            quotes == spec_count_char(value@.subrange(0, i as int), '\''),
            double_bytes <= 2 + 4 * i,
            double_chars <= 2 + 4 * i,
            bytes <= 4 * i,
            quotes <= i,
        decreases value@.len() - i,
    {
        let c = value[i];
        if c == '\0' || c == '\u{7}' || c == '\u{8}' || c == '\t' || c == '\n' || c == '\u{b}' || c
            == '\u{c}' || c == '\r' || c == '\u{1b}' || c == '"' || c == '\\' {
            double_bytes = double_bytes + 2;
            double_chars = double_chars + 2;
        } else if crate::text::is_control(c) {
            double_bytes = double_bytes + 4;
            double_chars = double_chars + 4;
        } else {
            double_bytes = double_bytes + len_utf8(c) as u128;
            double_chars = double_chars + 1;
        }
        bytes = bytes + len_utf8(c) as u128;
        if c == '\'' {
            quotes = quotes + 1;
        }
        proof {
            let pre = value@.subrange(0, i + 1);
            assert(pre.drop_last() =~= value@.subrange(0, i as int));
        }
        i = i + 1;
    }
    assert(value@.subrange(0, value@.len() as int) =~= value@);
    proof {
        lemma_flow_double_metrics(value@);
        lemma_flow_single_metrics(value@);
    }
    (double_bytes, double_chars, bytes + 2 + quotes, value.len() as u128 + 2 + quotes)
}

/// `value` quoted for a flow collection: double-quoted when it holds a
/// control character or when that is shorter in bytes, single-quoted
/// otherwise.
pub fn quote_yaml_single_for_flow(value: &[char]) -> (r: Vec<char>)
    ensures
        r@ == spec_flow_quote(value@),
{
    if has_control(value) {
        return quote_yaml_double_for_flow(value);
    }
    let mut single: Vec<char> = Vec::new();
    single.push('\'');
    let mut i: usize = 0;
    while i < value.len()
        invariant
            i <= value@.len(),
            single@ == seq!['\''] + spec_double_single_quotes(value@.subrange(0, i as int)),
        decreases value@.len() - i,
    {
        if value[i] == '\'' {
            single.push('\'');
            single.push('\'');
        } else {
            single.push(value[i]);
        }
        proof {
            let pre = value@.subrange(0, i + 1);
            assert(pre.drop_last() =~= value@.subrange(0, i as int));
        }
        i = i + 1;
    }
    single.push('\'');
    assert(value@.subrange(0, value@.len() as int) =~= value@);
    assert(single@ =~= spec_flow_single(value@));
    let double = quote_yaml_double_for_flow(value);
    let (double_bytes, _, single_bytes, _) = flow_quote_counts(value);
    if double_bytes < single_bytes {
        double
    } else {
        single
    }
}

/// The rendered width, in characters, of `quote_yaml_single_for_flow`:
/// the character count of the chosen quoting, found without building it.
/// The width must fit in `usize`.
pub fn quote_yaml_single_for_flow_width(value: &[char]) -> (r: usize)
    requires
        spec_flow_quote(value@).len() <= usize::MAX,
    ensures
        r == spec_flow_quote(value@).len(),
{
    let (double_bytes, double_chars, single_bytes, single_chars) = flow_quote_counts(value);
    if has_control(value) {
        return double_chars as usize;
    }
    if double_bytes < single_bytes {
        double_chars as usize
    } else {
        single_chars as usize
    }
}

/// The text between the quotes of a quoted scalar that needs no decoding:
/// single-quoted without inner `'`, or double-quoted without `\`, `\n` or
/// `\r`.
pub open spec fn spec_simple_quoted_inner(raw: Seq<char>) -> Option<Seq<char>> {
    if raw.len() >= 2 && raw[0] == '\'' && raw.last() == '\'' {
        let inner = raw.subrange(1, raw.len() - 1);
        if inner.contains('\'') {
            None
        } else {
            Some(inner)
        }
    } else if raw.len() >= 2 && raw[0] == '"' && raw.last() == '"' {
        let inner = raw.subrange(1, raw.len() - 1);
        if inner.contains('\\') || inner.contains('\n') || inner.contains('\r') {
            None
        } else {
            Some(inner)
        }
    } else {
        None
    }
}

pub fn simple_quoted_scalar_inner(raw: &[char]) -> (r: Option<Vec<char>>)
    ensures
        match r {
            Some(v) => spec_simple_quoted_inner(raw@) == Some(v@),
            None => spec_simple_quoted_inner(raw@) is None,
        },
{
    let n = raw.len();
    if n >= 2 && raw[0] == '\'' && raw[n - 1] == '\'' {
        let inner = crate::text::sub_chars(raw, 1, n - 1);
        if contains_char(inner.as_slice(), '\'') {
            None
        } else {
            Some(inner)
        }
    } else if n >= 2 && raw[0] == '"' && raw[n - 1] == '"' {
        let inner = crate::text::sub_chars(raw, 1, n - 1);
        if contains_char(inner.as_slice(), '\\') || contains_char(inner.as_slice(), '\n')
            || contains_char(inner.as_slice(), '\r') {
            None
        } else {
            Some(inner)
        }
    } else {
        None
    }
}

/// The decoding used by the emitter: double-quoted scalars reject escaped
/// line breaks, single-quoted ones keep literal line breaks.
pub open spec fn spec_emitter_decode(raw: Seq<char>) -> Option<Seq<char>> {
    if raw.len() > 0 && raw[0] == '"' {
        spec_decode_quoted(raw, DecodePolicy::Width)
    } else if raw.len() > 0 && raw[0] == '\'' {
        spec_decode_quoted(raw, DecodePolicy::Format)
    } else {
        None
    }
}

pub fn decode_double_quoted_scalar(raw: &[char]) -> (r: Option<Vec<char>>)
    ensures
        match r {
            Some(v) => raw@.len() > 0 && raw@[0] == '"' && spec_decode_quoted(raw@, DecodePolicy::Width) == Some(v@),
            None => !(raw@.len() > 0 && raw@[0] == '"') || spec_decode_quoted(raw@, DecodePolicy::Width) is None,
        },
{
    if raw.len() == 0 || raw[0] != '"' {
        return None;
    }
    decode_quoted(raw, DecodePolicy::Width)
}

pub fn decode_single_quoted_scalar(raw: &[char]) -> (r: Option<Vec<char>>)
    ensures
        match r {
            Some(v) => raw@.len() > 0 && raw@[0] == '\'' && spec_decode_quoted(raw@, DecodePolicy::Format) == Some(v@),
            None => !(raw@.len() > 0 && raw@[0] == '\'') || spec_decode_quoted(raw@, DecodePolicy::Format) is None,
        },
{
    if raw.len() == 0 || raw[0] != '\'' {
        return None;
    }
    decode_quoted(raw, DecodePolicy::Format)
}

pub fn decode_quoted_scalar(raw: &[char]) -> (r: Option<Vec<char>>)
    ensures
        match r {
            Some(v) => spec_emitter_decode(raw@) == Some(v@),
            None => spec_emitter_decode(raw@) is None,
        },
{
    if raw.len() > 0 && raw[0] == '"' {
        decode_double_quoted_scalar(raw)
    } else if raw.len() > 0 && raw[0] == '\'' {
        decode_single_quoted_scalar(raw)
    } else {
        None
    }
}

/// The value a core tag is checked against: the decoded value of a quoted
/// scalar, or the trimmed plain text.
pub open spec fn spec_value_for_core_tag(v: Seq<char>) -> Option<Seq<char>> {
    let t = spec_trim(v);
    match spec_scalar_style(t) {
        YamlScalarStyle::Plain => Some(t),
        _ => spec_emitter_decode(t),
    }
}

pub fn scalar_value_for_core_tag(value: &[char]) -> (r: Option<Vec<char>>)
    ensures
        match r {
            Some(v) => spec_value_for_core_tag(value@) == Some(v@),
            None => spec_value_for_core_tag(value@) is None,
        },
{
    let t = trim(value);
    match scalar_style(t.as_slice()) {
        YamlScalarStyle::Plain => Some(t),
        _ => decode_quoted_scalar(t.as_slice()),
    }
}

#[verifier::opaque]
pub open spec fn spec_tag_is(tag: Seq<char>, name: Seq<char>) -> bool {
    tag == seq!['!', '!'] + name
}

/// `!!bool`: a boolean when the value is one.
pub open spec fn spec_bool_tagged(v: Seq<char>) -> YamlScalarSemantic {
    match spec_value_for_core_tag(v) {
        Some(x) => if spec_bool(x) is Some {
            YamlScalarSemantic::Boolean
        } else {
            YamlScalarSemantic::Unknown
        },
        None => YamlScalarSemantic::Unknown,
    }
}

/// `!!null`: null when the value is a non-empty null spelling.
pub open spec fn spec_null_tagged(v: Seq<char>) -> YamlScalarSemantic {
    match spec_value_for_core_tag(v) {
        Some(x) => if spec_null(x) && x.len() > 0 {
            YamlScalarSemantic::Null
        } else {
            YamlScalarSemantic::Unknown
        },
        None => YamlScalarSemantic::Unknown,
    }
}

/// `!!int`: an integer when the value is an optionally signed decimal.
pub open spec fn spec_int_tagged(v: Seq<char>) -> YamlScalarSemantic {
    match spec_value_for_core_tag(v) {
        Some(x) => if spec_radix_digits(Radix::Decimal, spec_strip_sign(x)) {
            YamlScalarSemantic::Integer
        } else {
            YamlScalarSemantic::Unknown
        },
        None => YamlScalarSemantic::Unknown,
    }
}

/// `!!float`: a float when the value is a special value or a float spelling.
pub open spec fn spec_float_tagged(v: Seq<char>) -> YamlScalarSemantic {
    match spec_value_for_core_tag(v) {
        Some(x) => if crate::yaml_semantic::spec_float_special(x)
            || crate::yaml_semantic::spec_float_spelling(x) {
            YamlScalarSemantic::Float
        } else {
            YamlScalarSemantic::Unknown
        },
        None => YamlScalarSemantic::Unknown,
    }
}

/// The semantic of a scalar with an explicit tag: the core tags hold when
/// the value fits them; any other tag leaves the value unknown.
pub open spec fn spec_semantic_with_tag(v: Seq<char>, tag: Option<Seq<char>>) -> YamlScalarSemantic {
    match tag {
        None => spec_scalar_semantic(v),
        Some(t) => if spec_tag_is(t, seq!['s', 't', 'r']) {
            YamlScalarSemantic::String
        } else if spec_tag_is(t, seq!['b', 'o', 'o', 'l']) {
            spec_bool_tagged(v)
        } else if spec_tag_is(t, seq!['n', 'u', 'l', 'l']) {
            spec_null_tagged(v)
        } else if spec_tag_is(t, seq!['i', 'n', 't']) {
            spec_int_tagged(v)
        } else if spec_tag_is(t, seq!['f', 'l', 'o', 'a', 't']) {
            spec_float_tagged(v)
        } else {
            YamlScalarSemantic::Unknown
        },
    }
}

fn bool_tagged(value: &[char]) -> (r: YamlScalarSemantic)
    ensures
        r == spec_bool_tagged(value@),
{
    match scalar_value_for_core_tag(value) {
        Some(x) => if yaml_bool(x.as_slice()).is_some() {
            YamlScalarSemantic::Boolean
        } else {
            YamlScalarSemantic::Unknown
        },
        None => YamlScalarSemantic::Unknown,
    }
}

fn null_tagged(value: &[char]) -> (r: YamlScalarSemantic)
    ensures
        r == spec_null_tagged(value@),
{
    match scalar_value_for_core_tag(value) {
        Some(x) => if yaml_null_value(x.as_slice()) {
            YamlScalarSemantic::Null
        } else {
            YamlScalarSemantic::Unknown
        },
        None => YamlScalarSemantic::Unknown,
    }
}

fn int_tagged(value: &[char]) -> (r: YamlScalarSemantic)
    ensures
        r == spec_int_tagged(value@),
{
    match scalar_value_for_core_tag(value) {
        Some(x) => if yaml_integer_value(x.as_slice()) {
            YamlScalarSemantic::Integer
        } else {
            YamlScalarSemantic::Unknown
        },
        None => YamlScalarSemantic::Unknown,
    }
}

fn float_tagged(value: &[char]) -> (r: YamlScalarSemantic)
    ensures
        r == spec_float_tagged(value@),
{
    match scalar_value_for_core_tag(value) {
        Some(x) => if yaml_float_value(x.as_slice()) {
            YamlScalarSemantic::Float
        } else {
            YamlScalarSemantic::Unknown
        },
        None => YamlScalarSemantic::Unknown,
    }
}

/// `~`, `null`, `Null` or `NULL` (not the empty value).
pub fn yaml_null_value(value: &[char]) -> (r: bool)
    ensures
        r == (spec_null(value@) && value@.len() > 0),
{
    value.len() > 0 && yaml_null(value)
}

/// An optionally signed decimal integer (`!!int` values).
pub fn yaml_integer_value(value: &[char]) -> (r: bool)
    ensures
        r == spec_radix_digits(Radix::Decimal, spec_strip_sign(value@)),
{
    let digits = strip_sign(value);
    yaml_decimal_digits(digits.as_slice())
}

/// A float of the `!!float` tag: a special value, or any float spelling.
/// Every float spelling, once underscores are removed, is a decimal number
/// that parses as a floating-point value.
pub fn yaml_float_value(value: &[char]) -> (r: bool)
    ensures
        r == (crate::yaml_semantic::spec_float_special(value@)
            || crate::yaml_semantic::spec_float_spelling(value@)),
{
    crate::yaml_semantic::yaml_float_special(value) || crate::yaml_semantic::yaml_float_spelling(
        value,
    )
}

#[verifier::rlimit(80)]
pub fn scalar_semantic_with_tag(value: &[char], tag: Option<&[char]>) -> (r: YamlScalarSemantic)
    ensures
        r == spec_semantic_with_tag(
            value@,
            match tag {
                Some(t) => Some(t@),
                None => None,
            },
        ),
{
    match tag {
        None => scalar_semantic(value),
        Some(t) => {
            let s = vec!['!', '!', 's', 't', 'r'];
            let b = vec!['!', '!', 'b', 'o', 'o', 'l'];
            let nl = vec!['!', '!', 'n', 'u', 'l', 'l'];
            let it = vec!['!', '!', 'i', 'n', 't'];
            let fl = vec!['!', '!', 'f', 'l', 'o', 'a', 't'];
            proof {
                reveal(spec_tag_is);
                assert(seq!['!', '!'] + seq!['s', 't', 'r'] =~= s@);
                assert(seq!['!', '!'] + seq!['b', 'o', 'o', 'l'] =~= b@);
                assert(seq!['!', '!'] + seq!['n', 'u', 'l', 'l'] =~= nl@);
                assert(seq!['!', '!'] + seq!['i', 'n', 't'] =~= it@);
                assert(seq!['!', '!'] + seq!['f', 'l', 'o', 'a', 't'] =~= fl@);
            }
            if chars_eq(t, s.as_slice()) {
                YamlScalarSemantic::String
            } else if chars_eq(t, b.as_slice()) {
                bool_tagged(value)
            } else if chars_eq(t, nl.as_slice()) {
                null_tagged(value)
            } else if chars_eq(t, it.as_slice()) {
                int_tagged(value)
            } else if chars_eq(t, fl.as_slice()) {
                float_tagged(value)
            } else {
                YamlScalarSemantic::Unknown
            }
        },
    }
}

/// With a tag the tag decides; without one, the style and the trimmed text.
pub fn scalar_semantic_with_tag_and_style(
    value: &[char],
    tag: Option<&[char]>,
    style: YamlScalarStyle,
) -> (r: YamlScalarSemantic)
    ensures
        tag is Some ==> r == spec_semantic_with_tag(
            value@,
            match tag {
                Some(t) => Some(t@),
                None => None,
            },
        ),
        tag is None ==> r == spec_semantic_for_style(spec_trim(value@), style),
{
    if tag.is_some() {
        scalar_semantic_with_tag(value, tag)
    } else {
        let t = trim(value);
        scalar_semantic_for_style(t.as_slice(), style)
    }
}

} // verus!
