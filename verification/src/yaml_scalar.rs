//! Decoding of single- and double-quoted YAML scalars.
use vstd::prelude::*;
use crate::text::{char_from_u32, hex_value, is_hex_digit, spec_hex_char, spec_hex_digit, spec_hex_upper, spec_hex_value};
use crate::yaml_quote::{spec_double_quoted, spec_dq_body, spec_dq_escape};
use crate::yaml_flow_quote::{
    spec_double_single_quotes, spec_emitter_decode, spec_flow_double, spec_flow_dq_body, spec_flow_dq_char,
    spec_flow_quote, spec_flow_single,
};
use crate::text::spec_control;

verus! {

/// Which multiline forms a caller accepts. The formatter keeps literal line
/// breaks in single-quoted scalars; validation rejects them; width planning
/// rejects escaped line continuations.
#[derive(Debug, Clone, Copy, PartialEq, Eq, Structural)]
pub enum DecodePolicy {
    Format,
    Width,
    Validation,
}

/// The value of `n` hexadecimal digits at `s[from..]`, if they are all
/// hexadecimal digits.
pub open spec fn spec_hex_run(s: Seq<char>, from: int, n: nat) -> Option<nat>
    decreases n,
{
    if n == 0 {
        Some(0)
    } else if from + n > s.len() || !spec_hex_digit(s[from + n - 1]) {
        None
    } else {
        match spec_hex_run(s, from, (n - 1) as nat) {
            Some(v) => Some(v * 16 + spec_hex_value(s[from + n - 1]) as nat),
            None => None,
        }
    }
}

pub open spec fn opt_prepend(p: Seq<char>, o: Option<Seq<char>>) -> Option<Seq<char>> {
    match o {
        Some(r) => Some(p + r),
        None => None,
    }
}

/// The character a one-character escape stands for.
pub open spec fn spec_simple_escape(e: char) -> Option<char> {
    if e == '0' {
        Some('\0')
    } else if e == 'a' {
        Some('\u{7}')
    } else if e == 'b' {
        Some('\u{8}')
    } else if e == 't' || e == '\t' {
        Some('\t')
    } else if e == 'n' {
        Some('\n')
    } else if e == 'v' {
        Some('\u{b}')
    } else if e == 'f' {
        Some('\u{c}')
    } else if e == 'r' {
        Some('\r')
    } else if e == 'e' {
        Some('\u{1b}')
    } else if e == '"' {
        Some('"')
    } else if e == '/' {
        Some('/')
    } else if e == '\\' {
        Some('\\')
    } else {
        None
    }
}

fn simple_escape(e: char) -> (r: Option<char>)
    ensures
        r == spec_simple_escape(e),
{
    if e == '0' {
        Some('\0')
    } else if e == 'a' {
        Some('\u{7}')
    } else if e == 'b' {
        Some('\u{8}')
    } else if e == 't' || e == '\t' {
        Some('\t')
    } else if e == 'n' {
        Some('\n')
    } else if e == 'v' {
        Some('\u{b}')
    } else if e == 'f' {
        Some('\u{c}')
    } else if e == 'r' {
        Some('\r')
    } else if e == 'e' {
        Some('\u{1b}')
    } else if e == '"' {
        Some('"')
    } else if e == '/' {
        Some('/')
    } else if e == '\\' {
        Some('\\')
    } else {
        None
    }
}

/// The number of hex digits of a `\x`, `\u` or `\U` escape.
pub open spec fn spec_hex_escape_digits(e: char) -> nat {
    if e == 'x' {
        2
    } else if e == 'u' {
        4
    } else if e == 'U' {
        8
    } else {
        0
    }
}

/// The first position at or after `from` that is not a space or tab.
pub open spec fn spec_skip_blanks(s: Seq<char>, from: int) -> int
    decreases s.len() - from,
{
    if from < 0 || from >= s.len() || !(s[from] == ' ' || s[from] == '\t') {
        from
    } else {
        spec_skip_blanks(s, from + 1)
    }
}

/// Decoding of the text between the quotes, from position `i` on.
pub open spec fn spec_decode_from(q: char, s: Seq<char>, policy: DecodePolicy, i: int) -> Option<
    Seq<char>,
>
    decreases s.len() - i, 1int,
{
    if i < 0 || i >= s.len() {
        Some(Seq::empty())
    } else {
        let ch = s[i];
        if q == '\'' && ch == '\'' {
            if i + 1 < s.len() && s[i + 1] == '\'' {
                opt_prepend(seq!['\''], spec_decode_from(q, s, policy, i + 2))
            } else {
                None
            }
        } else if q == '"' && ch == '\\' {
            if i + 1 >= s.len() {
                None
            } else {
                spec_decode_escape(q, s, policy, i, s[i + 1])
            }
        } else if (ch == '\r' || ch == '\n') && (q == '"' || policy == DecodePolicy::Validation) {
            None
        } else {
            opt_prepend(seq![ch], spec_decode_from(q, s, policy, i + 1))
        }
    }
}

/// Decoding of the escape `\e` found at `s[i]`.
pub open spec fn spec_decode_escape(
    q: char,
    s: Seq<char>,
    policy: DecodePolicy,
    i: int,
    e: char,
) -> Option<Seq<char>>
    decreases s.len() - i, 0int,
{
    if i < 0 || i + 1 >= s.len() {
        None
    } else if let Some(c) = spec_simple_escape(e) {
        opt_prepend(seq![c], spec_decode_from(q, s, policy, i + 2))
    } else if spec_hex_escape_digits(e) > 0 {
        let n = spec_hex_escape_digits(e);
        match spec_hex_run(s, i + 2, n) {
            Some(v) => if v <= u32::MAX && vstd::utf8::is_scalar(v as u32) {
                opt_prepend(seq![(v as u32) as char], spec_decode_from(q, s, policy, i + 2 + n))
            } else {
                None
            },
            None => None,
        }
    } else if (e == '\r' || e == '\n') && policy != DecodePolicy::Width {
        let j = if e == '\r' && i + 2 < s.len() && s[i + 2] == '\n' {
            i + 3
        } else {
            i + 2
        };
        spec_decode_after_blanks(q, s, policy, j)
    } else {
        None
    }
}

/// Decoding after skipping the spaces and tabs that follow an escaped line
/// break.
pub open spec fn spec_decode_after_blanks(q: char, s: Seq<char>, policy: DecodePolicy, j: int) -> Option<
    Seq<char>,
>
    decreases s.len() - j, 2int,
{
    if 0 <= j < s.len() && (s[j] == ' ' || s[j] == '\t') {
        spec_decode_after_blanks(q, s, policy, j + 1)
    } else {
        spec_decode_from(q, s, policy, j)
    }
}

/// A quoted scalar: an opening quote, the body and the same closing quote.
pub open spec fn spec_quote_of(raw: Seq<char>) -> Option<char> {
    if raw.len() >= 2 && (raw[0] == '\'' || raw[0] == '"') && raw.last() == raw[0] {
        Some(raw[0])
    } else {
        None
    }
}

/// The decoded value of a quoted scalar.
pub open spec fn spec_decode_quoted(raw: Seq<char>, policy: DecodePolicy) -> Option<Seq<char>> {
    match spec_quote_of(raw) {
        Some(q) => spec_decode_from(q, raw.subrange(1, raw.len() - 1), policy, 0),
        None => None,
    }
}

proof fn lemma_skip_blanks_bounds(s: Seq<char>, from: int)
    requires
        0 <= from,
    ensures
        from <= spec_skip_blanks(s, from),
        from <= s.len() ==> spec_skip_blanks(s, from) <= s.len(),
    decreases s.len() - from,
{
    if from < s.len() && (s[from] == ' ' || s[from] == '\t') {
        lemma_skip_blanks_bounds(s, from + 1);
    }
}

/// Reads `n` hexadecimal digits at `s[from..]`.
fn hex_run(s: &[char], from: usize, n: usize) -> (r: Option<u32>)
    requires
        0 < n <= 8,
    ensures
        match spec_hex_run(s@, from as int, n as nat) {
            Some(v) => r == Some(v as u32) && v <= u32::MAX,
            None => r is None,
        },
{
    let len = s.len();
    if from > len || n > len - from {
        proof {
            lemma_hex_run_short(s@, from as int, n as nat);
        }
        return None;
    }
    let mut value: u32 = 0;
    let mut k: usize = 0;
    while k < n
        invariant
            k <= n <= 8,
            from + n <= len == s@.len(),
            spec_hex_run(s@, from as int, k as nat) == Some(value as nat),
            value < pow16(k as nat),
        decreases n - k,
    {
        let c = s[from + k];
        if !is_hex_digit(c) {
            proof {
                lemma_hex_run_none_after(s@, from as int, (k + 1) as nat, n as nat);
            }
            return None;
        }
        let d = hex_value(c);
        proof {
            lemma_pow16_bound(k as nat);
            assert((value as nat) * 16 + (d as nat) <= 0xffff_ffff) by (nonlinear_arith)
                requires
                    value < pow16(k as nat),
                    pow16(k as nat) <= 0x1000_0000,
                    d < 16,
            ;
            assert((value as nat) * 16 + (d as nat) < pow16((k + 1) as nat)) by (nonlinear_arith)
                requires
                    value < pow16(k as nat),
                    pow16((k + 1) as nat) == pow16(k as nat) * 16,
                    d < 16,
            ;
        }
        value = value * 16 + d;
        k = k + 1;
    }
    Some(value)
}

spec fn pow16(n: nat) -> nat
    decreases n,
{
    if n == 0 {
        1
    } else {
        16 * pow16((n - 1) as nat)
    }
}

proof fn lemma_pow16_bound(k: nat)
    requires
        k < 8,
    ensures
        pow16(k) <= 0x1000_0000,
        pow16(k + 1) == pow16(k) * 16,
{
    reveal_with_fuel(pow16, 9);
}

proof fn lemma_hex_run_short(s: Seq<char>, from: int, n: nat)
    requires
        from + n > s.len(),
        n > 0 || from > s.len(),
    ensures
        spec_hex_run(s, from, n) is None || n == 0,
{
}

proof fn lemma_hex_run_none_after(s: Seq<char>, from: int, k: nat, n: nat)
    requires
        0 < k <= n,
        from + n <= s.len(),
        spec_hex_run(s, from, k) is None,
    ensures
        spec_hex_run(s, from, n) is None,
    decreases n - k,
{
    if k < n {
        lemma_hex_run_none_after(s, from, k + 1, n);
    }
}

proof fn lemma_prepend_step(acc: Seq<char>, step: Seq<char>, rest: Option<Seq<char>>)
    ensures
        opt_prepend(acc, opt_prepend(step, rest)) == opt_prepend(acc + step, rest),
{
    match rest {
        Some(x) => {
            assert(acc + (step + x) =~= (acc + step) + x);
        },
        None => {},
    }
}

/// Appends the decoded value of the quoted scalar `raw` to `out`; returns
/// whether `raw` is a well-formed quoted scalar for `policy`.
#[verifier::rlimit(30)]
pub fn decode_quoted_chars(raw: &[char], policy: DecodePolicy, out: &mut Vec<char>) -> (ok: bool)
    ensures
        ok == spec_decode_quoted(raw@, policy) is Some,
        ok ==> final(out)@ == old(out)@ + spec_decode_quoted(raw@, policy)->0,
{
    let n = raw.len();
    if n < 2 || !(raw[0] == '\'' || raw[0] == '"') || raw[n - 1] != raw[0] {
        return false;
    }
    let q = raw[0];
    let ghost s = raw@.subrange(1, n - 1);
    let end = n - 1;
    let mut i: usize = 1;
    let ghost start_out = out@;
    let ghost mut acc: Seq<char> = Seq::empty();
    assert(opt_prepend(acc, spec_decode_from(q, s, policy, 0)) =~= spec_decode_from(q, s, policy, 0)) by {
        match spec_decode_from(q, s, policy, 0) {
            Some(x) => { assert(acc + x =~= x); },
            None => {},
        }
    }
    while i < end
        invariant
            1 <= i,
            end == n - 1,
            n == raw@.len(),
            s == raw@.subrange(1, n - 1),
            spec_decode_from(q, s, policy, 0) == opt_prepend(acc, spec_decode_from(q, s, policy, i - 1)),
            out@ == start_out + acc,
        decreases end - i,
    {
        let ch = raw[i];
        assert(s[i - 1] == ch);
        if q == '\'' && ch == '\'' {
            if i + 1 < end && raw[i + 1] == '\'' {
                out.push('\'');
                proof {
                    assert(s[i as int] == '\'');
                    lemma_prepend_step(acc, seq!['\''], spec_decode_from(q, s, policy, i + 1));
                    acc = acc + seq!['\''];
                }
                i = i + 2;
            } else {
                return false;
            }
        } else if q == '"' && ch == '\\' {
            if i + 1 >= end {
                return false;
            }
            let e = raw[i + 1];
            assert(s[i as int] == e);
            match simple_escape(e) {
                Some(c) => {
                    out.push(c);
                    proof {
                        assert(spec_decode_from(q, s, policy, i - 1) == opt_prepend(seq![c], spec_decode_from(q, s, policy, i + 1)));
                        lemma_prepend_step(acc, seq![c], spec_decode_from(q, s, policy, i + 1));
                        acc = acc + seq![c];
                    }
                    i = i + 2;
                },
                None => {
                    let digits: usize = if e == 'x' {
                        2
                    } else if e == 'u' {
                        4
                    } else if e == 'U' {
                        8
                    } else {
                        0
                    };
                    assert(spec_hex_escape_digits(e) == digits);
                    if digits > 0 {
                        let r = hex_run(raw, i + 2, digits);
                        if digits > end - i - 2 {
                            proof {
                                assert(spec_hex_run(s, (i + 1) as int, digits as nat) is None);
                                assert(spec_decode_escape(q, s, policy, i - 1, e) is None);
                            }
                            return false;
                        }
                        proof {
                            lemma_hex_run_window(raw@, s, n as int, (i - 1) as int, digits as nat);
                        }
                        match r {
                            Some(v) => {
                                match char_from_u32(v) {
                                    Some(c) => {
                                        out.push(c);
                                        proof {
                                            vstd::utf8::char_u32_cast(c, v);
                                            assert(spec_decode_escape(q, s, policy, i - 1, e) == opt_prepend(seq![c], spec_decode_from(q, s, policy, (i + 1 + digits) as int)));
                                            lemma_prepend_step(acc, seq![c], spec_decode_from(q, s, policy, (i + 1 + digits) as int));
                                            acc = acc + seq![c];
                                        }
                                        i = i + 2 + digits;
                                    },
                                    None => {
                                        proof {
                                            assert(spec_decode_escape(q, s, policy, i - 1, e) is None);
                                        }
                                        return false;
                                    },
                                }
                            },
                            None => {
                                return false;
                            },
                        }
                    } else if (e == '\r' || e == '\n') && policy != DecodePolicy::Width {
                        let mut j = if e == '\r' && i + 2 < end && raw[i + 2] == '\n' {
                            i + 3
                        } else {
                            i + 2
                        };
                        let ghost j0 = (j - 1) as int;
                        assert(spec_decode_escape(q, s, policy, i - 1, e) == spec_decode_after_blanks(q, s, policy, j0));
                        while j < end && (raw[j] == ' ' || raw[j] == '\t')
                            invariant
                                i + 2 <= j <= end,
                                spec_decode_after_blanks(q, s, policy, j - 1) == spec_decode_after_blanks(q, s, policy, j0),
                            decreases end - j,
                        {
                            j = j + 1;
                        }
                        proof {
                            lemma_prepend_step(acc, Seq::empty(), spec_decode_from(q, s, policy, j - 1));
                            assert(acc + Seq::<char>::empty() =~= acc);
                        }
                        i = j;
                    } else {
                        return false;
                    }
                },
            }
        } else if (ch == '\r' || ch == '\n') && (q == '"' || policy == DecodePolicy::Validation) {
            return false;
        } else {
            out.push(ch);
            proof {
                lemma_prepend_step(acc, seq![ch], spec_decode_from(q, s, policy, i as int));
                acc = acc + seq![ch];
            }
            i = i + 1;
        }
    }
    proof {
        assert(spec_decode_from(q, s, policy, i - 1) == Some(Seq::<char>::empty()));
        assert(acc + Seq::<char>::empty() =~= acc);
    }
    true
}

proof fn lemma_hex_run_window(raw: Seq<char>, s: Seq<char>, n: int, at: int, k: nat)
    requires
        n == raw.len(),
        n >= 2,
        s == raw.subrange(1, n - 1),
        0 <= at,
        at + 2 + k <= n - 2,
    ensures
        spec_hex_run(raw, at + 3, k) == spec_hex_run(s, at + 2, k),
    decreases k,
{
    if k > 0 {
        lemma_hex_run_window(raw, s, n, at, (k - 1) as nat);
    }
}

/// The decoded value of a quoted scalar, or `None` when `raw` is not a
/// well-formed quoted scalar for `policy`.
pub fn decode_quoted(raw: &[char], policy: DecodePolicy) -> (r: Option<Vec<char>>)
    ensures
        match r {
            Some(v) => spec_decode_quoted(raw@, policy) == Some(v@),
            None => spec_decode_quoted(raw@, policy) is None,
        },
{
    let mut out: Vec<char> = Vec::new();
    if decode_quoted_chars(raw, policy, &mut out) {
        assert(out@ =~= spec_decode_quoted(raw@, policy)->0);
        Some(out)
    } else {
        None
    }
}


proof fn lemma_hex_char_digit(d: u32)
    requires
        d < 16,
    ensures
        spec_hex_digit(spec_hex_char(d)),
        spec_hex_value(spec_hex_char(d)) == d,
{
}

proof fn lemma_hex_upper_run(v: nat, n: nat, t: Seq<char>)
    requires
        1 <= n <= 8,
        v < pow16(n),
    ensures
        spec_hex_upper(v, n).len() == n,
        spec_hex_run(spec_hex_upper(v, n) + t, 0, n) == Some(v),
    decreases n,
{
    reveal_with_fuel(pow16, 2);
    if n == 1 {
        lemma_hex_char_digit(v as u32);
        assert((spec_hex_upper(v, n) + t)[0] == spec_hex_char(v as u32));
        reveal_with_fuel(spec_hex_run, 2);
    } else {
        let h = spec_hex_upper(v / 16, (n - 1) as nat);
        assert(v / 16 < pow16((n - 1) as nat)) by (nonlinear_arith)
            requires
                v < pow16(n),
                pow16(n) == 16 * pow16((n - 1) as nat),
        ;
        lemma_hex_upper_run(v / 16, (n - 1) as nat, seq![spec_hex_char((v % 16) as u32)] + t);
        assert(spec_hex_upper(v, n) == h.push(spec_hex_char((v % 16) as u32)));
        assert(spec_hex_upper(v, n) + t =~= h + (seq![spec_hex_char((v % 16) as u32)] + t));
        lemma_hex_char_digit((v % 16) as u32);
        assert((spec_hex_upper(v, n) + t)[n - 1] == spec_hex_char((v % 16) as u32));
        assert(v == (v / 16) * 16 + v % 16) by (nonlinear_arith);
    }
}


proof fn lemma_hex_run_shift(x: Seq<char>, t: Seq<char>, j: int, n: nat)
    requires
        0 <= j,
    ensures
        spec_hex_run(x + t, x.len() + j, n) == spec_hex_run(t, j, n),
    decreases n,
{
    if n > 0 {
        lemma_hex_run_shift(x, t, j, (n - 1) as nat);
        if j + n <= t.len() {
            assert((x + t)[x.len() + j + n - 1] == t[j + n - 1]);
        }
    }
}

/// Decoding from a position depends only on the text from there on.
proof fn lemma_decode_from_shift(q: char, x: Seq<char>, t: Seq<char>, p: DecodePolicy, j: int)
    requires
        0 <= j,
    ensures
        spec_decode_from(q, x + t, p, x.len() + j) == spec_decode_from(q, t, p, j),
    decreases t.len() - j, 1int,
{
    let s = x + t;
    let i = x.len() + j;
    if j < t.len() {
        assert(s[i] == t[j]);
        if j + 1 < t.len() {
            assert(s[i + 1] == t[j + 1]);
        }
        let ch = t[j];
        if q == '\'' && ch == '\'' {
            if j + 1 < t.len() && t[j + 1] == '\'' {
                lemma_decode_from_shift(q, x, t, p, j + 2);
            }
        } else if q == '"' && ch == '\\' {
            if j + 1 < t.len() {
                lemma_decode_escape_shift(q, x, t, p, j, t[j + 1]);
            }
        } else if (ch == '\r' || ch == '\n') && (q == '"' || p == DecodePolicy::Validation) {
        } else {
            lemma_decode_from_shift(q, x, t, p, j + 1);
        }
    }
}

proof fn lemma_decode_escape_shift(q: char, x: Seq<char>, t: Seq<char>, p: DecodePolicy, j: int, e: char)
    requires
        0 <= j,
        j + 1 < t.len(),
    ensures
        spec_decode_escape(q, x + t, p, x.len() + j, e) == spec_decode_escape(q, t, p, j, e),
    decreases t.len() - j, 0int,
{
    let s = x + t;
    let i = x.len() + j;
    if let Some(c) = spec_simple_escape(e) {
        lemma_decode_from_shift(q, x, t, p, j + 2);
    } else if spec_hex_escape_digits(e) > 0 {
        let n = spec_hex_escape_digits(e);
        lemma_hex_run_shift(x, t, j + 2, n);
        if j + 2 + n <= t.len() {
            lemma_decode_from_shift(q, x, t, p, j + 2 + n);
        }
    } else if (e == '\r' || e == '\n') && p != DecodePolicy::Width {
        if j + 2 < t.len() {
            assert(s[i + 2] == t[j + 2]);
        }
        let k = if e == '\r' && j + 2 < t.len() && t[j + 2] == '\n' {
            j + 3
        } else {
            j + 2
        };
        lemma_decode_after_blanks_shift(q, x, t, p, k);
    }
}

proof fn lemma_decode_after_blanks_shift(q: char, x: Seq<char>, t: Seq<char>, p: DecodePolicy, j: int)
    requires
        0 <= j <= t.len(),
    ensures
        spec_decode_after_blanks(q, x + t, p, x.len() + j) == spec_decode_after_blanks(q, t, p, j),
    decreases t.len() - j, 2int,
{
    let s = x + t;
    if j < t.len() {
        assert(s[x.len() + j] == t[j]);
        if t[j] == ' ' || t[j] == '\t' {
            lemma_decode_after_blanks_shift(q, x, t, p, j + 1);
        } else {
            lemma_decode_from_shift(q, x, t, p, j);
        }
    } else {
        lemma_decode_from_shift(q, x, t, p, j);
    }
}


/// The characters that a double-quoted rendering writes with an escape that
/// the decoder does not read back: `\N`, `\_`, `\L` and `\P`.
pub open spec fn spec_named_space_escape(c: char) -> bool {
    c == '\u{85}' || c == '\u{a0}' || c == '\u{2028}' || c == '\u{2029}'
}

proof fn lemma_hex_escape_decodes(c: char, e: char, n: nat, t: Seq<char>, p: DecodePolicy)
    requires
        spec_simple_escape(e) is None,
        spec_hex_escape_digits(e) == n,
        n == 2 || n == 4,
        (c as nat) < pow16(n),
    ensures
        spec_decode_from('"', (seq!['\\', e] + spec_hex_upper(c as nat, n)) + t, p, 0) == opt_prepend(
            seq![c],
            spec_decode_from('"', t, p, 0),
        ),
{
    let h = spec_hex_upper(c as nat, n);
    let a = seq!['\\', e] + h;
    let s = a + t;
    lemma_hex_upper_run(c as nat, n, t);
    assert(s =~= seq!['\\', e] + (h + t));
    lemma_hex_run_shift(seq!['\\', e], h + t, 0, n);
    assert(spec_hex_run(s, 2, n) == Some(c as nat));
    vstd::utf8::char_is_scalar(c);
    vstd::utf8::char_u32_cast(c, c as u32);
    assert(s[0] == '\\' && s[1] == e);
    assert(spec_decode_escape('"', s, p, 0, e) == opt_prepend(seq![c], spec_decode_from('"', s, p, 2 + n as int)));
    lemma_decode_from_shift('"', a, t, p, 0);
}

proof fn lemma_simple_escape_decodes(c: char, e: char, t: Seq<char>, p: DecodePolicy)
    requires
        spec_simple_escape(e) == Some(c),
    ensures
        spec_decode_from('"', seq!['\\', e] + t, p, 0) == opt_prepend(seq![c], spec_decode_from('"', t, p, 0)),
{
    let s = seq!['\\', e] + t;
    assert(s[0] == '\\' && s[1] == e);
    assert(spec_decode_from('"', s, p, 0) == spec_decode_escape('"', s, p, 0, e));
    assert(spec_decode_escape('"', s, p, 0, e) == opt_prepend(seq![c], spec_decode_from('"', s, p, 2)));
    lemma_decode_from_shift('"', seq!['\\', e], t, p, 0);
}

/// One escaped character decodes back to itself.
proof fn lemma_dq_escape_decodes(c: char, t: Seq<char>, p: DecodePolicy)
    requires
        !spec_named_space_escape(c),
    ensures
        spec_decode_from('"', spec_dq_escape(c) + t, p, 0) == opt_prepend(seq![c], spec_decode_from('"', t, p, 0)),
{
    reveal_with_fuel(pow16, 5);
    if c == '\0' {
        lemma_simple_escape_decodes(c, '0', t, p);
    } else if c == '\u{7}' {
        lemma_simple_escape_decodes(c, 'a', t, p);
    } else if c == '\u{8}' {
        lemma_simple_escape_decodes(c, 'b', t, p);
    } else if c == '\t' {
        lemma_simple_escape_decodes(c, 't', t, p);
    } else if c == '\n' {
        lemma_simple_escape_decodes(c, 'n', t, p);
    } else if c == '\u{b}' {
        lemma_simple_escape_decodes(c, 'v', t, p);
    } else if c == '\u{c}' {
        lemma_simple_escape_decodes(c, 'f', t, p);
    } else if c == '\r' {
        lemma_simple_escape_decodes(c, 'r', t, p);
    } else if c == '\u{1b}' {
        lemma_simple_escape_decodes(c, 'e', t, p);
    } else if c == '"' {
        lemma_simple_escape_decodes(c, '"', t, p);
    } else if c == '\\' {
        lemma_simple_escape_decodes(c, '\\', t, p);
    } else if '\u{7f}' <= c && c <= '\u{9f}' {
        lemma_hex_escape_decodes(c, 'x', 2, t, p);
    } else if c == '\u{fffe}' || c == '\u{ffff}' || c <= '\u{1f}' {
        lemma_hex_escape_decodes(c, 'u', 4, t, p);
    } else {
        let s = seq![c] + t;
        assert(s[0] == c);
        lemma_decode_from_shift('"', seq![c], t, p, 0);
    }
}

proof fn lemma_dq_body_decodes(v: Seq<char>, t: Seq<char>, p: DecodePolicy)
    requires
        forall|k: int| 0 <= k < v.len() ==> !spec_named_space_escape(#[trigger] v[k]),
    ensures
        spec_decode_from('"', spec_dq_body(v) + t, p, 0) == opt_prepend(v, spec_decode_from('"', t, p, 0)),
    decreases v.len(),
{
    if v.len() == 0 {
        assert(spec_dq_body(v) + t =~= t);
        match spec_decode_from('"', t, p, 0) {
            Some(r) => { assert(v + r =~= r); },
            None => {},
        }
    } else {
        let c = v.last();
        let w = v.drop_last();
        let a = spec_dq_escape(c);
        assert(spec_dq_body(v) + t =~= spec_dq_body(w) + (a + t));
        lemma_dq_body_decodes(w, a + t, p);
        lemma_dq_escape_decodes(c, t, p);
        lemma_prepend_step(w, seq![c], spec_decode_from('"', t, p, 0));
        assert(w + seq![c] =~= v);
    }
}

/// Decoding a double-quoted rendering gives back the value, whatever the
/// decoding policy, for every value without U+0085, U+00A0, U+2028 or
/// U+2029 (whose `\N`, `\_`, `\L` and `\P` escapes the decoder rejects).
pub proof fn lemma_double_quoted_round_trip(v: Seq<char>, policy: DecodePolicy)
    requires
        forall|k: int| 0 <= k < v.len() ==> !spec_named_space_escape(#[trigger] v[k]),
    ensures
        spec_decode_quoted(spec_double_quoted(v), policy) == Some(v),
{
    let raw = spec_double_quoted(v);
    let body = spec_dq_body(v);
    assert(raw.len() >= 2 && raw[0] == '"' && raw.last() == '"');
    assert(raw.subrange(1, raw.len() - 1) =~= body + Seq::<char>::empty());
    lemma_dq_body_decodes(v, Seq::empty(), policy);
    assert(v + Seq::<char>::empty() =~= v);
}

/// One character of the flow double-quoted form decodes back to itself.
proof fn lemma_flow_dq_char_decodes(c: char, t: Seq<char>, p: DecodePolicy)
    ensures
        spec_decode_from('"', spec_flow_dq_char(c) + t, p, 0) == opt_prepend(seq![c], spec_decode_from('"', t, p, 0)),
{
    reveal_with_fuel(pow16, 3);
    if c == '\0' {
        lemma_simple_escape_decodes(c, '0', t, p);
    } else if c == '\u{7}' {
        lemma_simple_escape_decodes(c, 'a', t, p);
    } else if c == '\u{8}' {
        lemma_simple_escape_decodes(c, 'b', t, p);
    } else if c == '\t' {
        lemma_simple_escape_decodes(c, 't', t, p);
    } else if c == '\n' {
        lemma_simple_escape_decodes(c, 'n', t, p);
    } else if c == '\u{b}' {
        lemma_simple_escape_decodes(c, 'v', t, p);
    } else if c == '\u{c}' {
        lemma_simple_escape_decodes(c, 'f', t, p);
    } else if c == '\r' {
        lemma_simple_escape_decodes(c, 'r', t, p);
    } else if c == '\u{1b}' {
        lemma_simple_escape_decodes(c, 'e', t, p);
    } else if c == '"' {
        lemma_simple_escape_decodes(c, '"', t, p);
    } else if c == '\\' {
        lemma_simple_escape_decodes(c, '\\', t, p);
    } else if spec_control(c) {
        lemma_hex_escape_decodes(c, 'x', 2, t, p);
    } else {
        let s = seq![c] + t;
        assert(s[0] == c);
        lemma_decode_from_shift('"', seq![c], t, p, 0);
    }
}

proof fn lemma_flow_dq_body_decodes(v: Seq<char>, t: Seq<char>, p: DecodePolicy)
    ensures
        spec_decode_from('"', spec_flow_dq_body(v) + t, p, 0) == opt_prepend(v, spec_decode_from('"', t, p, 0)),
    decreases v.len(),
{
    if v.len() == 0 {
        assert(spec_flow_dq_body(v) + t =~= t);
        match spec_decode_from('"', t, p, 0) {
            Some(r) => { assert(v + r =~= r); },
            None => {},
        }
    } else {
        let c = v.last();
        let w = v.drop_last();
        let a = spec_flow_dq_char(c);
        assert(spec_flow_dq_body(v) + t =~= spec_flow_dq_body(w) + (a + t));
        lemma_flow_dq_body_decodes(w, a + t, p);
        lemma_flow_dq_char_decodes(c, t, p);
        lemma_prepend_step(w, seq![c], spec_decode_from('"', t, p, 0));
        assert(w + seq![c] =~= v);
    }
}

/// Decoding the flow double-quoted form of a value gives the value back,
/// whatever the decoding policy and whatever the value.
pub proof fn lemma_flow_double_round_trip(v: Seq<char>, policy: DecodePolicy)
    ensures
        spec_decode_quoted(spec_flow_double(v), policy) == Some(v),
{
    let raw = spec_flow_double(v);
    let body = spec_flow_dq_body(v);
    assert(raw.len() >= 2 && raw[0] == '"' && raw.last() == '"');
    assert(raw.subrange(1, raw.len() - 1) =~= body + Seq::<char>::empty());
    lemma_flow_dq_body_decodes(v, Seq::empty(), policy);
    assert(v + Seq::<char>::empty() =~= v);
}

proof fn lemma_single_body_decodes(v: Seq<char>, t: Seq<char>, p: DecodePolicy)
    requires
        p != DecodePolicy::Validation,
    ensures
        spec_decode_from('\'', spec_double_single_quotes(v) + t, p, 0) == opt_prepend(
            v,
            spec_decode_from('\'', t, p, 0),
        ),
    decreases v.len(),
{
    if v.len() == 0 {
        assert(spec_double_single_quotes(v) + t =~= t);
        match spec_decode_from('\'', t, p, 0) {
            Some(r) => { assert(v + r =~= r); },
            None => {},
        }
    } else {
        let c = v.last();
        let w = v.drop_last();
        let a = if c == '\'' {
            seq!['\'', '\'']
        } else {
            seq![c]
        };
        assert(spec_double_single_quotes(v) + t =~= spec_double_single_quotes(w) + (a + t));
        lemma_single_body_decodes(w, a + t, p);
        let s = a + t;
        assert(s[0] == c);
        if c == '\'' {
            assert(s[1] == '\'');
            lemma_decode_from_shift('\'', a, t, p, 0);
        } else {
            lemma_decode_from_shift('\'', a, t, p, 0);
        }
        assert(spec_decode_from('\'', a + t, p, 0) == opt_prepend(seq![c], spec_decode_from('\'', t, p, 0)));
        lemma_prepend_step(w, seq![c], spec_decode_from('\'', t, p, 0));
        assert(w + seq![c] =~= v);
    }
}

/// Decoding the flow single-quoted form of a value, as the formatter and
/// width planning decode it, gives the value back.
pub proof fn lemma_flow_single_round_trip(v: Seq<char>, policy: DecodePolicy)
    requires
        policy != DecodePolicy::Validation,
    ensures
        spec_decode_quoted(spec_flow_single(v), policy) == Some(v),
{
    let raw = spec_flow_single(v);
    let body = spec_double_single_quotes(v);
    assert(raw.len() >= 2 && raw[0] == '\'' && raw.last() == '\'');
    assert(raw.subrange(1, raw.len() - 1) =~= body + Seq::<char>::empty());
    lemma_single_body_decodes(v, Seq::empty(), policy);
    assert(v + Seq::<char>::empty() =~= v);
}

/// Decoding, as the emitter does, the quoting a flow collection gives a
/// value yields the value back, for every value.
pub proof fn lemma_flow_quote_round_trip(v: Seq<char>)
    ensures
        spec_emitter_decode(spec_flow_quote(v)) == Some(v),
{
    lemma_flow_double_round_trip(v, DecodePolicy::Width);
    lemma_flow_single_round_trip(v, DecodePolicy::Format);
    let d = spec_flow_double(v);
    let s = spec_flow_single(v);
    assert(d[0] == '"');
    assert(s[0] == '\'');
}

/// The one-character escapes of a double-quoted scalar decode to the
/// characters YAML 1.2 assigns them, whatever follows and whatever the
/// policy: `\0` NUL, `\a` bell, `\b` backspace, `\t` and a tab tab, `\n`
/// line feed, `\v` vertical tab, `\f` form feed, `\r` carriage return,
/// `\e` escape, `\"` quote, `\/` slash and `\\` backslash.
#[verifier::rlimit(50)]
#[verifier::spinoff_prover]
pub proof fn lemma_yaml_escapes_decode()
    ensures
        forall|t: Seq<char>, p: DecodePolicy| #![trigger spec_decode_from('"', t, p, 0)] spec_decode_from('"', seq!['\\', '0'] + t, p, 0) == opt_prepend(
            seq!['\0'],
            spec_decode_from('"', t, p, 0),
        ),
        forall|t: Seq<char>, p: DecodePolicy| #![trigger spec_decode_from('"', t, p, 0)] spec_decode_from('"', seq!['\\', 'a'] + t, p, 0) == opt_prepend(
            seq!['\u{7}'],
            spec_decode_from('"', t, p, 0),
        ),
        forall|t: Seq<char>, p: DecodePolicy| #![trigger spec_decode_from('"', t, p, 0)] spec_decode_from('"', seq!['\\', 'b'] + t, p, 0) == opt_prepend(
            seq!['\u{8}'],
            spec_decode_from('"', t, p, 0),
        ),
        forall|t: Seq<char>, p: DecodePolicy| #![trigger spec_decode_from('"', t, p, 0)] spec_decode_from('"', seq!['\\', 't'] + t, p, 0) == opt_prepend(
            seq!['\t'],
            spec_decode_from('"', t, p, 0),
        ),
        forall|t: Seq<char>, p: DecodePolicy| #![trigger spec_decode_from('"', t, p, 0)] spec_decode_from('"', seq!['\\', '\t'] + t, p, 0) == opt_prepend(
            seq!['\t'],
            spec_decode_from('"', t, p, 0),
        ),
        forall|t: Seq<char>, p: DecodePolicy| #![trigger spec_decode_from('"', t, p, 0)] spec_decode_from('"', seq!['\\', 'n'] + t, p, 0) == opt_prepend(
            seq!['\n'],
            spec_decode_from('"', t, p, 0),
        ),
        forall|t: Seq<char>, p: DecodePolicy| #![trigger spec_decode_from('"', t, p, 0)] spec_decode_from('"', seq!['\\', 'v'] + t, p, 0) == opt_prepend(
            seq!['\u{b}'],
            spec_decode_from('"', t, p, 0),
        ),
        forall|t: Seq<char>, p: DecodePolicy| #![trigger spec_decode_from('"', t, p, 0)] spec_decode_from('"', seq!['\\', 'f'] + t, p, 0) == opt_prepend(
            seq!['\u{c}'],
            spec_decode_from('"', t, p, 0),
        ),
        forall|t: Seq<char>, p: DecodePolicy| #![trigger spec_decode_from('"', t, p, 0)] spec_decode_from('"', seq!['\\', 'r'] + t, p, 0) == opt_prepend(
            seq!['\r'],
            spec_decode_from('"', t, p, 0),
        ),
        forall|t: Seq<char>, p: DecodePolicy| #![trigger spec_decode_from('"', t, p, 0)] spec_decode_from('"', seq!['\\', 'e'] + t, p, 0) == opt_prepend(
            seq!['\u{1b}'],
            spec_decode_from('"', t, p, 0),
        ),
        forall|t: Seq<char>, p: DecodePolicy| #![trigger spec_decode_from('"', t, p, 0)] spec_decode_from('"', seq!['\\', '"'] + t, p, 0) == opt_prepend(
            seq!['"'],
            spec_decode_from('"', t, p, 0),
        ),
        forall|t: Seq<char>, p: DecodePolicy| #![trigger spec_decode_from('"', t, p, 0)] spec_decode_from('"', seq!['\\', '/'] + t, p, 0) == opt_prepend(
            seq!['/'],
            spec_decode_from('"', t, p, 0),
        ),
        forall|t: Seq<char>, p: DecodePolicy| #![trigger spec_decode_from('"', t, p, 0)] spec_decode_from('"', seq!['\\', '\\'] + t, p, 0) == opt_prepend(
            seq!['\\'],
            spec_decode_from('"', t, p, 0),
        ),
{
    assert(spec_simple_escape('0') == Some('\0'));
    assert(spec_simple_escape('a') == Some('\u{7}'));
    assert(spec_simple_escape('b') == Some('\u{8}'));
    assert(spec_simple_escape('t') == Some('\t'));
    assert(spec_simple_escape('\t') == Some('\t'));
    assert(spec_simple_escape('n') == Some('\n'));
    assert(spec_simple_escape('v') == Some('\u{b}'));
    assert(spec_simple_escape('f') == Some('\u{c}'));
    assert(spec_simple_escape('r') == Some('\r'));
    assert(spec_simple_escape('e') == Some('\u{1b}'));
    assert(spec_simple_escape('"') == Some('"'));
    assert(spec_simple_escape('/') == Some('/'));
    assert(spec_simple_escape('\\') == Some('\\'));
    assert forall|t: Seq<char>, p: DecodePolicy| #![trigger spec_decode_from('"', t, p, 0)] spec_decode_from('"', seq!['\\', '0'] + t, p, 0) == opt_prepend(
        seq!['\0'],
        spec_decode_from('"', t, p, 0),
    ) by {
        lemma_simple_escape_decodes('\0', '0', t, p);
    }
    assert forall|t: Seq<char>, p: DecodePolicy| #![trigger spec_decode_from('"', t, p, 0)] spec_decode_from('"', seq!['\\', 'a'] + t, p, 0) == opt_prepend(
        seq!['\u{7}'],
        spec_decode_from('"', t, p, 0),
    ) by {
        lemma_simple_escape_decodes('\u{7}', 'a', t, p);
    }
    assert forall|t: Seq<char>, p: DecodePolicy| #![trigger spec_decode_from('"', t, p, 0)] spec_decode_from('"', seq!['\\', 'b'] + t, p, 0) == opt_prepend(
        seq!['\u{8}'],
        spec_decode_from('"', t, p, 0),
    ) by {
        lemma_simple_escape_decodes('\u{8}', 'b', t, p);
    }
    assert forall|t: Seq<char>, p: DecodePolicy| #![trigger spec_decode_from('"', t, p, 0)] spec_decode_from('"', seq!['\\', 't'] + t, p, 0) == opt_prepend(
        seq!['\t'],
        spec_decode_from('"', t, p, 0),
    ) by {
        lemma_simple_escape_decodes('\t', 't', t, p);
    }
    assert forall|t: Seq<char>, p: DecodePolicy| #![trigger spec_decode_from('"', t, p, 0)] spec_decode_from('"', seq!['\\', '\t'] + t, p, 0) == opt_prepend(
        seq!['\t'],
        spec_decode_from('"', t, p, 0),
    ) by {
        lemma_simple_escape_decodes('\t', '\t', t, p);
    }
    assert forall|t: Seq<char>, p: DecodePolicy| #![trigger spec_decode_from('"', t, p, 0)] spec_decode_from('"', seq!['\\', 'n'] + t, p, 0) == opt_prepend(
        seq!['\n'],
        spec_decode_from('"', t, p, 0),
    ) by {
        lemma_simple_escape_decodes('\n', 'n', t, p);
    }
    assert forall|t: Seq<char>, p: DecodePolicy| #![trigger spec_decode_from('"', t, p, 0)] spec_decode_from('"', seq!['\\', 'v'] + t, p, 0) == opt_prepend(
        seq!['\u{b}'],
        spec_decode_from('"', t, p, 0),
    ) by {
        lemma_simple_escape_decodes('\u{b}', 'v', t, p);
    }
    assert forall|t: Seq<char>, p: DecodePolicy| #![trigger spec_decode_from('"', t, p, 0)] spec_decode_from('"', seq!['\\', 'f'] + t, p, 0) == opt_prepend(
        seq!['\u{c}'],
        spec_decode_from('"', t, p, 0),
    ) by {
        lemma_simple_escape_decodes('\u{c}', 'f', t, p);
    }
    assert forall|t: Seq<char>, p: DecodePolicy| #![trigger spec_decode_from('"', t, p, 0)] spec_decode_from('"', seq!['\\', 'r'] + t, p, 0) == opt_prepend(
        seq!['\r'],
        spec_decode_from('"', t, p, 0),
    ) by {
        lemma_simple_escape_decodes('\r', 'r', t, p);
    }
    assert forall|t: Seq<char>, p: DecodePolicy| #![trigger spec_decode_from('"', t, p, 0)] spec_decode_from('"', seq!['\\', 'e'] + t, p, 0) == opt_prepend(
        seq!['\u{1b}'],
        spec_decode_from('"', t, p, 0),
    ) by {
        lemma_simple_escape_decodes('\u{1b}', 'e', t, p);
    }
    assert forall|t: Seq<char>, p: DecodePolicy| #![trigger spec_decode_from('"', t, p, 0)] spec_decode_from('"', seq!['\\', '"'] + t, p, 0) == opt_prepend(
        seq!['"'],
        spec_decode_from('"', t, p, 0),
    ) by {
        lemma_simple_escape_decodes('"', '"', t, p);
    }
    assert forall|t: Seq<char>, p: DecodePolicy| #![trigger spec_decode_from('"', t, p, 0)] spec_decode_from('"', seq!['\\', '/'] + t, p, 0) == opt_prepend(
        seq!['/'],
        spec_decode_from('"', t, p, 0),
    ) by {
        lemma_simple_escape_decodes('/', '/', t, p);
    }
    assert forall|t: Seq<char>, p: DecodePolicy| #![trigger spec_decode_from('"', t, p, 0)] spec_decode_from('"', seq!['\\', '\\'] + t, p, 0) == opt_prepend(
        seq!['\\'],
        spec_decode_from('"', t, p, 0),
    ) by {
        lemma_simple_escape_decodes('\\', '\\', t, p);
    }
}

/// A double-quoted scalar holding one escape decodes to that escape's
/// character; for `\/`, a slash.
pub proof fn lemma_escaped_slash_scalar(p: DecodePolicy)
    ensures
        spec_decode_quoted(seq!['"', '\\', '/', '"'], p) == Some(seq!['/']),
{
    assert(spec_simple_escape('/') == Some('/'));
    let raw = seq!['"', '\\', '/', '"'];
    assert(raw.subrange(1, raw.len() - 1) =~= seq!['\\', '/'] + Seq::<char>::empty());
    lemma_simple_escape_decodes('/', '/', Seq::empty(), p);
    assert(seq!['/'] + Seq::<char>::empty() =~= seq!['/']);
}

} // verus!
