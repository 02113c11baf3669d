//! Character classes, slices and small string builders shared by every
//! module. Text is handled as sequences of `char`; positions are character
//! positions.
use vstd::prelude::*;

verus! {

/// `char::is_ascii_whitespace`: space, tab, line feed, form feed, carriage return.
pub open spec fn spec_ascii_ws(c: char) -> bool {
    c == ' ' || c == '\t' || c == '\n' || c == '\x0C' || c == '\r'
}

/// `char::is_whitespace`: the Unicode `White_Space` property.
pub open spec fn spec_ws(c: char) -> bool {
    ('\t' <= c && c <= '\r') || c == ' ' || c == '\u{85}' || c == '\u{a0}' || c == '\u{1680}'
        || ('\u{2000}' <= c && c <= '\u{200a}') || c == '\u{2028}' || c == '\u{2029}'
        || c == '\u{202f}' || c == '\u{205f}' || c == '\u{3000}'
}

/// `char::is_control`: the general category `Cc`.
pub open spec fn spec_control(c: char) -> bool {
    c <= '\u{1f}' || ('\u{7f}' <= c && c <= '\u{9f}')
}

pub open spec fn spec_digit(c: char) -> bool {
    '0' <= c && c <= '9'
}

pub open spec fn spec_hex_digit(c: char) -> bool {
    spec_digit(c) || ('a' <= c && c <= 'f') || ('A' <= c && c <= 'F')
}

pub open spec fn spec_alpha(c: char) -> bool {
    ('a' <= c && c <= 'z') || ('A' <= c && c <= 'Z')
}

pub fn is_ascii_ws(c: char) -> (r: bool)
    ensures
        r == spec_ascii_ws(c),
{
    c == ' ' || c == '\t' || c == '\n' || c == '\x0C' || c == '\r'
}

pub fn is_ws(c: char) -> (r: bool)
    ensures
        r == spec_ws(c),
{
    ('\t' <= c && c <= '\r') || c == ' ' || c == '\u{85}' || c == '\u{a0}' || c == '\u{1680}'
        || ('\u{2000}' <= c && c <= '\u{200a}') || c == '\u{2028}' || c == '\u{2029}'
        || c == '\u{202f}' || c == '\u{205f}' || c == '\u{3000}'
}

pub fn is_control(c: char) -> (r: bool)
    ensures
        r == spec_control(c),
{
    c <= '\u{1f}' || ('\u{7f}' <= c && c <= '\u{9f}')
}

pub fn is_digit(c: char) -> (r: bool)
    ensures
        r == spec_digit(c),
{
    '0' <= c && c <= '9'
}

pub fn is_hex_digit(c: char) -> (r: bool)
    ensures
        r == spec_hex_digit(c),
{
    ('0' <= c && c <= '9') || ('a' <= c && c <= 'f') || ('A' <= c && c <= 'F')
}

pub fn is_alpha(c: char) -> (r: bool)
    ensures
        r == spec_alpha(c),
{
    ('a' <= c && c <= 'z') || ('A' <= c && c <= 'Z')
}

/// The value of a hexadecimal digit.
pub open spec fn spec_hex_value(c: char) -> u32 {
    if spec_digit(c) {
        (c as u32 - '0' as u32) as u32
    } else if 'a' <= c && c <= 'f' {
        (c as u32 - 'a' as u32 + 10) as u32
    } else {
        (c as u32 - 'A' as u32 + 10) as u32
    }
}

pub fn hex_value(c: char) -> (r: u32)
    requires
        spec_hex_digit(c),
    ensures
        r == spec_hex_value(c),
        r < 16,
{
    let v = c as u32;
    if '0' <= c && c <= '9' {
        v - 48
    } else if 'a' <= c && c <= 'f' {
        v - 97 + 10
    } else {
        v - 65 + 10
    }
}

/// The upper-case hexadecimal digit for a value below 16.
pub open spec fn spec_hex_char(v: u32) -> char {
    if v < 10 {
        ((v + 48) as u8) as char
    } else {
        ((v - 10 + 65) as u8) as char
    }
}

pub fn hex_char(v: u32) -> (c: char)
    requires
        v < 16,
    ensures
        c == spec_hex_char(v),
{
    if v < 10 {
        ((v + 48) as u8) as char
    } else {
        ((v - 10 + 65) as u8) as char
    }
}

/// The upper-case hexadecimal digits of `v`, zero-padded to at least
/// `width` digits.
pub open spec fn spec_hex_upper(v: nat, width: nat) -> Seq<char>
    decreases width, v,
{
    if v < 16 && width <= 1 {
        seq![spec_hex_char(v as u32)]
    } else {
        spec_hex_upper(v / 16, if width > 0 { (width - 1) as nat } else { 0 }).push(
            spec_hex_char((v % 16) as u32),
        )
    }
}

/// Appends `spec_hex_upper(v, width)` to `out`.
pub fn push_hex_upper(out: &mut Vec<char>, v: u32, width: usize)
    ensures
        final(out)@ == old(out)@ + spec_hex_upper(v as nat, width as nat),
    decreases width, v,
{
    if v < 16 && width <= 1 {
        out.push(hex_char(v));
    } else {
        push_hex_upper(out, v / 16, if width > 0 { width - 1 } else { 0 });
        out.push(hex_char(v % 16));
    }
}

/// The decimal digits of `v`, with no leading zeros.
pub open spec fn spec_decimal(v: nat) -> Seq<char>
    decreases v,
{
    if v < 10 {
        seq![((v + 48) as u8) as char]
    } else {
        spec_decimal(v / 10).push((((v % 10) + 48) as u8) as char)
    }
}

/// Appends the decimal rendering of `v` to `out`.
pub fn push_decimal(out: &mut Vec<char>, v: usize)
    ensures
        final(out)@ == old(out)@ + spec_decimal(v as nat),
    decreases v,
{
    if v < 10 {
        out.push(((v + 48) as u8) as char);
    } else {
        push_decimal(out, v / 10);
        out.push((((v % 10) + 48) as u8) as char);
    }
}

/// Appends every character of `s` to `out`.
pub fn push_all(out: &mut Vec<char>, s: &[char])
    ensures
        final(out)@ == old(out)@ + s@,
{
    let mut i: usize = 0;
    while i < s.len()
        invariant
            i <= s@.len(),
            out@ == old(out)@ + s@.subrange(0, i as int),
        decreases s@.len() - i,
    {
        out.push(s[i]);
        i = i + 1;
        assert(s@.subrange(0, i as int) == s@.subrange(0, i - 1).push(s@[i - 1]));
    }
    assert(s@.subrange(0, s@.len() as int) == s@);
}

/// Appends `n` copies of `c` to `out`.
pub fn push_repeat(out: &mut Vec<char>, c: char, n: usize)
    ensures
        final(out)@ == old(out)@ + Seq::new(n as nat, |_i: int| c),
{
    let mut i: usize = 0;
    while i < n
        invariant
            i <= n,
            out@ == old(out)@ + Seq::new(i as nat, |_i: int| c),
        decreases n - i,
    {
        out.push(c);
        i = i + 1;
        assert(Seq::new(i as nat, |_i: int| c) == Seq::new((i - 1) as nat, |_i: int| c).push(c));
    }
}

/// The characters `s[start..end]` as a new vector.
pub fn sub_chars(s: &[char], start: usize, end: usize) -> (r: Vec<char>)
    requires
        start <= end <= s@.len(),
    ensures
        r@ == s@.subrange(start as int, end as int),
{
    let mut out: Vec<char> = Vec::new();
    let mut i: usize = start;
    while i < end
        invariant
            start <= i <= end <= s@.len(),
            out@ == s@.subrange(start as int, i as int),
        decreases end - i,
    {
        out.push(s[i]);
        i = i + 1;
        assert(s@.subrange(start as int, i as int) == s@.subrange(start as int, i - 1).push(
            s@[i - 1],
        ));
    }
    out
}

/// A copy of `s`.
pub fn copy_chars(s: &[char]) -> (r: Vec<char>)
    ensures
        r@ == s@,
{
    let r = sub_chars(s, 0, s.len());
    assert(s@.subrange(0, s@.len() as int) == s@);
    r
}

pub fn chars_eq(a: &[char], b: &[char]) -> (r: bool)
    ensures
        r == (a@ == b@),
{
    if a.len() != b.len() {
        return false;
    }
    let mut i: usize = 0;
    while i < a.len()
        invariant
            a@.len() == b@.len(),
            i <= a@.len(),
            forall|j: int| 0 <= j < i ==> a@[j] == b@[j],
        decreases a@.len() - i,
    {
        if a[i] != b[i] {
            return false;
        }
        i = i + 1;
    }
    assert(a@ =~= b@);
    true
}

/// Whether `s` begins with `prefix` at position `at`.
pub open spec fn spec_has_at(s: Seq<char>, at: int, prefix: Seq<char>) -> bool {
    0 <= at && at + prefix.len() <= s.len() && s.subrange(at, at + prefix.len()) == prefix
}

pub fn has_at(s: &[char], at: usize, prefix: &[char]) -> (r: bool)
    ensures
        r == spec_has_at(s@, at as int, prefix@),
{
    if at > s.len() || prefix.len() > s.len() - at {
        return false;
    }
    let n = s.len();
    let mut i: usize = 0;
    while i < prefix.len()
        invariant
            n == s@.len(),
            at + prefix@.len() <= n,
            i <= prefix@.len(),
            forall|j: int| 0 <= j < i ==> s@[at + j] == prefix@[j],
        decreases prefix@.len() - i,
    {
        if s[at + i] != prefix[i] {
            assert(s@.subrange(at as int, at + prefix@.len())[i as int] != prefix@[i as int]);
            return false;
        }
        i = i + 1;
    }
    assert(s@.subrange(at as int, at + prefix@.len()) =~= prefix@);
    true
}

pub fn starts_with(s: &[char], prefix: &[char]) -> (r: bool)
    ensures
        r == spec_has_at(s@, 0, prefix@),
{
    has_at(s, 0, prefix)
}

/// Whether `s` ends with `suffix`.
pub fn ends_with(s: &[char], suffix: &[char]) -> (r: bool)
    ensures
        r == (suffix@.len() <= s@.len() && spec_has_at(
            s@,
            s@.len() - suffix@.len(),
            suffix@,
        )),
{
    if suffix.len() > s.len() {
        return false;
    }
    has_at(s, s.len() - suffix.len(), suffix)
}

/// Whether `c` occurs in `s`.
pub fn contains_char(s: &[char], c: char) -> (r: bool)
    ensures
        r == s@.contains(c),
{
    let mut i: usize = 0;
    while i < s.len()
        invariant
            i <= s@.len(),
            forall|j: int| 0 <= j < i ==> s@[j] != c,
        decreases s@.len() - i,
    {
        if s[i] == c {
            assert(s@[i as int] == c);
            return true;
        }
        i = i + 1;
    }
    false
}

/// The first position at or after `from` that holds `c`.
pub fn find_char_from(s: &[char], from: usize, c: char) -> (r: Option<usize>)
    ensures
        match r {
            Some(i) => from <= i < s@.len() && s@[i as int] == c && forall|j: int|
                from <= j < i ==> s@[j] != c,
            None => forall|j: int| from <= j < s@.len() ==> s@[j] != c,
        },
{
    let mut i: usize = from;
    while i < s.len()
        invariant
            from <= i,
            forall|j: int| from <= j < i && j < s@.len() ==> s@[j] != c,
        decreases s@.len() - i,
    {
        if s[i] == c {
            return Some(i);
        }
        i = i + 1;
    }
    None
}

/// The number of ASCII whitespace characters at the start of `s[from..]`.
pub open spec fn spec_skip_ascii_ws(s: Seq<char>, from: int) -> int
    decreases s.len() - from,
{
    if from < 0 || from >= s.len() || !spec_ascii_ws(s[from]) {
        from
    } else {
        spec_skip_ascii_ws(s, from + 1)
    }
}

pub proof fn lemma_skip_ascii_ws(s: Seq<char>, from: int)
    requires
        0 <= from,
    ensures
        from <= spec_skip_ascii_ws(s, from),
        from <= s.len() ==> spec_skip_ascii_ws(s, from) <= s.len(),
        forall|j: int| from <= j < spec_skip_ascii_ws(s, from) ==> spec_ascii_ws(#[trigger] s[j]),
        spec_skip_ascii_ws(s, from) < s.len() ==> !spec_ascii_ws(s[spec_skip_ascii_ws(s, from)]),
    decreases s.len() - from,
{
    if from < s.len() && spec_ascii_ws(s[from]) {
        lemma_skip_ascii_ws(s, from + 1);
    }
}

/// The first position at or after `from` whose character is not ASCII
/// whitespace (or the end of the text).
pub fn skip_ascii_ws(s: &[char], from: usize) -> (r: usize)
    ensures
        r == spec_skip_ascii_ws(s@, from as int),
{
    let mut i = from;
    while i < s.len() && is_ascii_ws(s[i])
        invariant
            from <= i,
            spec_skip_ascii_ws(s@, i as int) == spec_skip_ascii_ws(s@, from as int),
        decreases s@.len() - i,
    {
        i = i + 1;
    }
    i
}

/// Start and end of `s` with ASCII whitespace removed on both sides
/// (`str::trim_ascii`).
pub open spec fn spec_trim_ascii_start(s: Seq<char>) -> int {
    spec_skip_ascii_ws(s, 0)
}

pub open spec fn spec_trim_ascii_end_at(s: Seq<char>, start: int, end: int) -> int
    decreases end - start,
{
    if end <= start || end > s.len() || !spec_ascii_ws(s[end - 1]) {
        end
    } else {
        spec_trim_ascii_end_at(s, start, end - 1)
    }
}

pub open spec fn spec_trim_ascii_end(s: Seq<char>, start: int) -> int {
    spec_trim_ascii_end_at(s, start, s.len() as int)
}

/// The end of `s[..end]` with trailing ASCII whitespace removed, not going
/// below `start`.
pub fn trim_ascii_end_at(s: &[char], start: usize, end: usize) -> (r: usize)
    requires
        end <= s@.len(),
    ensures
        r == spec_trim_ascii_end_at(s@, start as int, end as int),
        r <= end,
        start <= end ==> start <= r,
{
    let mut e = end;
    while e > start && is_ascii_ws(s[e - 1])
        invariant
            e <= end <= s@.len(),
            start <= end ==> start <= e,
            spec_trim_ascii_end_at(s@, start as int, e as int) == spec_trim_ascii_end_at(
                s@,
                start as int,
                end as int,
            ),
        decreases e,
    {
        e = e - 1;
    }
    e
}

pub fn trim_ascii_end_from(s: &[char], start: usize) -> (r: usize)
    requires
        start <= s@.len(),
    ensures
        start <= r <= s@.len(),
        r == spec_trim_ascii_end(s@, start as int),
{
    trim_ascii_end_at(s, start, s.len())
}

/// `str::trim_ascii` as a pair of bounds.
pub fn trim_ascii_bounds(s: &[char]) -> (r: (usize, usize))
    ensures
        r.0 == spec_trim_ascii_start(s@),
        r.1 == spec_trim_ascii_end(s@, r.0 as int),
        r.0 <= r.1 <= s@.len(),
{
    let start = skip_ascii_ws(s, 0);
    proof {
        lemma_skip_ascii_ws(s@, 0);
    }
    let end = trim_ascii_end_from(s, start);
    (start, end)
}

/// `str::trim_ascii` as a new vector.
pub open spec fn spec_trim_ascii(s: Seq<char>) -> Seq<char> {
    s.subrange(spec_trim_ascii_start(s), spec_trim_ascii_end(s, spec_trim_ascii_start(s)))
}

pub fn trim_ascii(s: &[char]) -> (r: Vec<char>)
    ensures
        r@ == spec_trim_ascii(s@),
{
    let (a, b) = trim_ascii_bounds(s);
    sub_chars(s, a, b)
}

/// The first position at or after `from` that is not Unicode whitespace.
pub open spec fn spec_skip_ws(s: Seq<char>, from: int) -> int
    decreases s.len() - from,
{
    if from < 0 || from >= s.len() || !spec_ws(s[from]) {
        from
    } else {
        spec_skip_ws(s, from + 1)
    }
}

pub fn skip_ws(s: &[char], from: usize) -> (r: usize)
    ensures
        r == spec_skip_ws(s@, from as int),
        from <= r,
        from <= s@.len() ==> r <= s@.len(),
{
    let mut i = from;
    while i < s.len() && is_ws(s[i])
        invariant
            from <= i,
            from <= s@.len() ==> i <= s@.len(),
            spec_skip_ws(s@, i as int) == spec_skip_ws(s@, from as int),
        decreases s@.len() - i,
    {
        i = i + 1;
    }
    i
}

/// The end of `s[..end]` with trailing Unicode whitespace removed, not going
/// below `start`.
pub open spec fn spec_trim_ws_end(s: Seq<char>, start: int, end: int) -> int
    decreases end - start,
{
    if end <= start || end > s.len() || !spec_ws(s[end - 1]) {
        end
    } else {
        spec_trim_ws_end(s, start, end - 1)
    }
}

pub fn trim_ws_end(s: &[char], start: usize, end: usize) -> (r: usize)
    requires
        end <= s@.len(),
    ensures
        r == spec_trim_ws_end(s@, start as int, end as int),
        r <= end,
        start <= end ==> start <= r,
{
    let mut e = end;
    while e > start && is_ws(s[e - 1])
        invariant
            e <= end <= s@.len(),
            start <= end ==> start <= e,
            spec_trim_ws_end(s@, start as int, e as int) == spec_trim_ws_end(
                s@,
                start as int,
                end as int,
            ),
        decreases e,
    {
        e = e - 1;
    }
    e
}

/// `str::trim` (Unicode whitespace) as a new vector.
pub open spec fn spec_trim(s: Seq<char>) -> Seq<char> {
    s.subrange(spec_skip_ws(s, 0), spec_trim_ws_end(s, spec_skip_ws(s, 0), s.len() as int))
}

pub fn trim(s: &[char]) -> (r: Vec<char>)
    ensures
        r@ == spec_trim(s@),
        r@.len() <= s@.len(),
{
    let a = skip_ws(s, 0);
    let b = trim_ws_end(s, a, s.len());
    sub_chars(s, a, b)
}

/// `a` starts with `b`.
pub open spec fn extends(a: Seq<char>, b: Seq<char>) -> bool {
    b.len() <= a.len() && a.subrange(0, b.len() as int) == b
}

pub broadcast proof fn lemma_extends_trans(a: Seq<char>, b: Seq<char>, c: Seq<char>)
    requires
        #[trigger] extends(a, b),
        #[trigger] extends(b, c),
    ensures
        extends(a, c),
{
    assert(a.subrange(0, c.len() as int) =~= b.subrange(0, c.len() as int));
}

pub broadcast proof fn lemma_extends_refl(a: Seq<char>)
    ensures
        #[trigger] extends(a, a),
{
    assert(a.subrange(0, a.len() as int) =~= a);
}

pub broadcast proof fn lemma_extends_push(a: Seq<char>, c: char)
    ensures
        #[trigger] a.push(c) == a.push(c) && extends(a.push(c), a),
{
    assert(a.push(c).subrange(0, a.len() as int) =~= a);
}

pub broadcast proof fn lemma_extends_append(a: Seq<char>, x: Seq<char>)
    ensures
        #[trigger] (a + x) == a + x && extends(a + x, a),
{
    assert((a + x).subrange(0, a.len() as int) =~= a);
}

/// The characters of a string.
#[verifier::external_body]
pub fn str_chars(s: &str) -> (r: Vec<char>)
    ensures
        r@ == s@,
{
    s.chars().collect()
}

/// A string made of the given characters.
#[verifier::external_body]
pub fn chars_to_string(s: &[char]) -> (r: String)
    ensures
        r@ == s@,
{
    s.iter().collect()
}

/// The number of bytes of the UTF-8 encoding of `c` (`char::len_utf8`).
pub open spec fn spec_len_utf8(c: char) -> nat {
    if (c as u32) < 0x80 {
        1
    } else if (c as u32) < 0x800 {
        2
    } else if (c as u32) < 0x10000 {
        3
    } else {
        4
    }
}

pub fn len_utf8(c: char) -> (r: usize)
    ensures
        r == spec_len_utf8(c),
{
    let v = c as u32;
    if v < 0x80 {
        1
    } else if v < 0x800 {
        2
    } else if v < 0x10000 {
        3
    } else {
        4
    }
}

/// The number of UTF-8 bytes of a character sequence.
pub open spec fn spec_utf8_len(s: Seq<char>) -> nat
    decreases s.len(),
{
    if s.len() == 0 {
        0
    } else {
        spec_utf8_len(s.drop_last()) + spec_len_utf8(s.last())
    }
}

/// The character with code point `v`, where there is one (`char::from_u32`).
#[verifier::external_body]
pub fn char_from_u32(v: u32) -> (r: Option<char>)
    ensures
        match r {
            Some(c) => vstd::utf8::is_scalar(v) && c as u32 == v,
            None => !vstd::utf8::is_scalar(v),
        },
{
    char::from_u32(v)
}

/// The UTF-8 offset of every character of `s` and of its end, and for
/// every byte offset up to the end the index of the character that starts
/// there (zero where none does).
pub fn byte_offset_tables(s: &[char]) -> (r: (Vec<usize>, Vec<usize>))
    requires
        spec_utf8_len(s@) < usize::MAX,
    ensures
        r.0@.len() == spec_utf8_len(s@) + 1,
        r.1@.len() == s@.len() + 1,
        forall|k: int| 0 <= k <= s@.len() ==> #[trigger] r.1@[k] == spec_utf8_len(s@.subrange(0, k)),
        forall|k: int| 0 <= k <= s@.len() ==> r.0@[#[trigger] spec_utf8_len(s@.subrange(0, k)) as int] == k,
        forall|b: int|
            0 <= b < r.0@.len() && (forall|k: int| 0 <= k <= s@.len() ==> #[trigger] spec_utf8_len(s@.subrange(0, k)) != b)
                ==> #[trigger] r.0@[b] == 0,
{
    let n = s.len();
    proof {
        lemma_utf8_len_at_least_len(s@);
    }
    let mut char_to_byte: Vec<usize> = Vec::new();
    let mut total: usize = 0;
    let mut i: usize = 0;
    proof {
        lemma_utf8_len_prefix_le(s@, 0);
    }
    while i < n
        invariant
            n == s@.len(),
            i <= n,
            char_to_byte@.len() == i,
            total == spec_utf8_len(s@.subrange(0, i as int)),
            total <= spec_utf8_len(s@),
            forall|k: int| 0 <= k < i ==> #[trigger] char_to_byte@[k] == spec_utf8_len(s@.subrange(0, k)),
            forall|k: int| 0 <= k < i ==> #[trigger] spec_utf8_len(s@.subrange(0, k)) < total,
            forall|j: int, m: int| 0 <= j < m < i ==> #[trigger] char_to_byte@[j] < #[trigger] char_to_byte@[m],
        decreases n - i,
    {
        char_to_byte.push(total);
        proof {
            let pre = s@.subrange(0, i + 1);
            assert(pre.drop_last() =~= s@.subrange(0, i as int));
            lemma_utf8_len_prefix_le(s@, i + 1);
        }
        total = total + len_utf8(s[i]);
        i = i + 1;
    }
    assert(s@.subrange(0, n as int) =~= s@);
    char_to_byte.push(total);
    assert forall|j: int, m: int| 0 <= j < m <= n implies #[trigger] char_to_byte@[j] < #[trigger] char_to_byte@[m] by {
        if m < n {
        } else {
            assert(char_to_byte@[j] == spec_utf8_len(s@.subrange(0, j)));
        }
    }
    let mut byte_to_char: Vec<usize> = Vec::new();
    let mut b: usize = 0;
    while b <= total
        invariant
            total == spec_utf8_len(s@) < usize::MAX,
            b <= total + 1,
            byte_to_char@.len() == b,
            forall|x: int| 0 <= x < b ==> #[trigger] byte_to_char@[x] == 0,
        decreases total + 1 - b,
    {
        byte_to_char.push(0);
        b = b + 1;
    }
    let mut k: usize = 0;
    while k <= n
        invariant
            n == s@.len() < usize::MAX,
            k <= n + 1,
            char_to_byte@.len() == n + 1,
            total == spec_utf8_len(s@),
            byte_to_char@.len() == total + 1,
            forall|j: int| 0 <= j <= n ==> #[trigger] char_to_byte@[j] == spec_utf8_len(s@.subrange(0, j)),
            forall|j: int, m: int| 0 <= j < m <= n ==> #[trigger] char_to_byte@[j] < #[trigger] char_to_byte@[m],
            forall|j: int| 0 <= j < k ==> byte_to_char@[#[trigger] char_to_byte@[j] as int] == j,
            forall|x: int|
                0 <= x < byte_to_char@.len() && (forall|j: int| 0 <= j < k ==> #[trigger] char_to_byte@[j] != x)
                    ==> #[trigger] byte_to_char@[x] == 0,
        decreases n + 1 - k,
    {
        let at = char_to_byte[k];
        proof {
            lemma_utf8_len_prefix_le(s@, k as int);
        }
        byte_to_char.set(at, k);
        k = k + 1;
    }
    assert forall|j: int| 0 <= j <= n implies byte_to_char@[#[trigger] spec_utf8_len(s@.subrange(0, j)) as int] == j by {
        assert(char_to_byte@[j] == spec_utf8_len(s@.subrange(0, j)));
    }
    assert forall|x: int|
        0 <= x < byte_to_char@.len() && (forall|j: int| 0 <= j <= n ==> #[trigger] spec_utf8_len(s@.subrange(0, j)) != x)
            implies #[trigger] byte_to_char@[x] == 0 by {
        assert forall|j: int| 0 <= j < n + 1 implies #[trigger] char_to_byte@[j] != x by {
            assert(spec_utf8_len(s@.subrange(0, j)) != x);
        }
    }
    (byte_to_char, char_to_byte)
}

pub proof fn lemma_utf8_len_append(a: Seq<char>, b: Seq<char>)
    ensures
        spec_utf8_len(a + b) == spec_utf8_len(a) + spec_utf8_len(b),
    decreases b.len(),
{
    if b.len() == 0 {
        assert(a + b =~= a);
    } else {
        lemma_utf8_len_append(a, b.drop_last());
        assert((a + b).drop_last() =~= a + b.drop_last());
    }
}

/// A character sequence takes at least one byte per character.
pub proof fn lemma_utf8_len_at_least_len(s: Seq<char>)
    ensures
        s.len() <= spec_utf8_len(s),
    decreases s.len(),
{
    if s.len() > 0 {
        lemma_utf8_len_at_least_len(s.drop_last());
    }
}

/// A prefix takes no more bytes than the whole sequence.
proof fn lemma_utf8_len_prefix_le(s: Seq<char>, k: int)
    requires
        0 <= k <= s.len(),
    ensures
        spec_utf8_len(s.subrange(0, k)) <= spec_utf8_len(s),
    decreases s.len() - k,
{
    if k < s.len() {
        let pre = s.subrange(0, k + 1);
        assert(pre.drop_last() =~= s.subrange(0, k));
        lemma_utf8_len_prefix_le(s, k + 1);
    } else {
        assert(s.subrange(0, k) =~= s);
    }
}

/// `table[i]`, or its last entry when `i` is past the end.
pub fn clamped_entry(table: &[usize], i: usize) -> (r: usize)
    requires
        table@.len() > 0,
    ensures
        r == table@[if i < table@.len() { i as int } else { table@.len() - 1 }],
{
    if i < table.len() {
        table[i]
    } else {
        table[table.len() - 1]
    }
}

pub proof fn lemma_skip_ws_bounds(s: Seq<char>, from: int)
    requires
        0 <= from <= s.len(),
    ensures
        from <= spec_skip_ws(s, from) <= s.len(),
        forall|k: int| from <= k < spec_skip_ws(s, from) ==> spec_ws(#[trigger] s[k]),
        spec_skip_ws(s, from) < s.len() ==> !spec_ws(s[spec_skip_ws(s, from)]),
    decreases s.len() - from,
{
    if from < s.len() && spec_ws(s[from]) {
        lemma_skip_ws_bounds(s, from + 1);
    }
}

pub proof fn lemma_trim_ws_end_bounds(s: Seq<char>, start: int, end: int)
    requires
        0 <= start <= end <= s.len(),
    ensures
        start <= spec_trim_ws_end(s, start, end) <= end,
        forall|k: int| spec_trim_ws_end(s, start, end) <= k < end ==> spec_ws(#[trigger] s[k]),
        spec_trim_ws_end(s, start, end) > start ==> !spec_ws(s[spec_trim_ws_end(s, start, end) - 1]),
    decreases end - start,
{
    if end > start && spec_ws(s[end - 1]) {
        lemma_trim_ws_end_bounds(s, start, end - 1);
    }
}

proof fn lemma_skip_ws_shift(p: Seq<char>, s: Seq<char>, j: int)
    requires
        0 <= j,
    ensures
        spec_skip_ws(p + s, p.len() + j) == p.len() + spec_skip_ws(s, j),
    decreases s.len() - j,
{
    if j < s.len() {
        assert((p + s)[p.len() + j] == s[j]);
        if spec_ws(s[j]) {
            lemma_skip_ws_shift(p, s, j + 1);
        }
    }
}

proof fn lemma_trim_ws_end_shift(p: Seq<char>, s: Seq<char>, start: int, end: int)
    requires
        0 <= start,
        end <= s.len(),
    ensures
        spec_trim_ws_end(p + s, p.len() + start, p.len() + end) == p.len() + spec_trim_ws_end(s, start, end),
    decreases end - start,
{
    if end > start {
        assert((p + s)[p.len() + end - 1] == s[end - 1]);
        if spec_ws(s[end - 1]) {
            lemma_trim_ws_end_shift(p, s, start, end - 1);
        }
    }
}

/// What `trim` leaves: nothing, or text that starts and ends with a
/// character that is not whitespace, taken from the input.
pub proof fn lemma_trim_shape(s: Seq<char>)
    ensures
        spec_trim(s).len() == 0 || (!spec_ws(spec_trim(s)[0]) && !spec_ws(spec_trim(s).last())),
        forall|c: char| !s.contains(c) ==> !#[trigger] spec_trim(s).contains(c),
        spec_trim(s).len() <= s.len(),
{
    let a = spec_skip_ws(s, 0);
    lemma_skip_ws_bounds(s, 0);
    let e = spec_trim_ws_end(s, a, s.len() as int);
    lemma_trim_ws_end_bounds(s, a, s.len() as int);
    let t = spec_trim(s);
    if t.len() > 0 {
        assert(t[0] == s[a]);
        assert(t.last() == s[e - 1]);
    }
    assert forall|c: char| !s.contains(c) implies !#[trigger] t.contains(c) by {
        if t.contains(c) {
            let k = choose|k: int| 0 <= k < t.len() && t[k] == c;
            assert(s[a + k] == c);
        }
    }
}

/// Text that starts and ends with a character that is not whitespace is
/// its own trim.
pub proof fn lemma_trim_trimmed(t: Seq<char>)
    requires
        t.len() == 0 || (!spec_ws(t[0]) && !spec_ws(t.last())),
    ensures
        spec_trim(t) == t,
{
    if t.len() > 0 {
        assert(spec_skip_ws(t, 0) == 0);
        assert(spec_trim_ws_end(t, 0, t.len() as int) == t.len());
    }
    assert(t.subrange(0, t.len() as int) =~= t);
}

pub proof fn lemma_trim_idempotent(s: Seq<char>)
    ensures
        spec_trim(spec_trim(s)) == spec_trim(s),
{
    lemma_trim_shape(s);
    lemma_trim_trimmed(spec_trim(s));
}

/// Leading whitespace does not change a trim.
pub proof fn lemma_trim_leading_ws(c: char, s: Seq<char>)
    requires
        spec_ws(c),
    ensures
        spec_trim(seq![c] + s) == spec_trim(s),
{
    let p = seq![c];
    let x = p + s;
    assert(x[0] == c);
    lemma_skip_ws_shift(p, s, 0);
    assert(spec_skip_ws(x, 0) == spec_skip_ws(x, 1));
    let a = spec_skip_ws(s, 0);
    lemma_skip_ws_bounds(s, 0);
    lemma_trim_ws_end_shift(p, s, a, s.len() as int);
    let e = spec_trim_ws_end(s, a, s.len() as int);
    lemma_trim_ws_end_bounds(s, a, s.len() as int);
    assert(x.subrange(1 + a, 1 + e) =~= s.subrange(a, e));
}

} // verus!
