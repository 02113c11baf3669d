//! Embedded-code formatters: the built-in formatter table, the registry of
//! configured formatters, the command line of a formatter run, and what a
//! finished run comes to.
use vstd::prelude::*;
use crate::diagnostic::{error_from_chars, Diagnostic, YamarkError};
use crate::json_to_yaml::{JsonNode, JsonProperty, JsonValue};
use crate::text::{chars_to_string, push_all, push_decimal, spec_decimal, str_chars, spec_trim, trim};

verus! {

/// How a formatter receives and returns the code: as it is, or as the only
/// cell of a Python notebook.
#[derive(Debug, Clone, Copy, PartialEq, Eq, Structural)]
pub enum ExternalFormatterMode {
    Raw,
    PythonNotebookCell,
}

/// What happens when a formatter's executable is missing.
#[derive(Debug, Clone, Copy, PartialEq, Eq, Structural)]
pub enum MissingExecutablePolicy {
    Error,
    Skip,
}

/// An external formatter: its command line (where `{path}` stands for the
/// virtual path of the code), the suffix of that path, and its mode.
#[derive(Debug)]
pub struct ExternalFormatter {
    pub command: Vec<String>,
    pub path_suffix: String,
    pub mode: ExternalFormatterMode,
}

/// The views of a vector of strings.
pub open spec fn string_views(v: Seq<String>) -> Seq<Seq<char>> {
    v.map_values(|s: String| s@)
}

impl View for ExternalFormatter {
    type V = (Seq<Seq<char>>, Seq<char>, ExternalFormatterMode);

    open spec fn view(&self) -> (Seq<Seq<char>>, Seq<char>, ExternalFormatterMode) {
        (string_views(self.command@), self.path_suffix@, self.mode)
    }
}

/// What running a formatter came to.
#[derive(Debug)]
pub enum ExternalFormatterOutput {
    Formatted(String),
    FormatterFailed(String),
    MissingExecutable,
}

/// Whether the characters `a` spell `b`.
fn same_text(a: &[char], b: &str) -> (r: bool)
    ensures
        r == (a@ == b@),
{
    let bc = str_chars(b);
    crate::text::chars_eq(a, bc.as_slice())
}

/// An owned copy of a string.
fn owned(s: &str) -> (r: String)
    ensures
        r@ == s@,
{
    let c = str_chars(s);
    chars_to_string(c.as_slice())
}

/// A copy of a string.
fn copy_string(s: &String) -> (r: String)
    ensures
        r@ == s@,
{
    owned(s.as_str())
}

/// A copy of a vector of strings.
fn copy_strings(v: &Vec<String>) -> (r: Vec<String>)
    ensures
        string_views(r@) == string_views(v@),
{
    let mut out: Vec<String> = Vec::new();
    let mut k: usize = 0;
    while k < v.len()
        invariant
            k <= v@.len(),
            string_views(out@) == string_views(v@).subrange(0, k as int),
        decreases v@.len() - k,
    {
        let ghost before = out@;
        out.push(copy_string(&v[k]));
        assert(string_views(out@) == string_views(before).push(v@[k as int]@));
        k = k + 1;
    }
    assert(string_views(v@).subrange(0, v@.len() as int) == string_views(v@));
    out
}

/// A copy of a formatter.
pub fn copy_formatter(f: &ExternalFormatter) -> (r: ExternalFormatter)
    ensures
        r@ == f@,
{
    ExternalFormatter { command: copy_strings(&f.command), path_suffix: copy_string(&f.path_suffix), mode: f.mode }
}

/// A prettier run for code with the given path suffix.
pub open spec fn spec_prettier(suffix: Seq<char>) -> (Seq<Seq<char>>, Seq<char>, ExternalFormatterMode) {
    (seq!["prettier"@, "--stdin-filepath"@, "{path}"@], suffix, ExternalFormatterMode::Raw)
}

pub fn prettier(path_suffix: &str) -> (r: ExternalFormatter)
    ensures
        r@ == spec_prettier(path_suffix@),
{
    let command = vec![owned("prettier"), owned("--stdin-filepath"), owned("{path}")];
    let r = ExternalFormatter { command, path_suffix: owned(path_suffix), mode: ExternalFormatterMode::Raw };
    assert(r@.0 == seq!["prettier"@, "--stdin-filepath"@, "{path}"@]);
    r
}

/// The built-in formatter that a fence name stands for.
pub open spec fn spec_default_formatter_name(name: Seq<char>) -> Option<Seq<char>> {
    if name == "ruff"@ {
        Some("ruff"@)
    } else if name == "air"@ {
        Some("air"@)
    } else if name == "mdformat"@ {
        Some("mdformat"@)
    } else if name == "prettier-json"@ {
        Some("prettier-json"@)
    } else if name == "prettier-jsonc"@ {
        Some("prettier-jsonc"@)
    } else if name == "prettier-json5"@ {
        Some("prettier-json5"@)
    } else if name == "prettier-graphql"@ {
        Some("prettier-graphql"@)
    } else if name == "prettier-css"@ {
        Some("prettier-css"@)
    } else if name == "prettier-scss"@ {
        Some("prettier-scss"@)
    } else if name == "prettier-less"@ {
        Some("prettier-less"@)
    } else if name == "prettier-postcss"@ {
        Some("prettier-postcss"@)
    } else if name == "prettier-html"@ {
        Some("prettier-html"@)
    } else if name == "prettier-js"@ {
        Some("prettier-js"@)
    } else if name == "prettier-jsx"@ {
        Some("prettier-jsx"@)
    } else if name == "prettier-ts"@ {
        Some("prettier-ts"@)
    } else if name == "prettier-tsx"@ {
        Some("prettier-tsx"@)
    } else if name == "python"@ {
        Some("ruff"@)
    } else if name == "r"@ {
        Some("air"@)
    } else if name == "json"@ {
        Some("prettier-json"@)
    } else if name == "jsonc"@ {
        Some("prettier-jsonc"@)
    } else if name == "json5"@ {
        Some("prettier-json5"@)
    } else if name == "graphql"@ {
        Some("prettier-graphql"@)
    } else if name == "gql"@ {
        Some("prettier-graphql"@)
    } else if name == "graphqls"@ {
        Some("prettier-graphql"@)
    } else if name == "css"@ {
        Some("prettier-css"@)
    } else if name == "scss"@ {
        Some("prettier-scss"@)
    } else if name == "less"@ {
        Some("prettier-less"@)
    } else if name == "postcss"@ {
        Some("prettier-postcss"@)
    } else if name == "pcss"@ {
        Some("prettier-postcss"@)
    } else if name == "html"@ {
        Some("prettier-html"@)
    } else if name == "js"@ {
        Some("prettier-js"@)
    } else if name == "javascript"@ {
        Some("prettier-js"@)
    } else if name == "jsx"@ {
        Some("prettier-jsx"@)
    } else if name == "ts"@ {
        Some("prettier-ts"@)
    } else if name == "typescript"@ {
        Some("prettier-ts"@)
    } else if name == "tsx"@ {
        Some("prettier-tsx"@)
    } else {
        None
    }
}

/// The built-in formatter that a fence name stands for.
pub fn default_formatter_name(name: &str) -> (r: Option<String>)
    ensures
        match spec_default_formatter_name(name@) {
            Some(f) => r matches Some(s) && s@ == f,
            None => r is None,
        },
{
    let n = str_chars(name);
    if same_text(n.as_slice(), "ruff") {
        return Some(owned("ruff"));
    }
    if same_text(n.as_slice(), "air") {
        return Some(owned("air"));
    }
    if same_text(n.as_slice(), "mdformat") {
        return Some(owned("mdformat"));
    }
    if same_text(n.as_slice(), "prettier-json") {
        return Some(owned("prettier-json"));
    }
    if same_text(n.as_slice(), "prettier-jsonc") {
        return Some(owned("prettier-jsonc"));
    }
    if same_text(n.as_slice(), "prettier-json5") {
        return Some(owned("prettier-json5"));
    }
    if same_text(n.as_slice(), "prettier-graphql") {
        return Some(owned("prettier-graphql"));
    }
    if same_text(n.as_slice(), "prettier-css") {
        return Some(owned("prettier-css"));
    }
    if same_text(n.as_slice(), "prettier-scss") {
        return Some(owned("prettier-scss"));
    }
    if same_text(n.as_slice(), "prettier-less") {
        return Some(owned("prettier-less"));
    }
    if same_text(n.as_slice(), "prettier-postcss") {
        return Some(owned("prettier-postcss"));
    }
    if same_text(n.as_slice(), "prettier-html") {
        return Some(owned("prettier-html"));
    }
    if same_text(n.as_slice(), "prettier-js") {
        return Some(owned("prettier-js"));
    }
    if same_text(n.as_slice(), "prettier-jsx") {
        return Some(owned("prettier-jsx"));
    }
    if same_text(n.as_slice(), "prettier-ts") {
        return Some(owned("prettier-ts"));
    }
    if same_text(n.as_slice(), "prettier-tsx") {
        return Some(owned("prettier-tsx"));
    }
    if same_text(n.as_slice(), "python") {
        return Some(owned("ruff"));
    }
    if same_text(n.as_slice(), "r") {
        return Some(owned("air"));
    }
    if same_text(n.as_slice(), "json") {
        return Some(owned("prettier-json"));
    }
    if same_text(n.as_slice(), "jsonc") {
        return Some(owned("prettier-jsonc"));
    }
    if same_text(n.as_slice(), "json5") {
        return Some(owned("prettier-json5"));
    }
    if same_text(n.as_slice(), "graphql") {
        return Some(owned("prettier-graphql"));
    }
    if same_text(n.as_slice(), "gql") {
        return Some(owned("prettier-graphql"));
    }
    if same_text(n.as_slice(), "graphqls") {
        return Some(owned("prettier-graphql"));
    }
    if same_text(n.as_slice(), "css") {
        return Some(owned("prettier-css"));
    }
    if same_text(n.as_slice(), "scss") {
        return Some(owned("prettier-scss"));
    }
    if same_text(n.as_slice(), "less") {
        return Some(owned("prettier-less"));
    }
    if same_text(n.as_slice(), "postcss") {
        return Some(owned("prettier-postcss"));
    }
    if same_text(n.as_slice(), "pcss") {
        return Some(owned("prettier-postcss"));
    }
    if same_text(n.as_slice(), "html") {
        return Some(owned("prettier-html"));
    }
    if same_text(n.as_slice(), "js") {
        return Some(owned("prettier-js"));
    }
    if same_text(n.as_slice(), "javascript") {
        return Some(owned("prettier-js"));
    }
    if same_text(n.as_slice(), "jsx") {
        return Some(owned("prettier-jsx"));
    }
    if same_text(n.as_slice(), "ts") {
        return Some(owned("prettier-ts"));
    }
    if same_text(n.as_slice(), "typescript") {
        return Some(owned("prettier-ts"));
    }
    if same_text(n.as_slice(), "tsx") {
        return Some(owned("prettier-tsx"));
    }
    None
}

/// The built-in formatters by name.
pub open spec fn spec_builtin_formatter(name: Seq<char>) -> Option<(Seq<Seq<char>>, Seq<char>, ExternalFormatterMode)> {
    if name == "ruff"@ {
        Some((seq!["ruff"@, "format"@, "--stdin-filename"@, "{path}"@, "-"@], ".ipynb"@, ExternalFormatterMode::PythonNotebookCell))
    } else if name == "air"@ {
        Some((seq!["air"@, "format"@, "--stdin-file-path"@, "{path}"@], ".R"@, ExternalFormatterMode::Raw))
    } else if name == "mdformat"@ {
        Some((seq!["mdformat"@, "-"@], ".md"@, ExternalFormatterMode::Raw))
    } else if name == "prettier-json"@ {
        Some(spec_prettier(".json"@))
    } else if name == "prettier-jsonc"@ {
        Some(spec_prettier(".jsonc"@))
    } else if name == "prettier-json5"@ {
        Some(spec_prettier(".json5"@))
    } else if name == "prettier-graphql"@ {
        Some(spec_prettier(".graphql"@))
    } else if name == "prettier-css"@ {
        Some(spec_prettier(".css"@))
    } else if name == "prettier-scss"@ {
        Some(spec_prettier(".scss"@))
    } else if name == "prettier-less"@ {
        Some(spec_prettier(".less"@))
    } else if name == "prettier-postcss"@ {
        Some(spec_prettier(".pcss"@))
    } else if name == "prettier-html"@ {
        Some(spec_prettier(".html"@))
    } else if name == "prettier-js"@ {
        Some(spec_prettier(".js"@))
    } else if name == "prettier-jsx"@ {
        Some(spec_prettier(".jsx"@))
    } else if name == "prettier-ts"@ {
        Some(spec_prettier(".ts"@))
    } else if name == "prettier-tsx"@ {
        Some(spec_prettier(".tsx"@))
    } else {
        None
    }
}

/// The built-in formatter of that name.
pub fn builtin_formatter(name: &str) -> (r: Option<ExternalFormatter>)
    ensures
        match spec_builtin_formatter(name@) {
            Some(f) => r matches Some(x) && x@ == f,
            None => r is None,
        },
{
    let n = str_chars(name);
    if same_text(n.as_slice(), "ruff") {
        let command = vec![owned("ruff"), owned("format"), owned("--stdin-filename"), owned("{path}"), owned("-")];
        let r = ExternalFormatter { command, path_suffix: owned(".ipynb"), mode: ExternalFormatterMode::PythonNotebookCell };
        assert(r@.0 == seq!["ruff"@, "format"@, "--stdin-filename"@, "{path}"@, "-"@]);
        return Some(r);
    }
    if same_text(n.as_slice(), "air") {
        let command = vec![owned("air"), owned("format"), owned("--stdin-file-path"), owned("{path}")];
        let r = ExternalFormatter { command, path_suffix: owned(".R"), mode: ExternalFormatterMode::Raw };
        assert(r@.0 == seq!["air"@, "format"@, "--stdin-file-path"@, "{path}"@]);
        return Some(r);
    }
    if same_text(n.as_slice(), "mdformat") {
        let command = vec![owned("mdformat"), owned("-")];
        let r = ExternalFormatter { command, path_suffix: owned(".md"), mode: ExternalFormatterMode::Raw };
        assert(r@.0 == seq!["mdformat"@, "-"@]);
        return Some(r);
    }
    if same_text(n.as_slice(), "prettier-json") {
        return Some(prettier(".json"));
    }
    if same_text(n.as_slice(), "prettier-jsonc") {
        return Some(prettier(".jsonc"));
    }
    if same_text(n.as_slice(), "prettier-json5") {
        return Some(prettier(".json5"));
    }
    if same_text(n.as_slice(), "prettier-graphql") {
        return Some(prettier(".graphql"));
    }
    if same_text(n.as_slice(), "prettier-css") {
        return Some(prettier(".css"));
    }
    if same_text(n.as_slice(), "prettier-scss") {
        return Some(prettier(".scss"));
    }
    if same_text(n.as_slice(), "prettier-less") {
        return Some(prettier(".less"));
    }
    if same_text(n.as_slice(), "prettier-postcss") {
        return Some(prettier(".pcss"));
    }
    if same_text(n.as_slice(), "prettier-html") {
        return Some(prettier(".html"));
    }
    if same_text(n.as_slice(), "prettier-js") {
        return Some(prettier(".js"));
    }
    if same_text(n.as_slice(), "prettier-jsx") {
        return Some(prettier(".jsx"));
    }
    if same_text(n.as_slice(), "prettier-ts") {
        return Some(prettier(".ts"));
    }
    if same_text(n.as_slice(), "prettier-tsx") {
        return Some(prettier(".tsx"));
    }
    None
}

/// The end of the run of ASCII digits that starts at `i`.
pub open spec fn spec_digit_run_end(s: Seq<char>, i: int) -> int
    decreases s.len() - i,
{
    if i < 0 || i >= s.len() || !crate::text::spec_digit(s[i]) {
        i
    } else {
        spec_digit_run_end(s, i + 1)
    }
}

/// The decimal value of the digits `s[start..end]`.
pub open spec fn spec_digits_value(s: Seq<char>, start: int, end: int) -> nat
    decreases end - start,
{
    if end <= start {
        0
    } else {
        spec_digits_value(s, start, end - 1) * 10 + ((s[end - 1] as int) - ('0' as int)) as nat
    }
}

proof fn lemma_digits_value_grows(s: Seq<char>, start: int, i: int, j: int)
    requires
        start <= i <= j,
        forall|k: int| start <= k < j ==> crate::text::spec_digit(#[trigger] s[k]),
    ensures
        spec_digits_value(s, start, i) <= spec_digits_value(s, start, j),
    decreases j - i,
{
    if i < j {
        lemma_digits_value_grows(s, start, i, j - 1);
    }
}

proof fn lemma_digit_run(s: Seq<char>, i: int)
    requires
        0 <= i,
    ensures
        i <= spec_digit_run_end(s, i),
        i <= s.len() ==> spec_digit_run_end(s, i) <= s.len(),
        forall|k: int| i <= k < spec_digit_run_end(s, i) ==> crate::text::spec_digit(#[trigger] s[k]),
    decreases s.len() - i,
{
    if i < s.len() && crate::text::spec_digit(s[i]) {
        lemma_digit_run(s, i + 1);
    }
}

/// A positive decimal number that fits in `usize` at `start`, and where its
/// digits end.
pub open spec fn spec_parse_number(s: Seq<char>, start: int) -> Option<(int, int)> {
    if start < 0 || start >= s.len() || !crate::text::spec_digit(s[start]) {
        None
    } else {
        let end = spec_digit_run_end(s, start);
        let v = spec_digits_value(s, start, end);
        if v > usize::MAX || v == 0 {
            None
        } else {
            Some((v as int, end))
        }
    }
}

pub fn parse_number(s: &[char], start: usize) -> (r: Option<(usize, usize)>)
    ensures
        match spec_parse_number(s@, start as int) {
            Some((v, e)) => r == Some((v as usize, e as usize)),
            None => r is None,
        },
        r matches Some((_, e)) ==> start < e <= s@.len(),
        spec_parse_number(s@, start as int) matches Some((v, e)) ==> 0 < v <= usize::MAX && start < e <= s@.len(),
{
    let n = s.len();
    proof {
        if start < n {
            lemma_digit_run(s@, start as int);
        }
    }
    if start >= n || !crate::text::is_digit(s[start]) {
        return None;
    }
    proof {
        lemma_digit_run(s@, start as int);
    }
    let ghost end = spec_digit_run_end(s@, start as int);
    let mut i = start;
    let mut value: usize = 0;
    while i < n && crate::text::is_digit(s[i])
        invariant
            n == s@.len(),
            start <= i <= end <= n,
            end == spec_digit_run_end(s@, start as int),
            forall|k: int| start <= k < end ==> crate::text::spec_digit(#[trigger] s@[k]),
            forall|k: int| start <= k < i ==> crate::text::spec_digit(#[trigger] s@[k]),
            spec_digit_run_end(s@, i as int) == end,
            value == spec_digits_value(s@, start as int, i as int),
        decreases n - i,
    {
        proof {
            lemma_digit_run(s@, i + 1);
        }
        let d = (s[i] as u32 - '0' as u32) as usize;
        let next = match value.checked_mul(10) {
            None => {
                proof {
                    lemma_digits_value_grows(s@, start as int, i + 1, end);
                }
                return None;
            },
            Some(m) => match m.checked_add(d) {
                None => {
                    proof {
                        lemma_digits_value_grows(s@, start as int, i + 1, end);
                    }
                    return None;
                },
                Some(v) => v,
            },
        };
        value = next;
        i = i + 1;
    }
    if value > 0 {
        Some((value, i))
    } else {
        None
    }
}

/// The first `(line:column)` of a message.
pub open spec fn spec_parenthesized_location_from(s: Seq<char>, i: int) -> Option<(int, int)>
    decreases s.len() - i,
{
    if i < 0 || i >= s.len() {
        None
    } else {
        let here = if s[i] == '(' {
            match spec_parse_number(s, i + 1) {
                Some((line, after_line)) => if after_line < s.len() && s[after_line] == ':' {
                    match spec_parse_number(s, after_line + 1) {
                        Some((column, after_column)) => if after_column < s.len() && s[after_column] == ')' {
                            Some((line, column))
                        } else {
                            None
                        },
                        None => None,
                    }
                } else {
                    None
                },
                None => None,
            }
        } else {
            None
        };
        if here is Some {
            here
        } else {
            spec_parenthesized_location_from(s, i + 1)
        }
    }
}

/// The first `:line:column` of a message.
pub open spec fn spec_colon_location_from(s: Seq<char>, i: int) -> Option<(int, int)>
    decreases s.len() - i,
{
    if i < 0 || i >= s.len() {
        None
    } else {
        let here = if s[i] == ':' {
            match spec_parse_number(s, i + 1) {
                Some((line, after_line)) => if after_line < s.len() && s[after_line] == ':' {
                    match spec_parse_number(s, after_line + 1) {
                        Some((column, _)) => Some((line, column)),
                        None => None,
                    }
                } else {
                    None
                },
                None => None,
            }
        } else {
            None
        };
        if here is Some {
            here
        } else {
            spec_colon_location_from(s, i + 1)
        }
    }
}

/// The `(line:column)` at `i`, if one starts there.
fn parenthesized_location_at(s: &[char], i: usize) -> (r: Option<(usize, usize)>)
    requires
        i < s@.len(),
    ensures
        ({
            let here = if s@[i as int] == '(' {
                match spec_parse_number(s@, i + 1) {
                    Some((line, after_line)) => if after_line < s@.len() && s@[after_line] == ':' {
                        match spec_parse_number(s@, after_line + 1) {
                            Some((column, after_column)) => if after_column < s@.len() && s@[after_column] == ')' {
                                Some((line, column))
                            } else {
                                None
                            },
                            None => None,
                        }
                    } else {
                        None
                    },
                    None => None,
                }
            } else {
                None
            };
            match here {
                Some((l, c)) => r == Some((l as usize, c as usize)),
                None => r is None,
            }
        }),
{
    let n = s.len();
    if s[i] != '(' {
        return None;
    }
    let (line, after_line) = match parse_number(s, i + 1) {
        Some(p) => p,
        None => {
            return None;
        },
    };
    if !(after_line < n && s[after_line] == ':') {
        return None;
    }
    let (column, after_column) = match parse_number(s, after_line + 1) {
        Some(p) => p,
        None => {
            return None;
        },
    };
    if after_column < n && s[after_column] == ')' {
        Some((line, column))
    } else {
        None
    }
}

/// The `:line:column` at `i`, if one starts there.
fn colon_location_at(s: &[char], i: usize) -> (r: Option<(usize, usize)>)
    requires
        i < s@.len(),
    ensures
        ({
            let here = if s@[i as int] == ':' {
                match spec_parse_number(s@, i + 1) {
                    Some((line, after_line)) => if after_line < s@.len() && s@[after_line] == ':' {
                        match spec_parse_number(s@, after_line + 1) {
                            Some((column, _)) => Some((line, column)),
                            None => None,
                        }
                    } else {
                        None
                    },
                    None => None,
                }
            } else {
                None
            };
            match here {
                Some((l, c)) => r == Some((l as usize, c as usize)),
                None => r is None,
            }
        }),
{
    let n = s.len();
    if s[i] != ':' {
        return None;
    }
    let (line, after_line) = match parse_number(s, i + 1) {
        Some(p) => p,
        None => {
            return None;
        },
    };
    if !(after_line < n && s[after_line] == ':') {
        return None;
    }
    match parse_number(s, after_line + 1) {
        Some((column, _)) => Some((line, column)),
        None => None,
    }
}

/// The first `(line:column)` of a formatter's error message.
pub fn parenthesized_location(s: &[char]) -> (r: Option<(usize, usize)>)
    ensures
        match spec_parenthesized_location_from(s@, 0) {
            Some((l, c)) => r == Some((l as usize, c as usize)),
            None => r is None,
        },
{
    let mut i: usize = 0;
    while i < s.len()
        invariant
            i <= s@.len(),
            spec_parenthesized_location_from(s@, i as int) == spec_parenthesized_location_from(s@, 0),
        decreases s@.len() - i,
    {
        if let Some(found) = parenthesized_location_at(s, i) {
            return Some(found);
        }
        i = i + 1;
    }
    None
}

/// The first `:line:column` of a formatter's error message.
pub fn colon_delimited_location(s: &[char]) -> (r: Option<(usize, usize)>)
    ensures
        match spec_colon_location_from(s@, 0) {
            Some((l, c)) => r == Some((l as usize, c as usize)),
            None => r is None,
        },
{
    let mut i: usize = 0;
    while i < s.len()
        invariant
            i <= s@.len(),
            spec_colon_location_from(s@, i as int) == spec_colon_location_from(s@, 0),
        decreases s@.len() - i,
    {
        if let Some(found) = colon_location_at(s, i) {
            return Some(found);
        }
        i = i + 1;
    }
    None
}

proof fn lemma_location_bounds(s: Seq<char>, i: int)
    ensures
        spec_parenthesized_location_from(s, i) matches Some((l, c)) ==> 0 < l <= usize::MAX && 0 < c <= usize::MAX,
        spec_colon_location_from(s, i) matches Some((l, c)) ==> 0 < l <= usize::MAX && 0 < c <= usize::MAX,
    decreases s.len() - i,
{
    if 0 <= i < s.len() {
        lemma_location_bounds(s, i + 1);
    }
}

/// Where a formatter's error message says the error is: a `(line:column)`,
/// else a `:line:column`.
pub open spec fn spec_formatter_failure_location(s: Seq<char>) -> Option<(int, int)> {
    match spec_parenthesized_location_from(s, 0) {
        Some(p) => Some(p),
        None => spec_colon_location_from(s, 0),
    }
}

pub fn formatter_failure_location(message: &[char]) -> (r: Option<(usize, usize)>)
    ensures
        match spec_formatter_failure_location(message@) {
            Some((l, c)) => r == Some((l as usize, c as usize)),
            None => r is None,
        },
{
    match parenthesized_location(message) {
        Some(p) => Some(p),
        None => colon_delimited_location(message),
    }
}

/// Formatters whose executables are commonly absent are skipped when
/// missing; any other configured formatter must be there.
pub open spec fn spec_missing_executable_policy(f: (Seq<Seq<char>>, Seq<char>, ExternalFormatterMode)) -> MissingExecutablePolicy {
    if f.0.len() > 0 && (f.0[0] == "air"@ || f.0[0] == "mdformat"@ || f.0[0] == "prettier"@ || f.0[0] == "ruff"@) {
        MissingExecutablePolicy::Skip
    } else {
        MissingExecutablePolicy::Error
    }
}

pub fn missing_executable_policy_for_configured_formatter(formatter: &ExternalFormatter) -> (r: MissingExecutablePolicy)
    ensures
        r == spec_missing_executable_policy(formatter@),
{
    if formatter.command.len() == 0 {
        return MissingExecutablePolicy::Error;
    }
    let first = str_chars(formatter.command[0].as_str());
    assert(first@ == formatter@.0[0]);
    if same_text(first.as_slice(), "air") || same_text(first.as_slice(), "mdformat") || same_text(
        first.as_slice(),
        "prettier",
    ) || same_text(first.as_slice(), "ruff") {
        MissingExecutablePolicy::Skip
    } else {
        MissingExecutablePolicy::Error
    }
}


/// A configured formatter and what happens when its executable is missing.
#[derive(Debug)]
pub struct RegisteredFormatter {
    pub formatter: ExternalFormatter,
    pub missing_executable: MissingExecutablePolicy,
}

/// The formatters of a run by name, the path of the source being formatted,
/// and the notes that formatter runs left.
#[derive(Debug)]
pub struct PluginRegistry {
    external: Vec<(String, RegisteredFormatter)>,
    source_path: Option<String>,
    diagnostics: Vec<Diagnostic>,
}

/// A formatter run to make: the formatter, its missing-executable policy,
/// and the virtual path of the code.
#[derive(Debug)]
pub struct RunPlan {
    pub formatter: ExternalFormatter,
    pub missing_executable: MissingExecutablePolicy,
    pub virtual_path: String,
}

/// `{source}.embedded.{line}{suffix}`, where the source is the source path
/// or `yamark`.
pub open spec fn spec_virtual_path(source_path: Option<Seq<char>>, line: nat, suffix: Seq<char>) -> Seq<char> {
    let base = match source_path {
        Some(p) => p,
        None => "yamark"@,
    };
    base + ".embedded."@ + spec_decimal(line) + suffix
}

/// The name shown in a note about a formatter: its executable, else the
/// name it was asked for by.
pub open spec fn spec_executable(command: Seq<Seq<char>>, name: Seq<char>) -> Seq<char> {
    if command.len() > 0 {
        command[0]
    } else {
        name
    }
}

/// The note about a missing optional formatter.
pub open spec fn spec_missing_note(executable: Seq<char>) -> Seq<char> {
    "missing optional embedded formatter `"@ + executable + "`; preserved source"@
}

/// The note about a failed optional formatter.
pub open spec fn spec_failed_note(executable: Seq<char>, message: Seq<char>) -> Seq<char> {
    match spec_formatter_failure_location(message) {
        Some((l, c)) => "embedded formatter `"@ + executable + "` failed at formatter input "@ + spec_decimal(
            l as nat,
        ) + ":"@ + spec_decimal(c as nat) + "; left chunk unchanged"@,
        None => "embedded formatter `"@ + executable + "` failed; left chunk unchanged"@,
    }
}

/// The views of configured `(name, formatter)` entries.
pub open spec fn configured_views(entries: Seq<(String, ExternalFormatter)>) -> Seq<(Seq<char>, (Seq<Seq<char>>, Seq<char>, ExternalFormatterMode))> {
    entries.map_values(|e: (String, ExternalFormatter)| (e.0@, e.1@))
}

/// The formatters that registering the configured entries in order gives:
/// each under its name, with the missing-executable policy of its
/// executable.
pub open spec fn spec_configured_formatters(
    entries: Seq<(Seq<char>, (Seq<Seq<char>>, Seq<char>, ExternalFormatterMode))>,
) -> Map<Seq<char>, ((Seq<Seq<char>>, Seq<char>, ExternalFormatterMode), MissingExecutablePolicy)>
    decreases entries.len(),
{
    if entries.len() == 0 {
        Map::empty()
    } else {
        let last = entries.last();
        spec_configured_formatters(entries.drop_last()).insert(last.0, (last.1, spec_missing_executable_policy(last.1)))
    }
}

impl PluginRegistry {
    /// The registered names, in order.
    pub closed spec fn names(self) -> Seq<Seq<char>> {
        self.external@.map_values(|e: (String, RegisteredFormatter)| e.0@)
    }

    /// The registered formatters by name.
    pub closed spec fn formatters(self) -> Map<Seq<char>, ((Seq<Seq<char>>, Seq<char>, ExternalFormatterMode), MissingExecutablePolicy)> {
        Map::new(
            |name: Seq<char>| exists|k: int| 0 <= k < self.external@.len() && self.external@[k].0@ == name,
            |name: Seq<char>| {
                let k = choose|k: int| 0 <= k < self.external@.len() && self.external@[k].0@ == name;
                (self.external@[k].1.formatter@, self.external@[k].1.missing_executable)
            },
        )
    }

    /// No name is registered twice.
    pub closed spec fn wf(self) -> bool {
        forall|i: int, j: int|
            0 <= i < j < self.external@.len() ==> self.external@[i].0@ != self.external@[j].0@
    }

    pub closed spec fn source(self) -> Option<Seq<char>> {
        match self.source_path {
            Some(p) => Some(p@),
            None => None,
        }
    }

    /// The notes that formatter runs left, in order.
    pub closed spec fn notes(self) -> Seq<(crate::diagnostic::Severity, Option<Seq<char>>, usize, usize, Seq<char>)> {
        self.diagnostics@.map_values(|d: Diagnostic| d@)
    }

    /// A registry with no formatters, no source path and no notes.
    pub fn new() -> (r: Self)
        ensures
            r.wf(),
            r.formatters() == Map::<Seq<char>, ((Seq<Seq<char>>, Seq<char>, ExternalFormatterMode), MissingExecutablePolicy)>::empty(),
            r.source() is None,
            r.notes().len() == 0,
    {
        let r = PluginRegistry { external: Vec::new(), source_path: None, diagnostics: Vec::new() };
        assert(r.formatters() =~= Map::empty());
        r
    }

    /// The registry holding the formatters a configuration names, each
    /// under its name; `configured` holds the configuration's entries in
    /// the order it lists them, and a later entry of a name replaces an
    /// earlier one.
    pub fn from_config(configured: Vec<(String, ExternalFormatter)>) -> (r: Self)
        ensures
            r.wf(),
            r.formatters() == spec_configured_formatters(configured_views(configured@)),
            r.source() is None,
            r.notes().len() == 0,
    {
        let ghost views = configured_views(configured@);
        let mut registry = PluginRegistry::new();
        let mut entries = configured;
        let ghost mut k: int = 0;
        assert(views.subrange(0, 0) =~= Seq::<(Seq<char>, (Seq<Seq<char>>, Seq<char>, ExternalFormatterMode))>::empty());
        assert(configured_views(entries@) =~= views.subrange(0, views.len() as int));
        while entries.len() > 0
            invariant
                0 <= k <= views.len(),
                configured_views(entries@) == views.subrange(k, views.len() as int),
                registry.wf(),
                registry.formatters() == spec_configured_formatters(views.subrange(0, k)),
                registry.source() is None,
                registry.notes().len() == 0,
            decreases entries@.len(),
        {
            let ghost before = entries@;
            let (name, formatter) = entries.remove(0);
            proof {
                assert(views[k] == (name@, formatter@)) by {
                    assert(configured_views(before)[0] == views.subrange(k, views.len() as int)[0]);
                }
                assert(configured_views(entries@) =~= views.subrange(k + 1, views.len() as int)) by {
                    assert(entries@ == before.remove(0));
                    assert forall|j: int| 0 <= j < entries@.len() implies #[trigger] configured_views(entries@)[j]
                        == views.subrange(k + 1, views.len() as int)[j] by {
                        assert(entries@[j] == before[j + 1]);
                        assert(configured_views(before)[j + 1] == views.subrange(k, views.len() as int)[j + 1]);
                    }
                }
                assert(views.subrange(0, k + 1).drop_last() =~= views.subrange(0, k));
            }
            registry.insert(name, formatter);
            proof {
                k = k + 1;
            }
        }
        assert(views.subrange(0, k) =~= views);
        registry
    }

    /// The registry for the source at `path`.
    pub fn with_source_path(self, path: &str) -> (r: Self)
        ensures
            r.wf() == self.wf(),
            r.formatters() == self.formatters(),
            r.source() == Some(path@),
            r.notes() == self.notes(),
    {
        let mut r = self;
        r.source_path = Some(owned(path));
        assert(r.external@ == self.external@);
        assert(r.wf() == self.wf());
        r
    }

    /// A name is known when it is configured or stands for a built-in
    /// formatter.
    pub fn is_known_formatter(configured: &Vec<String>, name: &str) -> (r: bool)
        ensures
            r == (string_views(configured@).contains(name@) || spec_default_formatter_name(name@) is Some),
    {
        let n = str_chars(name);
        let mut k: usize = 0;
        while k < configured.len()
            invariant
                k <= configured@.len(),
                n@ == name@,
                forall|j: int| 0 <= j < k ==> configured@[j]@ != name@,
            decreases configured@.len() - k,
        {
            let c = str_chars(configured[k].as_str());
            if crate::text::chars_eq(c.as_slice(), n.as_slice()) {
                assert(string_views(configured@)[k as int] == name@);
                return true;
            }
            k = k + 1;
        }
        assert(!string_views(configured@).contains(name@));
        default_formatter_name(name).is_some()
    }

    /// The position of `name` among the registered formatters.
    fn position(&self, name: &[char]) -> (r: Option<usize>)
        ensures
            match r {
                Some(k) => k < self.external@.len() && self.external@[k as int].0@ == name@,
                None => forall|k: int| 0 <= k < self.external@.len() ==> self.external@[k].0@ != name@,
            },
    {
        let mut k: usize = 0;
        while k < self.external.len()
            invariant
                k <= self.external@.len(),
                forall|j: int| 0 <= j < k ==> self.external@[j].0@ != name@,
            decreases self.external@.len() - k,
        {
            let c = str_chars(self.external[k].0.as_str());
            if crate::text::chars_eq(c.as_slice(), name) {
                return Some(k);
            }
            k = k + 1;
        }
        None
    }

    /// Registers `formatter` under `name`, replacing any formatter of that
    /// name; its missing-executable policy follows from its executable.
    pub fn insert(&mut self, name: String, formatter: ExternalFormatter)
        requires
            old(self).wf(),
        ensures
            final(self).wf(),
            final(self).formatters() == old(self).formatters().insert(
                name@,
                (formatter@, spec_missing_executable_policy(formatter@)),
            ),
            final(self).source() == old(self).source(),
            final(self).notes() == old(self).notes(),
    {
        let missing_executable = missing_executable_policy_for_configured_formatter(&formatter);
        let ghost fv = formatter@;
        let key = str_chars(name.as_str());
        let entry = (name, RegisteredFormatter { formatter, missing_executable });
        match self.position(key.as_slice()) {
            Some(k) => {
                let ghost before = self.external@;
                self.external.set(k, entry);
                proof {
                    assert(self.external@ == before.update(k as int, entry));
                    assert forall|i: int, j: int| 0 <= i < j < self.external@.len() implies self.external@[i].0@
                        != self.external@[j].0@ by {
                        if i != k && j != k {
                            assert(self.external@[i] == before[i]);
                            assert(self.external@[j] == before[j]);
                        } else if i == k {
                            assert(self.external@[j] == before[j]);
                        } else {
                            assert(self.external@[i] == before[i]);
                        }
                    }
                    assert(self.formatters() =~= old(self).formatters().insert(
                        name@,
                        (fv, spec_missing_executable_policy(fv)),
                    )) by {
                        assert forall|n: Seq<char>| #[trigger] self.formatters().dom().contains(n) <==> old(self).formatters().insert(
                            name@,
                            (fv, spec_missing_executable_policy(fv)),
                        ).dom().contains(n) by {
                            if n != name@ && old(self).formatters().dom().contains(n) {
                                let w = choose|w: int| 0 <= w < before.len() && before[w].0@ == n;
                                assert(self.external@[w].0@ == n);
                            }
                            if n != name@ && self.formatters().dom().contains(n) {
                                let w = choose|w: int| 0 <= w < self.external@.len() && self.external@[w].0@ == n;
                                assert(before[w].0@ == n);
                            }
                            if n == name@ {
                                assert(self.external@[k as int].0@ == n);
                            }
                        }
                        assert forall|n: Seq<char>| #[trigger] self.formatters().dom().contains(n) implies self.formatters()[n]
                            == old(self).formatters().insert(name@, (fv, spec_missing_executable_policy(fv)))[n] by {
                            let w = choose|w: int| 0 <= w < self.external@.len() && self.external@[w].0@ == n;
                            if n == name@ {
                                assert(w == k);
                            } else {
                                let w2 = choose|w2: int| 0 <= w2 < before.len() && before[w2].0@ == n;
                                assert(w2 == w);
                            }
                        }
                    }
                }
            },
            None => {
                let ghost before = self.external@;
                self.external.push(entry);
                proof {
                    let last = self.external@.len() - 1;
                    assert forall|i: int, j: int| 0 <= i < j < self.external@.len() implies self.external@[i].0@
                        != self.external@[j].0@ by {
                        assert(self.external@[i] == before[i]);
                        if j < last {
                            assert(self.external@[j] == before[j]);
                        }
                    }
                    assert(self.formatters() =~= old(self).formatters().insert(
                        name@,
                        (fv, spec_missing_executable_policy(fv)),
                    )) by {
                        assert forall|n: Seq<char>| #[trigger] self.formatters().dom().contains(n) <==> old(self).formatters().insert(
                            name@,
                            (fv, spec_missing_executable_policy(fv)),
                        ).dom().contains(n) by {
                            if n != name@ && old(self).formatters().dom().contains(n) {
                                let w = choose|w: int| 0 <= w < before.len() && before[w].0@ == n;
                                assert(self.external@[w].0@ == n);
                            }
                            if n != name@ && self.formatters().dom().contains(n) {
                                let w = choose|w: int| 0 <= w < self.external@.len() && self.external@[w].0@ == n;
                                assert(w != last);
                                assert(before[w].0@ == n);
                            }
                            if n == name@ {
                                assert(self.external@[last].0@ == n);
                            }
                        }
                        assert forall|n: Seq<char>| #[trigger] self.formatters().dom().contains(n) implies self.formatters()[n]
                            == old(self).formatters().insert(name@, (fv, spec_missing_executable_policy(fv)))[n] by {
                            let w = choose|w: int| 0 <= w < self.external@.len() && self.external@[w].0@ == n;
                            if n == name@ {
                                assert(w == last);
                            } else {
                                let w2 = choose|w2: int| 0 <= w2 < before.len() && before[w2].0@ == n;
                                assert(self.external@[w2] == before[w2]);
                                assert(w2 == w);
                            }
                        }
                    }
                }
            },
        }
    }

    /// The notes that formatter runs left.
    pub fn diagnostics(&self) -> (r: Vec<Diagnostic>)
        ensures
            r@.map_values(|d: Diagnostic| d@) == self.notes(),
    {
        let mut out: Vec<Diagnostic> = Vec::new();
        let mut k: usize = 0;
        while k < self.diagnostics.len()
            invariant
                k <= self.diagnostics@.len(),
                out@.map_values(|d: Diagnostic| d@) == self.diagnostics@.map_values(|d: Diagnostic| d@).subrange(0, k as int),
            decreases self.diagnostics@.len() - k,
        {
            let ghost before = out@;
            let d = self.diagnostics[k].copy();
            out.push(d);
            assert(out@.map_values(|d: Diagnostic| d@) == before.map_values(|d: Diagnostic| d@).push(d@));
            k = k + 1;
        }
        assert(self.diagnostics@.map_values(|d: Diagnostic| d@).subrange(0, k as int) == self.notes());
        out
    }
}

/// A formatter registered under a name is what a run of that name uses,
/// in place of any built-in formatter of that name, and registering it
/// leaves every other name as it was.
pub proof fn lemma_registered_formatter_is_used(
    before: PluginRegistry,
    after: PluginRegistry,
    name: Seq<char>,
    formatter: (Seq<Seq<char>>, Seq<char>, ExternalFormatterMode),
)
    requires
        after.formatters() == before.formatters().insert(name, (formatter, spec_missing_executable_policy(formatter))),
    ensures
        after.formatters().dom().contains(name),
        after.formatters()[name] == (formatter, spec_missing_executable_policy(formatter)),
        forall|other: Seq<char>|
            other != name ==> (#[trigger] after.formatters().dom().contains(other) == before.formatters().dom().contains(
                other,
            )) && (before.formatters().dom().contains(other) ==> after.formatters()[other] == before.formatters()[other]),
{
}

/// The view of a note of a formatter run at `line` of the source.
pub open spec fn spec_run_note(message: Seq<char>, source: Option<Seq<char>>, line: usize) -> (
    crate::diagnostic::Severity,
    Option<Seq<char>>,
    usize,
    usize,
    Seq<char>,
) {
    (crate::diagnostic::Severity::Note, source, if line >= 1 { line } else { 1 }, 1, message)
}

impl PluginRegistry {
    /// Appends a note of a formatter run.
    fn push_note(&mut self, message: Vec<char>, line: usize)
        ensures
            final(self).wf() == old(self).wf(),
            final(self).formatters() == old(self).formatters(),
            final(self).source() == old(self).source(),
            final(self).notes() == old(self).notes().push(spec_run_note(message@, old(self).source(), line)),
    {
        let mut d = Diagnostic::note(chars_to_string(message.as_slice())).at(line, 1);
        match &self.source_path {
            Some(p) => {
                d = d.with_path(p.as_str());
            },
            None => {},
        }
        let ghost before = self.diagnostics@;
        let ghost ext = self.external@;
        self.diagnostics.push(d);
        assert(self.diagnostics@.map_values(|d: Diagnostic| d@) == before.map_values(|d: Diagnostic| d@).push(d@));
        assert(self.external@ == ext);
    }

    /// The run to make for the formatter `name` on code at `line`: the
    /// registered formatter of that name, else the built-in formatter that
    /// the name stands for (skipped when its executable is missing), else
    /// none.
    pub fn plan_run(&self, name: &str, line: usize) -> (r: Option<RunPlan>)
        requires
            self.wf(),
        ensures
            self.formatters().dom().contains(name@) ==> (r matches Some(plan) && plan.formatter@ == self.formatters()[name@].0
                && plan.missing_executable == self.formatters()[name@].1 && plan.virtual_path@ == spec_virtual_path(
                self.source(),
                line as nat,
                self.formatters()[name@].0.1,
            )),
            !self.formatters().dom().contains(name@) ==> match spec_default_formatter_name(name@) {
                Some(d) => match spec_builtin_formatter(d) {
                    Some(f) => r matches Some(plan) && plan.formatter@ == f && plan.missing_executable
                        == MissingExecutablePolicy::Skip && plan.virtual_path@ == spec_virtual_path(self.source(), line as nat, f.1),
                    None => r is None,
                },
                None => r is None,
            },
    {
        let key = str_chars(name);
        let (formatter, missing_executable) = match self.position(key.as_slice()) {
            Some(k) => {
                proof {
                    assert(self.formatters().dom().contains(name@));
                    let w = choose|w: int| 0 <= w < self.external@.len() && self.external@[w].0@ == name@;
                    assert(w == k);
                }
                (copy_formatter(&self.external[k].1.formatter), self.external[k].1.missing_executable)
            },
            None => {
                assert(!self.formatters().dom().contains(name@));
                let default_name = match default_formatter_name(name) {
                    Some(d) => d,
                    None => {
                        return None;
                    },
                };
                match builtin_formatter(default_name.as_str()) {
                    Some(f) => (f, MissingExecutablePolicy::Skip),
                    None => {
                        return None;
                    },
                }
            },
        };
        let mut path: Vec<char> = match &self.source_path {
            Some(p) => str_chars(p.as_str()),
            None => str_chars("yamark"),
        };
        let middle = str_chars(".embedded.");
        push_all(&mut path, middle.as_slice());
        push_decimal(&mut path, line);
        let suffix = str_chars(formatter.path_suffix.as_str());
        push_all(&mut path, suffix.as_slice());
        Some(RunPlan { formatter, missing_executable, virtual_path: chars_to_string(path.as_slice()) })
    }

    /// Takes what the run of `plan` for the formatter `name` came to: the
    /// formatted code, or nothing with a note when an optional formatter
    /// failed or was missing.
    pub fn finish_run(&mut self, name: &str, plan: &RunPlan, line: usize, output: ExternalFormatterOutput) -> (r: Option<String>)
        ensures
            final(self).wf() == old(self).wf(),
            final(self).formatters() == old(self).formatters(),
            final(self).source() == old(self).source(),
            match output {
                ExternalFormatterOutput::Formatted(o) => r matches Some(x) && x@ == o@ && final(self).notes() == old(self).notes(),
                ExternalFormatterOutput::FormatterFailed(m) => r is None && final(self).notes() == old(self).notes().push(
                    spec_run_note(spec_failed_note(spec_executable(plan.formatter@.0, name@), m@), old(self).source(), line),
                ),
                ExternalFormatterOutput::MissingExecutable => r is None && final(self).notes() == if plan.missing_executable
                    == MissingExecutablePolicy::Skip {
                    old(self).notes().push(
                        spec_run_note(spec_missing_note(spec_executable(plan.formatter@.0, name@)), old(self).source(), line),
                    )
                } else {
                    old(self).notes()
                },
            },
    {
        let executable = if plan.formatter.command.len() > 0 {
            str_chars(plan.formatter.command[0].as_str())
        } else {
            str_chars(name)
        };
        match output {
            ExternalFormatterOutput::Formatted(o) => Some(o),
            ExternalFormatterOutput::FormatterFailed(message) => {
                let m = str_chars(message.as_str());
                let note = failed_note(executable.as_slice(), m.as_slice());
                self.push_note(note, line);
                None
            },
            ExternalFormatterOutput::MissingExecutable => {
                if plan.missing_executable == MissingExecutablePolicy::Skip {
                    let mut note = str_chars("missing optional embedded formatter `");
                    push_all(&mut note, executable.as_slice());
                    let tail = str_chars("`; preserved source");
                    push_all(&mut note, tail.as_slice());
                    self.push_note(note, line);
                }
                None
            },
        }
    }
}

/// The note about a failed optional formatter.
fn failed_note(executable: &[char], message: &[char]) -> (r: Vec<char>)
    ensures
        r@ == spec_failed_note(executable@, message@),
{
    let mut out = str_chars("embedded formatter `");
    push_all(&mut out, executable);
    proof {
        lemma_location_bounds(message@, 0);
    }
    match formatter_failure_location(message) {
        Some((line, column)) => {
            let a = str_chars("` failed at formatter input ");
            push_all(&mut out, a.as_slice());
            push_decimal(&mut out, line);
            let colon = str_chars(":");
            push_all(&mut out, colon.as_slice());
            push_decimal(&mut out, column);
            let b = str_chars("; left chunk unchanged");
            push_all(&mut out, b.as_slice());
        },
        None => {
            let a = str_chars("` failed; left chunk unchanged");
            push_all(&mut out, a.as_slice());
        },
    }
    out
}

/// The command line as shown in messages: the program and its arguments,
/// separated by spaces.
pub open spec fn spec_display_command(program: Seq<char>, args: Seq<Seq<char>>) -> Seq<char>
    decreases args.len(),
{
    if args.len() == 0 {
        program
    } else {
        spec_display_command(program, args.drop_last()) + seq![' '] + args.last()
    }
}

pub fn display_command(program: &str, args: &Vec<String>) -> (r: String)
    ensures
        r@ == spec_display_command(program@, string_views(args@)),
{
    let mut out = str_chars(program);
    let mut k: usize = 0;
    while k < args.len()
        invariant
            k <= args@.len(),
            out@ == spec_display_command(program@, string_views(args@).subrange(0, k as int)),
        decreases args@.len() - k,
    {
        proof {
            assert(string_views(args@).subrange(0, k + 1).drop_last() == string_views(args@).subrange(0, k as int));
        }
        out.push(' ');
        let a = str_chars(args[k].as_str());
        push_all(&mut out, a.as_slice());
        k = k + 1;
    }
    assert(string_views(args@).subrange(0, args@.len() as int) == string_views(args@));
    chars_to_string(out.as_slice())
}

/// The arguments of a formatter's command, with `{path}` replaced by the
/// virtual path.
pub open spec fn spec_command_args(command: Seq<Seq<char>>, virtual_path: Seq<char>) -> Seq<Seq<char>> {
    command.subrange(1, command.len() as int).map_values(|a: Seq<char>| if a == "{path}"@ { virtual_path } else { a })
}

impl ExternalFormatter {
    /// The program to run and its arguments; none for an empty command.
    pub fn program_and_args(&self, virtual_path: &str) -> (r: Option<(String, Vec<String>)>)
        ensures
            self@.0.len() == 0 <==> r is None,
            r matches Some((program, args)) ==> program@ == self@.0[0] && string_views(args@) == spec_command_args(
                self@.0,
                virtual_path@,
            ),
    {
        let n = self.command.len();
        if n == 0 {
            return None;
        }
        let program = copy_string(&self.command[0]);
        let ghost want = spec_command_args(self@.0, virtual_path@);
        let mut args: Vec<String> = Vec::new();
        let mut k: usize = 1;
        while k < n
            invariant
                1 <= k <= n == self.command@.len(),
                want == spec_command_args(self@.0, virtual_path@),
                string_views(args@) == want.subrange(0, k - 1),
            decreases n - k,
        {
            let a = str_chars(self.command[k].as_str());
            let ghost before = args@;
            if same_text(a.as_slice(), "{path}") {
                args.push(owned(virtual_path));
            } else {
                args.push(copy_string(&self.command[k]));
            }
            assert(string_views(args@) == string_views(before).push(want[k - 1]));
            k = k + 1;
        }
        assert(want.subrange(0, n - 1) == want);
        Some((program, args))
    }
}

/// The lower-case hexadecimal digit for a value below 16.
pub open spec fn spec_hex_lower(v: nat) -> char {
    if v < 10 {
        (v + 48) as char
    } else {
        (v + 87) as char
    }
}

/// How `serde_json` writes one character inside a string literal: `"`, `\`
/// and the control characters below U+0020 are escaped (`\b`, `\t`, `\n`,
/// `\f`, `\r`, else `\u00` and two lower-case hexadecimal digits); every
/// other character is written as it is.
pub open spec fn spec_json_escape_char(c: char) -> Seq<char> {
    if c == '"' {
        seq!['\\', '"']
    } else if c == '\\' {
        seq!['\\', '\\']
    } else if c == '\u{8}' {
        seq!['\\', 'b']
    } else if c == '\t' {
        seq!['\\', 't']
    } else if c == '\n' {
        seq!['\\', 'n']
    } else if c == '\u{c}' {
        seq!['\\', 'f']
    } else if c == '\r' {
        seq!['\\', 'r']
    } else if (c as u32) < 0x20 {
        seq!['\\', 'u', '0', '0', spec_hex_lower((c as nat) / 16), spec_hex_lower((c as nat) % 16)]
    } else {
        seq![c]
    }
}

pub open spec fn spec_json_escape_body(s: Seq<char>) -> Seq<char>
    decreases s.len(),
{
    if s.len() == 0 {
        Seq::empty()
    } else {
        spec_json_escape_body(s.drop_last()) + spec_json_escape_char(s.last())
    }
}

/// The compact JSON string literal of `s`.
pub open spec fn spec_json_string_literal(s: Seq<char>) -> Seq<char> {
    seq!['"'] + spec_json_escape_body(s) + seq!['"']
}

/// `serde_json::to_string` on a string. Serializing a `str` into the
/// in-memory buffer cannot fail; the result is the string's JSON literal,
/// escaped as `spec_json_escape_char` says.
#[verifier::external_body]
fn json_string_literal(s: &str) -> (r: Result<String, String>)
    ensures
        r is Ok,
        r matches Ok(v) ==> v@ == spec_json_string_literal(s@),
{
    match serde_json::to_string(s) {
        Ok(v) => Ok(v),
        Err(e) => Err(e.to_string()),
    }
}

/// The notebook that carries `source` as its only code cell, as compact
/// JSON with the keys in order.
pub open spec fn spec_notebook(literal: Seq<char>) -> Seq<char> {
    "{\"cells\":[{\"cell_type\":\"code\",\"metadata\":{},\"outputs\":[],\"source\":"@ + literal
        + "}],\"metadata\":{},\"nbformat\":4,\"nbformat_minor\":5}"@
}

impl ExternalFormatterMode {
    /// What the formatter reads: the code, or a notebook holding it.
    pub fn process_input(self, input: &str) -> (r: Result<String, YamarkError>)
        ensures
            self == ExternalFormatterMode::Raw ==> (r matches Ok(v) && v@ == input@),
            self == ExternalFormatterMode::PythonNotebookCell ==> (r matches Ok(v) && v@ == spec_notebook(
                spec_json_string_literal(input@),
            )),
    {
        match self {
            ExternalFormatterMode::Raw => Ok(owned(input)),
            ExternalFormatterMode::PythonNotebookCell => match json_string_literal(input) {
                Ok(literal) => {
                    let mut out = str_chars(
                        "{\"cells\":[{\"cell_type\":\"code\",\"metadata\":{},\"outputs\":[],\"source\":",
                    );
                    let lit = str_chars(literal.as_str());
                    push_all(&mut out, lit.as_slice());
                    let tail = str_chars("}],\"metadata\":{},\"nbformat\":4,\"nbformat_minor\":5}");
                    push_all(&mut out, tail.as_slice());
                    Ok(chars_to_string(out.as_slice()))
                },
                Err(err) => {
                    let mut m = str_chars("failed to encode embedded formatter notebook: ");
                    let ghost head = m@;
                    let e = str_chars(err.as_str());
                    push_all(&mut m, e.as_slice());
                    assert(m@.subrange(0, head.len() as int) == head);
                    Err(error_from_chars(m.as_slice()))
                },
            },
        }
    }

    /// What the formatter's output holds: the code, or the source of the
    /// notebook's cell (the output parsed as JSON by the caller).
    pub fn process_output(self, output: &str, notebook: Option<Result<JsonValue, String>>) -> (r: Result<String, YamarkError>)
        requires
            self == ExternalFormatterMode::PythonNotebookCell ==> notebook is Some,
        ensures
            self == ExternalFormatterMode::Raw ==> (r matches Ok(v) && v@ == output@),
            self == ExternalFormatterMode::PythonNotebookCell ==> match notebook {
                Some(parsed) => match spec_notebook_cell_source(parsed) {
                    Ok(src) => r matches Ok(v) && v@ == src,
                    Err(m) => r matches Err(e) && e.diagnostic.message@ == m,
                },
                None => false,
            },
    {
        match self {
            ExternalFormatterMode::Raw => Ok(owned(output)),
            ExternalFormatterMode::PythonNotebookCell => match notebook {
                Some(parsed) => extract_notebook_cell_source(parsed),
                None => Err(error_from_chars(str_chars("embedded formatter notebook output is missing").as_slice())),
            },
        }
    }
}

/// The value under `key` in an object: the first property of that name.
pub open spec fn spec_json_get(props: Seq<JsonProperty>, key: Seq<char>) -> Option<JsonValue>
    decreases props.len(),
{
    if props.len() == 0 {
        None
    } else if props[0].key@ == key {
        Some(props[0].value.value)
    } else {
        spec_json_get(props.drop_first(), key)
    }
}

/// The text of a run of JSON strings, or `None` when one is no string.
pub open spec fn spec_string_lines(items: Seq<JsonNode>) -> Option<Seq<char>>
    decreases items.len(),
{
    if items.len() == 0 {
        Some(seq![])
    } else {
        match spec_string_lines(items.drop_last()) {
            None => None,
            Some(t) => match items.last().value {
                JsonValue::String(s) => Some(t + s@),
                _ => None,
            },
        }
    }
}

/// The source of the only cell of a formatted notebook, or the message of
/// what is wrong with it.
pub open spec fn spec_notebook_cell_source(parsed: Result<JsonValue, String>) -> Result<Seq<char>, Seq<char>> {
    match parsed {
        Err(e) => Err("embedded formatter emitted invalid notebook JSON: "@ + e@),
        Ok(v) => {
            let cells = match v {
                JsonValue::Object(props) => match spec_json_get(props@, "cells"@) {
                    Some(JsonValue::Array(items)) => Some(items@),
                    _ => None,
                },
                _ => None,
            };
            match cells {
                None => Err("embedded formatter notebook output must contain cells"@),
                Some(items) => if items.len() != 1 {
                    Err("embedded formatter notebook output must contain exactly one cell"@)
                } else {
                    let source = match items[0].value {
                        JsonValue::Object(props) => spec_json_get(props@, "source"@),
                        _ => None,
                    };
                    match source {
                        None => Err("embedded formatter notebook output cell must contain source"@),
                        Some(JsonValue::String(s)) => Ok(s@),
                        Some(JsonValue::Array(lines)) => match spec_string_lines(lines@) {
                            Some(t) => Ok(t),
                            None => Err("embedded formatter notebook output source lines must be strings"@),
                        },
                        Some(_) => Err("embedded formatter notebook output source must be a string or string array"@),
                    }
                },
            }
        },
    }
}

/// The value under `key` in an object's properties.
fn json_get<'a>(props: &'a Vec<JsonProperty>, key: &str) -> (r: Option<&'a JsonValue>)
    ensures
        match spec_json_get(props@, key@) {
            Some(v) => r matches Some(x) && *x == v,
            None => r is None,
        },
{
    let k = str_chars(key);
    let mut i: usize = 0;
    assert(props@.subrange(0, props@.len() as int) == props@);
    while i < props.len()
        invariant
            i <= props@.len(),
            k@ == key@,
            spec_json_get(props@.subrange(i as int, props@.len() as int), key@) == spec_json_get(props@, key@),
        decreases props@.len() - i,
    {
        proof {
            assert(props@.subrange(i as int, props@.len() as int).drop_first() == props@.subrange(i + 1, props@.len() as int));
        }
        if crate::text::chars_eq(props[i].key.as_slice(), k.as_slice()) {
            return Some(&props[i].value.value);
        }
        i = i + 1;
    }
    None
}

/// The source of the only cell of a formatted notebook.
pub fn extract_notebook_cell_source(parsed: Result<JsonValue, String>) -> (r: Result<String, YamarkError>)
    ensures
        match spec_notebook_cell_source(parsed) {
            Ok(src) => r matches Ok(v) && v@ == src,
            Err(m) => r matches Err(e) && e.diagnostic.message@ == m,
        },
{
    let value = match parsed {
        Err(e) => {
            let mut m = str_chars("embedded formatter emitted invalid notebook JSON: ");
            let ec = str_chars(e.as_str());
            push_all(&mut m, ec.as_slice());
            return Err(error_from_chars(m.as_slice()));
        },
        Ok(v) => v,
    };
    let cells = match &value {
        JsonValue::Object(props) => match json_get(props, "cells") {
            Some(JsonValue::Array(items)) => Some(items),
            _ => None,
        },
        _ => None,
    };
    let items = match cells {
        None => {
            return Err(error_from_chars(str_chars("embedded formatter notebook output must contain cells").as_slice()));
        },
        Some(items) => items,
    };
    if items.len() != 1 {
        return Err(
            error_from_chars(str_chars("embedded formatter notebook output must contain exactly one cell").as_slice()),
        );
    }
    let source = match &items[0].value {
        JsonValue::Object(props) => json_get(props, "source"),
        _ => None,
    };
    match source {
        None => Err(error_from_chars(str_chars("embedded formatter notebook output cell must contain source").as_slice())),
        Some(JsonValue::String(s)) => Ok(chars_to_string(s.as_slice())),
        Some(JsonValue::Array(lines)) => {
            let mut out: Vec<char> = Vec::new();
            let mut k: usize = 0;
            assert(lines@.subrange(0, 0) == Seq::<JsonNode>::empty());
            while k < lines.len()
                invariant
                    k <= lines@.len(),
                    spec_string_lines(lines@.subrange(0, k as int)) == Some(out@),
                decreases lines@.len() - k,
            {
                proof {
                    assert(lines@.subrange(0, k + 1).drop_last() == lines@.subrange(0, k as int));
                    assert(lines@.subrange(0, k + 1).last() == lines@[k as int]);
                }
                match &lines[k].value {
                    JsonValue::String(t) => {
                        push_all(&mut out, t.as_slice());
                    },
                    _ => {
                        proof {
                            lemma_string_lines_none(lines@, k + 1);
                        }
                        return Err(
                            error_from_chars(
                                str_chars("embedded formatter notebook output source lines must be strings").as_slice(),
                            ),
                        );
                    },
                }
                k = k + 1;
            }
            assert(lines@.subrange(0, lines@.len() as int) == lines@);
            Ok(chars_to_string(out.as_slice()))
        },
        Some(_) => Err(
            error_from_chars(
                str_chars("embedded formatter notebook output source must be a string or string array").as_slice(),
            ),
        ),
    }
}

proof fn lemma_string_lines_none(items: Seq<JsonNode>, k: int)
    requires
        0 <= k <= items.len(),
        spec_string_lines(items.subrange(0, k)) is None,
    ensures
        spec_string_lines(items) is None,
    decreases items.len() - k,
{
    if k < items.len() {
        assert(items.subrange(0, k + 1).drop_last() == items.subrange(0, k));
        lemma_string_lines_none(items, k + 1);
    } else {
        assert(items.subrange(0, k) == items);
    }
}

/// What a finished formatter process left: whether it succeeded, its exit
/// code (none when a signal ended it) and the text of its status, its
/// standard error (decoded lossily), its standard output (or the text of
/// the UTF-8 error when it is not UTF-8), and the text of the error of
/// writing its standard input, if any.
#[derive(Debug)]
pub struct ProcessResult {
    pub success: bool,
    pub exit_code: Option<i32>,
    pub status_text: String,
    pub stderr: String,
    pub stdout: Result<String, String>,
    pub stdin_error: Option<String>,
}

/// A signed decimal number.
pub open spec fn spec_signed_decimal(v: int) -> Seq<char> {
    if v < 0 {
        seq!['-'] + spec_decimal((-v) as nat)
    } else {
        spec_decimal(v as nat)
    }
}

fn push_signed_decimal(out: &mut Vec<char>, v: i32)
    ensures
        final(out)@ == old(out)@ + spec_signed_decimal(v as int),
{
    if v < 0 {
        out.push('-');
        let magnitude: i64 = -(v as i64);
        push_decimal(out, magnitude as usize);
    } else {
        push_decimal(out, v as usize);
    }
}

/// How a failed run's status is shown: `exit status N`, or the status text
/// when a signal ended it.
pub open spec fn spec_status(exit_code: Option<i32>, status_text: Seq<char>) -> Seq<char> {
    match exit_code {
        Some(code) => "exit status "@ + spec_signed_decimal(code as int),
        None => status_text,
    }
}

/// What a finished formatter process comes to: a failure of an optional
/// formatter, an error, or its standard output.
pub open spec fn spec_finish_process(
    missing: MissingExecutablePolicy,
    command: Seq<char>,
    virtual_path: Seq<char>,
    success: bool,
    exit_code: Option<i32>,
    status_text: Seq<char>,
    stderr: Seq<char>,
    stdout: Result<Seq<char>, Seq<char>>,
    stdin_error: Option<Seq<char>>,
) -> Result<Result<Seq<char>, Seq<char>>, Seq<char>> {
    let message = spec_trim(stderr);
    let status = spec_status(exit_code, status_text);
    if !success {
        if missing == MissingExecutablePolicy::Skip {
            if message.len() > 0 {
                Ok(Err(message))
            } else {
                Ok(Err("command `"@ + command + "` exited with "@ + status + " for "@ + virtual_path))
            }
        } else if message.len() > 0 {
            Err(message)
        } else {
            Err("embedded formatter failed: command `"@ + command + "` exited with "@ + status + " for "@ + virtual_path)
        }
    } else if stdin_error is Some {
        Err("failed to write embedded formatter stdin: "@ + stdin_error->0)
    } else if stderr.len() > 0 {
        if message.len() == 0 {
            Err("embedded formatter wrote to stderr"@)
        } else {
            Err("embedded formatter wrote to stderr: "@ + message)
        }
    } else {
        match stdout {
            Ok(out) => Ok(Ok(out)),
            Err(e) => Err("embedded formatter emitted invalid UTF-8: "@ + e),
        }
    }
}

/// What a finished run of `program` with `args` comes to: `Formatted` with
/// its raw standard output (which the formatter's mode then turns into the
/// code), `FormatterFailed` for an optional formatter that failed, or an
/// error.
pub fn finish_process(
    missing: MissingExecutablePolicy,
    program: &str,
    args: &Vec<String>,
    virtual_path: &str,
    result: ProcessResult,
) -> (r: Result<ExternalFormatterOutput, YamarkError>)
    ensures
        match spec_finish_process(
            missing,
            spec_display_command(program@, string_views(args@)),
            virtual_path@,
            result.success,
            result.exit_code,
            result.status_text@,
            result.stderr@,
            match result.stdout {
                Ok(o) => Ok(o@),
                Err(e) => Err(e@),
            },
            match result.stdin_error {
                Some(e) => Some(e@),
                None => None,
            },
        ) {
            Ok(Ok(out)) => r matches Ok(ExternalFormatterOutput::Formatted(o)) && o@ == out,
            Ok(Err(m)) => r matches Ok(ExternalFormatterOutput::FormatterFailed(f)) && f@ == m,
            Err(m) => r matches Err(e) && e.diagnostic.message@ == m,
        },
{
    let stderr = str_chars(result.stderr.as_str());
    let message = trim(stderr.as_slice());
    let status: Vec<char> = match result.exit_code {
        Some(code) => {
            let mut s = str_chars("exit status ");
            push_signed_decimal(&mut s, code);
            s
        },
        None => str_chars(result.status_text.as_str()),
    };
    if !result.success {
        let command = display_command(program, args);
        let cc = str_chars(command.as_str());
        let vp = str_chars(virtual_path);
        let mut tail = str_chars("` exited with ");
        push_all(&mut tail, status.as_slice());
        let f = str_chars(" for ");
        push_all(&mut tail, f.as_slice());
        push_all(&mut tail, vp.as_slice());
        if missing == MissingExecutablePolicy::Skip {
            if message.len() > 0 {
                return Ok(ExternalFormatterOutput::FormatterFailed(chars_to_string(message.as_slice())));
            }
            let mut m = str_chars("command `");
            push_all(&mut m, cc.as_slice());
            push_all(&mut m, tail.as_slice());
            return Ok(ExternalFormatterOutput::FormatterFailed(chars_to_string(m.as_slice())));
        }
        if message.len() > 0 {
            return Err(error_from_chars(message.as_slice()));
        }
        let mut m = str_chars("embedded formatter failed: command `");
        push_all(&mut m, cc.as_slice());
        push_all(&mut m, tail.as_slice());
        return Err(error_from_chars(m.as_slice()));
    }
    match &result.stdin_error {
        Some(e) => {
            let mut m = str_chars("failed to write embedded formatter stdin: ");
            let ec = str_chars(e.as_str());
            push_all(&mut m, ec.as_slice());
            return Err(error_from_chars(m.as_slice()));
        },
        None => {},
    }
    if stderr.len() > 0 {
        if message.len() == 0 {
            return Err(error_from_chars(str_chars("embedded formatter wrote to stderr").as_slice()));
        }
        let mut m = str_chars("embedded formatter wrote to stderr: ");
        push_all(&mut m, message.as_slice());
        return Err(error_from_chars(m.as_slice()));
    }
    match result.stdout {
        Ok(out) => Ok(ExternalFormatterOutput::Formatted(out)),
        Err(e) => {
            let mut m = str_chars("embedded formatter emitted invalid UTF-8: ");
            let ec = str_chars(e.as_str());
            push_all(&mut m, ec.as_slice());
            Err(error_from_chars(m.as_slice()))
        },
    }
}

/// Each fence alias that is a file extension names the built-in formatter
/// for that extension: its path suffix is the alias after a dot (`html`
/// gives `.html`), so the code reaches the formatter as a file of its own
/// language. Longer language names resolve as their extensions do, every
/// alias resolves to a built-in formatter, the name of a built-in formatter
/// stands for that formatter, `python` runs the Python notebook-cell
/// formatter and `r` formats its code as an `.R` file.
#[verifier::rlimit(80)]
#[verifier::spinoff_prover]
pub proof fn lemma_fence_aliases_keep_their_language()
    ensures
        forall|name: Seq<char>|
            #![trigger spec_default_formatter_name(name)]
            name == "json"@ || name == "jsonc"@ || name == "json5"@ || name == "graphql"@ || name == "css"@ || name == "scss"@ || name == "less"@ || name == "pcss"@ || name == "html"@ || name == "js"@ || name == "jsx"@ || name == "ts"@ || name == "tsx"@
                ==> (spec_default_formatter_name(name) matches Some(f) && spec_builtin_formatter(f) matches Some(x)
                && x.1 == seq!['.'] + name),
        spec_default_formatter_name("javascript"@) == spec_default_formatter_name("js"@),
        spec_default_formatter_name("typescript"@) == spec_default_formatter_name("ts"@),
        spec_default_formatter_name("gql"@) == spec_default_formatter_name("graphql"@),
        spec_default_formatter_name("graphqls"@) == spec_default_formatter_name("graphql"@),
        spec_default_formatter_name("postcss"@) == spec_default_formatter_name("pcss"@),
        forall|name: Seq<char>|
            #[trigger] spec_default_formatter_name(name) matches Some(f) ==> spec_builtin_formatter(f) is Some,
        forall|name: Seq<char>|
            #[trigger] spec_builtin_formatter(name) is Some ==> spec_default_formatter_name(name) == Some(name),
        spec_default_formatter_name("python"@) matches Some(f) && spec_builtin_formatter(f) matches Some(x)
            && x.2 == ExternalFormatterMode::PythonNotebookCell,
        spec_default_formatter_name("r"@) matches Some(f) && spec_builtin_formatter(f) matches Some(x) && x.1
            == seq!['.', 'R'],
{
    reveal_strlit("-");
    reveal_strlit("--stdin-file-path");
    reveal_strlit("--stdin-filename");
    reveal_strlit(".R");
    reveal_strlit(".css");
    reveal_strlit(".graphql");
    reveal_strlit(".html");
    reveal_strlit(".ipynb");
    reveal_strlit(".js");
    reveal_strlit(".json");
    reveal_strlit(".json5");
    reveal_strlit(".jsonc");
    reveal_strlit(".jsx");
    reveal_strlit(".less");
    reveal_strlit(".md");
    reveal_strlit(".pcss");
    reveal_strlit(".scss");
    reveal_strlit(".ts");
    reveal_strlit(".tsx");
    reveal_strlit("air");
    reveal_strlit("css");
    reveal_strlit("format");
    reveal_strlit("gql");
    reveal_strlit("graphql");
    reveal_strlit("graphqls");
    reveal_strlit("html");
    reveal_strlit("javascript");
    reveal_strlit("js");
    reveal_strlit("json");
    reveal_strlit("json5");
    reveal_strlit("jsonc");
    reveal_strlit("jsx");
    reveal_strlit("less");
    reveal_strlit("mdformat");
    reveal_strlit("pcss");
    reveal_strlit("postcss");
    reveal_strlit("prettier-css");
    reveal_strlit("prettier-graphql");
    reveal_strlit("prettier-html");
    reveal_strlit("prettier-js");
    reveal_strlit("prettier-json");
    reveal_strlit("prettier-json5");
    reveal_strlit("prettier-jsonc");
    reveal_strlit("prettier-jsx");
    reveal_strlit("prettier-less");
    reveal_strlit("prettier-postcss");
    reveal_strlit("prettier-scss");
    reveal_strlit("prettier-ts");
    reveal_strlit("prettier-tsx");
    reveal_strlit("python");
    reveal_strlit("r");
    reveal_strlit("ruff");
    reveal_strlit("scss");
    reveal_strlit("ts");
    reveal_strlit("tsx");
    reveal_strlit("typescript");
    reveal_strlit("{path}");
    assert(spec_builtin_formatter("ruff"@) is Some) by {
        assert("ruff"@ =~= seq!['r', 'u', 'f', 'f']);
    }
    assert(spec_builtin_formatter("air"@) is Some) by {
        assert("air"@ =~= seq!['a', 'i', 'r']);
    }
    assert(spec_builtin_formatter("mdformat"@) is Some) by {
        assert("mdformat"@ =~= seq!['m', 'd', 'f', 'o', 'r', 'm', 'a', 't']);
    }
    assert(spec_builtin_formatter("prettier-json"@) is Some) by {
        assert("prettier-json"@ =~= seq!['p', 'r', 'e', 't', 't', 'i', 'e', 'r', '-', 'j', 's', 'o', 'n']);
    }
    assert(spec_builtin_formatter("prettier-jsonc"@) is Some) by {
        assert("prettier-jsonc"@ =~= seq!['p', 'r', 'e', 't', 't', 'i', 'e', 'r', '-', 'j', 's', 'o', 'n', 'c']);
    }
    assert(spec_builtin_formatter("prettier-json5"@) is Some) by {
        assert("prettier-json5"@ =~= seq!['p', 'r', 'e', 't', 't', 'i', 'e', 'r', '-', 'j', 's', 'o', 'n', '5']);
    }
    assert(spec_builtin_formatter("prettier-graphql"@) is Some) by {
        assert("prettier-graphql"@ =~= seq!['p', 'r', 'e', 't', 't', 'i', 'e', 'r', '-', 'g', 'r', 'a', 'p', 'h', 'q', 'l']);
    }
    assert(spec_builtin_formatter("prettier-css"@) is Some) by {
        assert("prettier-css"@ =~= seq!['p', 'r', 'e', 't', 't', 'i', 'e', 'r', '-', 'c', 's', 's']);
    }
    assert(spec_builtin_formatter("prettier-scss"@) is Some) by {
        assert("prettier-scss"@ =~= seq!['p', 'r', 'e', 't', 't', 'i', 'e', 'r', '-', 's', 'c', 's', 's']);
    }
    assert(spec_builtin_formatter("prettier-less"@) is Some) by {
        assert("prettier-less"@ =~= seq!['p', 'r', 'e', 't', 't', 'i', 'e', 'r', '-', 'l', 'e', 's', 's']);
    }
    assert(spec_builtin_formatter("prettier-postcss"@) is Some) by {
        assert("prettier-postcss"@ =~= seq!['p', 'r', 'e', 't', 't', 'i', 'e', 'r', '-', 'p', 'o', 's', 't', 'c', 's', 's']);
    }
    assert(spec_builtin_formatter("prettier-html"@) is Some) by {
        assert("prettier-html"@ =~= seq!['p', 'r', 'e', 't', 't', 'i', 'e', 'r', '-', 'h', 't', 'm', 'l']);
    }
    assert(spec_builtin_formatter("prettier-js"@) is Some) by {
        assert("prettier-js"@ =~= seq!['p', 'r', 'e', 't', 't', 'i', 'e', 'r', '-', 'j', 's']);
    }
    assert(spec_builtin_formatter("prettier-jsx"@) is Some) by {
        assert("prettier-jsx"@ =~= seq!['p', 'r', 'e', 't', 't', 'i', 'e', 'r', '-', 'j', 's', 'x']);
    }
    assert(spec_builtin_formatter("prettier-ts"@) is Some) by {
        assert("prettier-ts"@ =~= seq!['p', 'r', 'e', 't', 't', 'i', 'e', 'r', '-', 't', 's']);
    }
    assert(spec_builtin_formatter("prettier-tsx"@) is Some) by {
        assert("prettier-tsx"@ =~= seq!['p', 'r', 'e', 't', 't', 'i', 'e', 'r', '-', 't', 's', 'x']);
    }
    assert(spec_default_formatter_name("json"@) == Some("prettier-json"@) && spec_builtin_formatter("prettier-json"@) == Some(spec_prettier(".json"@)) && ".json"@ == seq!['.'] + "json"@) by {
        assert("json"@ =~= seq!['j', 's', 'o', 'n']);
        assert("prettier-json"@ =~= seq!['p', 'r', 'e', 't', 't', 'i', 'e', 'r', '-', 'j', 's', 'o', 'n']);
        assert(".json"@ =~= seq!['.', 'j', 's', 'o', 'n']);
    }
    assert(spec_default_formatter_name("jsonc"@) == Some("prettier-jsonc"@) && spec_builtin_formatter("prettier-jsonc"@) == Some(spec_prettier(".jsonc"@)) && ".jsonc"@ == seq!['.'] + "jsonc"@) by {
        assert("jsonc"@ =~= seq!['j', 's', 'o', 'n', 'c']);
        assert("prettier-jsonc"@ =~= seq!['p', 'r', 'e', 't', 't', 'i', 'e', 'r', '-', 'j', 's', 'o', 'n', 'c']);
        assert(".jsonc"@ =~= seq!['.', 'j', 's', 'o', 'n', 'c']);
    }
    assert(spec_default_formatter_name("json5"@) == Some("prettier-json5"@) && spec_builtin_formatter("prettier-json5"@) == Some(spec_prettier(".json5"@)) && ".json5"@ == seq!['.'] + "json5"@) by {
        assert("json5"@ =~= seq!['j', 's', 'o', 'n', '5']);
        assert("prettier-json5"@ =~= seq!['p', 'r', 'e', 't', 't', 'i', 'e', 'r', '-', 'j', 's', 'o', 'n', '5']);
        assert(".json5"@ =~= seq!['.', 'j', 's', 'o', 'n', '5']);
    }
    assert(spec_default_formatter_name("graphql"@) == Some("prettier-graphql"@) && spec_builtin_formatter("prettier-graphql"@) == Some(spec_prettier(".graphql"@)) && ".graphql"@ == seq!['.'] + "graphql"@) by {
        assert("graphql"@ =~= seq!['g', 'r', 'a', 'p', 'h', 'q', 'l']);
        assert("prettier-graphql"@ =~= seq!['p', 'r', 'e', 't', 't', 'i', 'e', 'r', '-', 'g', 'r', 'a', 'p', 'h', 'q', 'l']);
        assert(".graphql"@ =~= seq!['.', 'g', 'r', 'a', 'p', 'h', 'q', 'l']);
    }
    assert(spec_default_formatter_name("css"@) == Some("prettier-css"@) && spec_builtin_formatter("prettier-css"@) == Some(spec_prettier(".css"@)) && ".css"@ == seq!['.'] + "css"@) by {
        assert("css"@ =~= seq!['c', 's', 's']);
        assert("prettier-css"@ =~= seq!['p', 'r', 'e', 't', 't', 'i', 'e', 'r', '-', 'c', 's', 's']);
        assert(".css"@ =~= seq!['.', 'c', 's', 's']);
    }
    assert(spec_default_formatter_name("scss"@) == Some("prettier-scss"@) && spec_builtin_formatter("prettier-scss"@) == Some(spec_prettier(".scss"@)) && ".scss"@ == seq!['.'] + "scss"@) by {
        assert("scss"@ =~= seq!['s', 'c', 's', 's']);
        assert("prettier-scss"@ =~= seq!['p', 'r', 'e', 't', 't', 'i', 'e', 'r', '-', 's', 'c', 's', 's']);
        assert(".scss"@ =~= seq!['.', 's', 'c', 's', 's']);
    }
    assert(spec_default_formatter_name("less"@) == Some("prettier-less"@) && spec_builtin_formatter("prettier-less"@) == Some(spec_prettier(".less"@)) && ".less"@ == seq!['.'] + "less"@) by {
        assert("less"@ =~= seq!['l', 'e', 's', 's']);
        assert("prettier-less"@ =~= seq!['p', 'r', 'e', 't', 't', 'i', 'e', 'r', '-', 'l', 'e', 's', 's']);
        assert(".less"@ =~= seq!['.', 'l', 'e', 's', 's']);
    }
    assert(spec_default_formatter_name("pcss"@) == Some("prettier-postcss"@) && spec_builtin_formatter("prettier-postcss"@) == Some(spec_prettier(".pcss"@)) && ".pcss"@ == seq!['.'] + "pcss"@) by {
        assert("pcss"@ =~= seq!['p', 'c', 's', 's']);
        assert("prettier-postcss"@ =~= seq!['p', 'r', 'e', 't', 't', 'i', 'e', 'r', '-', 'p', 'o', 's', 't', 'c', 's', 's']);
        assert(".pcss"@ =~= seq!['.', 'p', 'c', 's', 's']);
    }
    assert(spec_default_formatter_name("html"@) == Some("prettier-html"@) && spec_builtin_formatter("prettier-html"@) == Some(spec_prettier(".html"@)) && ".html"@ == seq!['.'] + "html"@) by {
        assert("html"@ =~= seq!['h', 't', 'm', 'l']);
        assert("prettier-html"@ =~= seq!['p', 'r', 'e', 't', 't', 'i', 'e', 'r', '-', 'h', 't', 'm', 'l']);
        assert(".html"@ =~= seq!['.', 'h', 't', 'm', 'l']);
    }
    assert(spec_default_formatter_name("js"@) == Some("prettier-js"@) && spec_builtin_formatter("prettier-js"@) == Some(spec_prettier(".js"@)) && ".js"@ == seq!['.'] + "js"@) by {
        assert("js"@ =~= seq!['j', 's']);
        assert("prettier-js"@ =~= seq!['p', 'r', 'e', 't', 't', 'i', 'e', 'r', '-', 'j', 's']);
        assert(".js"@ =~= seq!['.', 'j', 's']);
    }
    assert(spec_default_formatter_name("jsx"@) == Some("prettier-jsx"@) && spec_builtin_formatter("prettier-jsx"@) == Some(spec_prettier(".jsx"@)) && ".jsx"@ == seq!['.'] + "jsx"@) by {
        assert("jsx"@ =~= seq!['j', 's', 'x']);
        assert("prettier-jsx"@ =~= seq!['p', 'r', 'e', 't', 't', 'i', 'e', 'r', '-', 'j', 's', 'x']);
        assert(".jsx"@ =~= seq!['.', 'j', 's', 'x']);
    }
    assert(spec_default_formatter_name("ts"@) == Some("prettier-ts"@) && spec_builtin_formatter("prettier-ts"@) == Some(spec_prettier(".ts"@)) && ".ts"@ == seq!['.'] + "ts"@) by {
        assert("ts"@ =~= seq!['t', 's']);
        assert("prettier-ts"@ =~= seq!['p', 'r', 'e', 't', 't', 'i', 'e', 'r', '-', 't', 's']);
        assert(".ts"@ =~= seq!['.', 't', 's']);
    }
    assert(spec_default_formatter_name("tsx"@) == Some("prettier-tsx"@) && spec_builtin_formatter("prettier-tsx"@) == Some(spec_prettier(".tsx"@)) && ".tsx"@ == seq!['.'] + "tsx"@) by {
        assert("tsx"@ =~= seq!['t', 's', 'x']);
        assert("prettier-tsx"@ =~= seq!['p', 'r', 'e', 't', 't', 'i', 'e', 'r', '-', 't', 's', 'x']);
        assert(".tsx"@ =~= seq!['.', 't', 's', 'x']);
    }
    assert(spec_default_formatter_name("javascript"@) == spec_default_formatter_name("js"@)) by {
        assert("javascript"@ =~= seq!['j', 'a', 'v', 'a', 's', 'c', 'r', 'i', 'p', 't']);
        assert("js"@ =~= seq!['j', 's']);
    }
    assert(spec_default_formatter_name("typescript"@) == spec_default_formatter_name("ts"@)) by {
        assert("typescript"@ =~= seq!['t', 'y', 'p', 'e', 's', 'c', 'r', 'i', 'p', 't']);
        assert("ts"@ =~= seq!['t', 's']);
    }
    assert(spec_default_formatter_name("gql"@) == spec_default_formatter_name("graphql"@)) by {
        assert("gql"@ =~= seq!['g', 'q', 'l']);
        assert("graphql"@ =~= seq!['g', 'r', 'a', 'p', 'h', 'q', 'l']);
    }
    assert(spec_default_formatter_name("graphqls"@) == spec_default_formatter_name("graphql"@)) by {
        assert("graphqls"@ =~= seq!['g', 'r', 'a', 'p', 'h', 'q', 'l', 's']);
        assert("graphql"@ =~= seq!['g', 'r', 'a', 'p', 'h', 'q', 'l']);
    }
    assert(spec_default_formatter_name("postcss"@) == spec_default_formatter_name("pcss"@)) by {
        assert("postcss"@ =~= seq!['p', 'o', 's', 't', 'c', 's', 's']);
        assert("pcss"@ =~= seq!['p', 'c', 's', 's']);
    }
    assert(spec_default_formatter_name("ruff"@) == Some("ruff"@)) by {
        assert("ruff"@ =~= seq!['r', 'u', 'f', 'f']);
    }
    assert(spec_default_formatter_name("air"@) == Some("air"@)) by {
        assert("air"@ =~= seq!['a', 'i', 'r']);
    }
    assert(spec_default_formatter_name("mdformat"@) == Some("mdformat"@)) by {
        assert("mdformat"@ =~= seq!['m', 'd', 'f', 'o', 'r', 'm', 'a', 't']);
    }
    assert(spec_default_formatter_name("prettier-json"@) == Some("prettier-json"@)) by {
        assert("prettier-json"@ =~= seq!['p', 'r', 'e', 't', 't', 'i', 'e', 'r', '-', 'j', 's', 'o', 'n']);
    }
    assert(spec_default_formatter_name("prettier-jsonc"@) == Some("prettier-jsonc"@)) by {
        assert("prettier-jsonc"@ =~= seq!['p', 'r', 'e', 't', 't', 'i', 'e', 'r', '-', 'j', 's', 'o', 'n', 'c']);
    }
    assert(spec_default_formatter_name("prettier-json5"@) == Some("prettier-json5"@)) by {
        assert("prettier-json5"@ =~= seq!['p', 'r', 'e', 't', 't', 'i', 'e', 'r', '-', 'j', 's', 'o', 'n', '5']);
    }
    assert(spec_default_formatter_name("prettier-graphql"@) == Some("prettier-graphql"@)) by {
        assert("prettier-graphql"@ =~= seq!['p', 'r', 'e', 't', 't', 'i', 'e', 'r', '-', 'g', 'r', 'a', 'p', 'h', 'q', 'l']);
    }
    assert(spec_default_formatter_name("prettier-css"@) == Some("prettier-css"@)) by {
        assert("prettier-css"@ =~= seq!['p', 'r', 'e', 't', 't', 'i', 'e', 'r', '-', 'c', 's', 's']);
    }
    assert(spec_default_formatter_name("prettier-scss"@) == Some("prettier-scss"@)) by {
        assert("prettier-scss"@ =~= seq!['p', 'r', 'e', 't', 't', 'i', 'e', 'r', '-', 's', 'c', 's', 's']);
    }
    assert(spec_default_formatter_name("prettier-less"@) == Some("prettier-less"@)) by {
        assert("prettier-less"@ =~= seq!['p', 'r', 'e', 't', 't', 'i', 'e', 'r', '-', 'l', 'e', 's', 's']);
    }
    assert(spec_default_formatter_name("prettier-postcss"@) == Some("prettier-postcss"@)) by {
        assert("prettier-postcss"@ =~= seq!['p', 'r', 'e', 't', 't', 'i', 'e', 'r', '-', 'p', 'o', 's', 't', 'c', 's', 's']);
    }
    assert(spec_default_formatter_name("prettier-html"@) == Some("prettier-html"@)) by {
        assert("prettier-html"@ =~= seq!['p', 'r', 'e', 't', 't', 'i', 'e', 'r', '-', 'h', 't', 'm', 'l']);
    }
    assert(spec_default_formatter_name("prettier-js"@) == Some("prettier-js"@)) by {
        assert("prettier-js"@ =~= seq!['p', 'r', 'e', 't', 't', 'i', 'e', 'r', '-', 'j', 's']);
    }
    assert(spec_default_formatter_name("prettier-jsx"@) == Some("prettier-jsx"@)) by {
        assert("prettier-jsx"@ =~= seq!['p', 'r', 'e', 't', 't', 'i', 'e', 'r', '-', 'j', 's', 'x']);
    }
    assert(spec_default_formatter_name("prettier-ts"@) == Some("prettier-ts"@)) by {
        assert("prettier-ts"@ =~= seq!['p', 'r', 'e', 't', 't', 'i', 'e', 'r', '-', 't', 's']);
    }
    assert(spec_default_formatter_name("prettier-tsx"@) == Some("prettier-tsx"@)) by {
        assert("prettier-tsx"@ =~= seq!['p', 'r', 'e', 't', 't', 'i', 'e', 'r', '-', 't', 's', 'x']);
    }
    assert(spec_default_formatter_name("python"@) == Some("ruff"@)) by {
        assert("python"@ =~= seq!['p', 'y', 't', 'h', 'o', 'n']);
    }
    assert(spec_default_formatter_name("r"@) == Some("air"@)) by {
        assert("r"@ =~= seq!['r']);
    }
    assert(".R"@ =~= seq!['.', 'R']);
}

} // verus!
