//! Diagnostics and the library's error type.
use vstd::prelude::*;
use crate::text::{chars_to_string, push_all, push_decimal, spec_decimal, str_chars};

verus! {

#[derive(Debug, Clone, Copy, PartialEq, Eq, Structural)]
pub enum Severity {
    Error,
    Note,
}

#[derive(Debug, Clone)]
pub struct Diagnostic {
    pub severity: Severity,
    pub path: Option<String>,
    pub line: usize,
    pub column: usize,
    pub message: String,
}

impl View for Diagnostic {
    type V = (Severity, Option<Seq<char>>, usize, usize, Seq<char>);

    open spec fn view(&self) -> (Severity, Option<Seq<char>>, usize, usize, Seq<char>) {
        (
            self.severity,
            match self.path {
                Some(p) => Some(p@),
                None => None,
            },
            self.line,
            self.column,
            self.message@,
        )
    }
}

impl Diagnostic {
    /// A copy of the diagnostic.
    pub fn copy(&self) -> (r: Self)
        ensures
            r@ == self@,
    {
        let path = match &self.path {
            Some(p) => {
                let c = str_chars(p.as_str());
                Some(chars_to_string(c.as_slice()))
            },
            None => None,
        };
        let m = str_chars(self.message.as_str());
        Diagnostic { severity: self.severity, path, line: self.line, column: self.column, message: chars_to_string(m.as_slice()) }
    }
}

pub open spec fn spec_severity_word(s: Severity) -> Seq<char> {
    match s {
        Severity::Error => seq!['e', 'r', 'r', 'o', 'r'],
        Severity::Note => seq!['n', 'o', 't', 'e'],
    }
}

/// `path:line:column: severity: message`, or without the path.
pub open spec fn spec_render(d: Diagnostic) -> Seq<char> {
    let tail = spec_decimal(d.line as nat) + seq![':'] + spec_decimal(d.column as nat) + seq![
        ':',
        ' ',
    ] + spec_severity_word(d.severity) + seq![':', ' '] + d.message@;
    match d.path {
        Some(p) => p@ + seq![':'] + tail,
        None => tail,
    }
}

impl Diagnostic {
    pub fn error(message: String) -> (r: Self)
        ensures
            r.severity == Severity::Error,
            r.path is None,
            r.line == 1 && r.column == 1,
            r.message@ == message@,
    {
        Diagnostic { severity: Severity::Error, path: None, line: 1, column: 1, message }
    }

    pub fn note(message: String) -> (r: Self)
        ensures
            r.severity == Severity::Note,
            r.path is None,
            r.line == 1 && r.column == 1,
            r.message@ == message@,
    {
        Diagnostic { severity: Severity::Note, path: None, line: 1, column: 1, message }
    }

    pub fn with_path(self, path: &str) -> (r: Self)
        ensures
            r.severity == self.severity,
            r.path matches Some(p) && p@ == path@,
            r.line == self.line && r.column == self.column,
            r.message@ == self.message@,
    {
        let mut d = self;
        d.path = Some(path.to_owned());
        d
    }

    /// Moves the diagnostic to a one-based position; zero becomes one.
    pub fn at(self, line: usize, column: usize) -> (r: Self)
        ensures
            r.severity == self.severity,
            r.path == self.path,
            r.line == (if line >= 1 { line } else { 1 }),
            r.column == (if column >= 1 { column } else { 1 }),
            r.message@ == self.message@,
    {
        let mut d = self;
        d.line = if line >= 1 {
            line
        } else {
            1
        };
        d.column = if column >= 1 {
            column
        } else {
            1
        };
        d
    }

    pub fn render(&self) -> (r: String)
        ensures
            r@ == spec_render(*self),
    {
        let mut out: Vec<char> = Vec::new();
        match &self.path {
            Some(p) => {
                let pc = str_chars(p.as_str());
                push_all(&mut out, pc.as_slice());
                out.push(':');
            },
            None => {},
        }
        push_decimal(&mut out, self.line);
        out.push(':');
        push_decimal(&mut out, self.column);
        out.push(':');
        out.push(' ');
        let word = match self.severity {
            Severity::Error => vec!['e', 'r', 'r', 'o', 'r'],
            Severity::Note => vec!['n', 'o', 't', 'e'],
        };
        push_all(&mut out, word.as_slice());
        out.push(':');
        out.push(' ');
        let m = str_chars(self.message.as_str());
        push_all(&mut out, m.as_slice());
        proof {
            let tail = spec_decimal(self.line as nat) + seq![':'] + spec_decimal(self.column as nat)
                + seq![':', ' '] + spec_severity_word(self.severity) + seq![':', ' '] + self.message@;
            if self.path is Some {
                assert(out@ =~= self.path->0@ + seq![':'] + tail);
            } else {
                assert(out@ =~= tail);
            }
        }
        chars_to_string(out.as_slice())
    }
}

#[derive(Debug, Clone)]
pub struct YamarkError {
    pub diagnostic: Diagnostic,
}

impl YamarkError {
    pub fn new(message: String) -> (r: Self)
        ensures
            r.diagnostic.severity == Severity::Error,
            r.diagnostic.path is None,
            r.diagnostic.line == 1 && r.diagnostic.column == 1,
            r.diagnostic.message@ == message@,
    {
        YamarkError { diagnostic: Diagnostic::error(message) }
    }

    pub fn at(message: String, line: usize, column: usize) -> (r: Self)
        ensures
            r.diagnostic.severity == Severity::Error,
            r.diagnostic.path is None,
            r.diagnostic.line == (if line >= 1 { line } else { 1 }),
            r.diagnostic.column == (if column >= 1 { column } else { 1 }),
            r.diagnostic.message@ == message@,
    {
        YamarkError { diagnostic: Diagnostic::error(message).at(line, column) }
    }

    pub fn with_path(self, path: &str) -> (r: Self)
        ensures
            r.diagnostic.severity == self.diagnostic.severity,
            r.diagnostic.path matches Some(p) && p@ == path@,
            r.diagnostic.line == self.diagnostic.line,
            r.diagnostic.column == self.diagnostic.column,
            r.diagnostic.message@ == self.diagnostic.message@,
    {
        YamarkError { diagnostic: self.diagnostic.with_path(path) }
    }

    /// The error wrapping a diagnostic.
    pub fn from_diagnostic(diagnostic: Diagnostic) -> (r: Self)
        ensures
            r.diagnostic == diagnostic,
    {
        YamarkError { diagnostic }
    }

    /// The rendered diagnostic, which is the error's message.
    pub fn message(&self) -> (r: String)
        ensures
            r@ == spec_render(self.diagnostic),
    {
        self.diagnostic.render()
    }
}

/// The error of a message given as characters.
pub fn error_from_chars(message: &[char]) -> (r: YamarkError)
    ensures
        r.diagnostic.severity == Severity::Error,
        r.diagnostic.message@ == message@,
        r.diagnostic.path is None,
        r.diagnostic.line == 1 && r.diagnostic.column == 1,
{
    YamarkError::new(chars_to_string(message))
}

/// The error of a message given as characters, at a one-based position.
pub fn error_from_chars_at(message: &[char], line: usize, column: usize) -> (r: YamarkError)
    ensures
        r.diagnostic.message@ == message@,
        r.diagnostic.path is None,
        r.diagnostic.line == (if line >= 1 { line } else { 1 }),
        r.diagnostic.column == (if column >= 1 { column } else { 1 }),
{
    YamarkError::at(chars_to_string(message), line, column)
}

} // verus!
