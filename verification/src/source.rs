//! Source text split into lines, and spans over it.
use vstd::prelude::*;
use crate::text::{sub_chars};

verus! {

/// A half-open range of character positions.
#[derive(Debug, Clone, Copy, PartialEq, Eq, Structural)]
pub struct Span {
    pub start: usize,
    pub end: usize,
}

impl Span {
    pub fn new(start: usize, end: usize) -> (r: Span)
        ensures
            r.start == start && r.end == end,
    {
        Span { start, end }
    }

    pub fn empty(at: usize) -> (r: Span)
        ensures
            r.start == at && r.end == at,
    {
        Span { start: at, end: at }
    }

    pub fn len(&self) -> (r: usize)
        requires
            self.start <= self.end,
        ensures
            r == self.end - self.start,
    {
        self.end - self.start
    }
}

/// How a line ends.
#[derive(Debug, Clone, Copy, PartialEq, Eq, Structural)]
pub enum LineEnding {
    Missing,
    Lf,
    CrLf,
    Cr,
}

pub open spec fn spec_ending_len(e: LineEnding) -> nat {
    match e {
        LineEnding::Missing => 0,
        LineEnding::Lf => 1,
        LineEnding::CrLf => 2,
        LineEnding::Cr => 1,
    }
}

/// One line: `full` includes the line break, `text` does not.
#[derive(Debug, Clone, Copy, PartialEq, Eq, Structural)]
pub struct SourceLine {
    pub full: Span,
    pub text: Span,
    pub ending: LineEnding,
}

/// A source text together with its line table.
pub struct SourceBuffer {
    pub text: Vec<char>,
    pub lines: Vec<SourceLine>,
}

pub open spec fn line_break(c: char) -> bool {
    c == '\n' || c == '\r'
}

/// Every line lies within the text, is not empty, has its text part
/// followed by its line break, and lines come in order.
pub open spec fn lines_wf(text: Seq<char>, lines: Seq<SourceLine>) -> bool {
    &&& forall|i: int|
        0 <= i < lines.len() ==> {
            let l = #[trigger] lines[i];
            &&& l.full.start == l.text.start
            &&& l.text.start <= l.text.end <= l.full.end <= text.len()
            &&& l.full.start < l.full.end
            &&& l.full.end == l.text.end + spec_ending_len(l.ending)
        }
    &&& forall|i: int, j: int|
        0 <= i < j < lines.len() ==> (#[trigger] lines[i]).full.end <= (#[trigger] lines[j]).full.start
}

/// The characters of `span` in `text`, with the span clamped to the text.
pub open spec fn spec_clamped_slice(text: Seq<char>, span: Span) -> Seq<char> {
    let end = vstd::math::min(span.end as int, text.len() as int);
    let start = vstd::math::min(span.start as int, end);
    text.subrange(start, end)
}

/// The index of the line holding `pos`: the first line whose end lies
/// after `pos`, or the last line.
pub open spec fn spec_line_at(lines: Seq<SourceLine>, pos: int, i: int) -> int
    decreases lines.len() - i,
{
    if i < 0 || i + 1 >= lines.len() || lines[i].full.end > pos {
        i
    } else {
        spec_line_at(lines, pos, i + 1)
    }
}

impl SourceBuffer {
    pub open spec fn wf(&self) -> bool {
        lines_wf(self.text@, self.lines@) && self.text@.len() <= usize::MAX
    }

    /// Splits `text` at `\n`, `\r\n` and `\r`.
    pub fn new(text: Vec<char>) -> (r: SourceBuffer)
        ensures
            r.text@ == text@,
            r.wf(),
    {
        let mut lines: Vec<SourceLine> = Vec::new();
        let n = text.len();
        let mut start: usize = 0;
        let mut i: usize = 0;
        while i < n
            invariant
                n == text@.len(),
                start <= i <= n,
                lines_wf(text@, lines@),
                forall|j: int| 0 <= j < lines@.len() ==> (#[trigger] lines@[j]).full.end <= start,
            decreases n - i,
        {
            let c = text[i];
            if c == '\n' || c == '\r' {
                let crlf = c == '\r' && i + 1 < n && text[i + 1] == '\n';
                let ending = if crlf {
                    LineEnding::CrLf
                } else if c == '\r' {
                    LineEnding::Cr
                } else {
                    LineEnding::Lf
                };
                let next = if crlf {
                    i + 2
                } else {
                    i + 1
                };
                lines.push(
                    SourceLine { full: Span { start, end: next }, text: Span { start, end: i }, ending },
                );
                start = next;
                i = next;
            } else {
                i = i + 1;
            }
        }
        if start < n {
            lines.push(
                SourceLine {
                    full: Span { start, end: n },
                    text: Span { start, end: n },
                    ending: LineEnding::Missing,
                },
            );
        }
        SourceBuffer { text, lines }
    }

    /// The characters of `span`, clamped to the text.
    pub fn slice(&self, span: Span) -> (r: Vec<char>)
        ensures
            r@ == spec_clamped_slice(self.text@, span),
    {
        let n = self.text.len();
        let end = if span.end > n {
            n
        } else {
            span.end
        };
        let start = if span.start > end {
            end
        } else {
            span.start
        };
        sub_chars(self.text.as_slice(), start, end)
    }

    /// The text of line `index` without its line break.
    pub fn line_text(&self, index: usize) -> (r: Vec<char>)
        requires
            self.wf(),
            index < self.lines@.len(),
        ensures
            r@ == self.text@.subrange(
                self.lines@[index as int].text.start as int,
                self.lines@[index as int].text.end as int,
            ),
    {
        let line = self.lines[index];
        sub_chars(self.text.as_slice(), line.text.start, line.text.end)
    }

    /// The index of the line that holds position `pos` (the last line for
    /// positions at or past the end).
    pub fn line_at(&self, pos: usize) -> (r: usize)
        requires
            self.wf(),
            self.lines@.len() > 0,
        ensures
            r == spec_line_at(self.lines@, pos as int, 0),
            r < self.lines@.len(),
            r + 1 < self.lines@.len() ==> pos < self.lines@[r as int].full.end,
            forall|j: int| 0 <= j < r ==> self.lines@[j].full.end <= pos,
    {
        let n = self.lines.len();
        let mut i: usize = 0;
        while i + 1 < n && self.lines[i].full.end <= pos
            invariant
                n == self.lines@.len(),
                i < n,
                spec_line_at(self.lines@, pos as int, i as int) == spec_line_at(
                    self.lines@,
                    pos as int,
                    0,
                ),
                forall|j: int| 0 <= j < i ==> self.lines@[j].full.end <= pos,
            decreases n - i,
        {
            i = i + 1;
        }
        i
    }

    /// One-based line and column of position `pos`.
    pub fn line_column_at(&self, pos: usize) -> (r: (usize, usize))
        requires
            self.wf(),
        ensures
            self.lines@.len() == 0 ==> r == (1usize, 1usize),
            self.lines@.len() > 0 ==> {
                let line = spec_line_at(self.lines@, pos as int, 0);
                let start = self.lines@[line].full.start;
                let column = if pos >= start {
                    pos - start
                } else {
                    0
                };
                &&& r.0 == line + 1
                &&& r.1 == (if column < usize::MAX {
                    column + 1
                } else {
                    column
                })
            },
    {
        if self.lines.len() == 0 {
            return (1, 1);
        }
        let line = self.line_at(pos);
        let start = self.lines[line].full.start;
        let column = if pos >= start {
            pos - start
        } else {
            0
        };
        (line + 1, if column < usize::MAX { column + 1 } else { column })
    }
}

} // verus!
