use vstd::prelude::*;
use crate::scanner::{chars_of, string_of};
use crate::token::Token;

verus! {

/// Everything needed to show an error: the message, where it is, and the text of its line.
#[derive(Debug)]
pub struct Diagnostic {
    pub message: String,
    pub file: Option<String>,
    /// Line number, from 1.
    pub lineno: usize,
    /// Position within the line, from 0.
    pub column: usize,
    pub line: String,
    pub len: usize,
}

/// Maps character positions of a source text to lines.
pub struct ErrorReporter {
    file: Option<String>,
    source: Vec<char>,
    /// Start and end (the newline, or the end of the text) of each line.
    lines: Vec<(usize, usize)>,
}

impl ErrorReporter {
    pub closed spec fn wf(&self) -> bool {
        &&& forall|i: int| 0 <= i < self.lines@.len() ==> (#[trigger] self.lines@[i]).0 <= self.lines@[i].1
            <= self.source@.len()
        &&& forall|i: int, j: int| 0 <= i < j < self.lines@.len() ==> self.lines@[i].1 < self.lines@[j].0
    }

    pub closed spec fn line_count(&self) -> nat {
        self.lines@.len()
    }

    pub fn new(file: Option<String>, source: &str) -> (r: Self)
        ensures
            r.wf(),
    {
        let chars = chars_of(source);
        let mut lines: Vec<(usize, usize)> = Vec::new();
        let mut start: usize = 0;
        let mut pos: usize = 0;
        while pos < chars.len()
            invariant
                start <= pos <= chars@.len(),
                forall|i: int| 0 <= i < lines@.len() ==> (#[trigger] lines@[i]).0 <= lines@[i].1 < start,
                forall|i: int, j: int| 0 <= i < j < lines@.len() ==> lines@[i].1 < lines@[j].0,
            decreases chars.len() - pos,
        {
            if chars[pos] == '\n' {
                lines.push((start, pos));
                start = pos + 1;
            }
            pos = pos + 1;
        }
        if start < chars.len() {
            lines.push((start, chars.len()));
        }
        Self { file, source: chars, lines }
    }

    /// The lines on which a span starts and ends, when both are on lines of the text.
    pub fn range2lineno(&self, range: (usize, usize)) -> (r: Option<(usize, usize)>)
        requires
            self.wf(),
        ensures
            r matches Some((a, b)) ==> 1 <= a <= self.line_count() && 1 <= b <= self.line_count(),
    {
        let mut start: Option<usize> = None;
        let mut end: Option<usize> = None;
        let mut i: usize = 0;
        while i < self.lines.len()
            invariant
                i <= self.lines@.len(),
                start is Some ==> 1 <= start->0 <= self.lines@.len(),
                end is Some ==> 1 <= end->0 <= self.lines@.len(),
            decreases self.lines.len() - i,
        {
            let (s, e) = self.lines[i];
            if start.is_none() && range.0 >= s && range.0 < e {
                start = Some(i + 1);
            }
            if end.is_none() && range.1 >= s && range.1 < e {
                end = Some(i + 1);
            }
            i = i + 1;
        }
        match (start, end) {
            (Some(s), Some(e)) => Some((s, e)),
            _ => None,
        }
    }

    /// The position of `file_pos` within line `lineno`.
    fn inline_coordinates(&self, lineno: usize, file_pos: usize) -> (r: (usize, usize))
        requires
            self.wf(),
        ensures
            r.0 == lineno,
    {
        if 1 <= lineno && lineno <= self.lines.len() {
            let (s, _) = self.lines[lineno - 1];
            (lineno, if file_pos >= s {
                file_pos - s
            } else {
                0
            })
        } else {
            (lineno, file_pos)
        }
    }

    /// The text of line `lineno`, without its newline.
    fn get_line(&self, lineno: usize) -> (r: String)
        requires
            self.wf(),
    {
        if 1 <= lineno && lineno <= self.lines.len() {
            let (s, e) = self.lines[lineno - 1];
            let mut v: Vec<char> = Vec::new();
            let mut k: usize = s;
            while k < e
                invariant
                    s <= k <= e <= self.source@.len(),
                decreases e - k,
            {
                v.push(self.source[k]);
                k = k + 1;
            }
            string_of(&v)
        } else {
            String::new()
        }
    }

    /// An error at character `file_pos`, on line `lineno`, covering `len` characters.
    pub fn error(&self, message: &str, lineno: usize, file_pos: usize, len: usize) -> (r: Diagnostic)
        requires
            self.wf(),
        ensures
            r.lineno == lineno,
            r.message@ == message@,
    {
        let (lineno, column) = self.inline_coordinates(lineno, file_pos);
        let file = match &self.file {
            Some(f) => Some(f.clone()),
            None => None,
        };
        Diagnostic { message: message.to_owned(), file, lineno, column, line: self.get_line(lineno), len }
    }

    /// An error at a token.
    pub fn error_token(&self, message: &str, token: &Token) -> (r: Diagnostic)
        requires
            self.wf(),
        ensures
            r.lineno == token.line_spec(),
    {
        self.error(message, token.line(), token.pos(), token.len())
    }

    /// An error over a span (first and last character), when the span lies on lines of the text.
    pub fn error_range(&self, range: (usize, usize), message: &str) -> (r: Option<Diagnostic>)
        requires
            self.wf(),
    {
        let len = if range.1 >= range.0 {
            let d = range.1 - range.0;
            if d < usize::MAX {
                d + 1
            } else {
                d
            }
        } else {
            1
        };
        match self.range2lineno(range) {
            Some((s, _)) => Some(self.error(message, s, range.0, len)),
            None => None,
        }
    }
}

} // verus!
