//! Errors produced while reading HOCON.

use vstd::prelude::*;

use crate::text::{char_debug, char_debug_string, decimal, push_char, push_decimal, push_str};

verus! {

/// What the parser found wrong at a source location.
#[derive(Debug, Clone, Copy, PartialEq, Eq, Structural)]
pub enum Problem {
    /// Input remains after the document.
    TrailingInput(char),
    /// An object is not closed by `}`.
    UnterminatedObject,
    /// A key is followed by this character instead of `=`, `:` or `{`.
    ExpectedAssignment(char),
    /// The input ends right after a key.
    MissingValueAfterKey,
    /// No key starts here.
    ExpectedKey,
    /// The input ends where a value should start.
    ExpectedValue,
    /// An array is not closed by `]`.
    UnterminatedArray,
    /// A `}` stands where an array item should start; no item can be read
    /// there and the array cannot be closed by it.
    BraceInArray,
    /// A quoted string is not closed by `"`.
    UnterminatedString,
    /// A backslash in a quoted string is followed by this character, which is
    /// not an escape.
    InvalidEscape(char),
    /// A quoted string ends right after a backslash.
    UnterminatedEscape,
}

/// Why reading failed: a problem at a source location, or a message without
/// location (for errors raised while interpreting values).
#[derive(Debug, Clone, PartialEq, Eq)]
pub enum Reason {
    Parse(Problem),
    Message(String),
}

/// Error produced while reading HOCON, either during parsing (with a 1-based
/// source location) or while interpreting values (location-less, line `0`).
#[derive(Debug, Clone, PartialEq, Eq)]
pub struct Error {
    reason: Reason,
    line: usize,
    column: usize,
}

/// The content of a [`Reason`].
pub enum ReasonView {
    Parse(Problem),
    Message(Seq<char>),
}

/// The content of an [`Error`].
pub struct ErrorView {
    pub reason: ReasonView,
    pub line: nat,
    pub column: nat,
}

impl View for Error {
    type V = ErrorView;

    closed spec fn view(&self) -> ErrorView {
        ErrorView {
            reason: match self.reason {
                Reason::Parse(p) => ReasonView::Parse(p),
                Reason::Message(m) => ReasonView::Message(m@),
            },
            line: self.line as nat,
            column: self.column as nat,
        }
    }
}

/// The message of a problem.
pub open spec fn problem_text(p: Problem) -> Seq<char> {
    match p {
        Problem::TrailingInput(c) => "unexpected trailing input: "@ + char_debug(c),
        Problem::UnterminatedObject => "unterminated object: expected '}'"@,
        Problem::ExpectedAssignment(c) => "expected '=', ':' or '{' after key, found "@ + char_debug(c),
        Problem::MissingValueAfterKey => "expected a value after key, found end of input"@,
        Problem::ExpectedKey => "expected a key"@,
        Problem::ExpectedValue => "expected a value, found end of input"@,
        Problem::UnterminatedArray => "unterminated array: expected ']'"@,
        Problem::BraceInArray => "unexpected '}' in array"@,
        Problem::UnterminatedString => "unterminated string"@,
        Problem::InvalidEscape(c) => "invalid escape: \\"@ + seq![c],
        Problem::UnterminatedEscape => "unterminated escape sequence"@,
    }
}

/// The text of an error: its message, followed by ` (line L, column C)` when
/// it has a location.
pub open spec fn error_text(e: ErrorView) -> Seq<char> {
    let message = match e.reason {
        ReasonView::Parse(p) => problem_text(p),
        ReasonView::Message(m) => m,
    };
    if e.line > 0 {
        message + " (line "@ + decimal(e.line) + ", column "@ + decimal(e.column) + ")"@
    } else {
        message
    }
}

impl Error {
    /// A parse error anchored at a source location.
    pub fn at(line: usize, column: usize, problem: Problem) -> (e: Error)
        ensures
            e@.reason == ReasonView::Parse(problem),
            e@.line == line,
            e@.column == column,
    {
        Error { reason: Reason::Parse(problem), line, column }
    }

    /// A location-less error.
    pub fn msg(message: String) -> (e: Error)
        ensures
            e@.reason == ReasonView::Message(message@),
            e@.line == 0,
            e@.column == 0,
    {
        Error { reason: Reason::Message(message), line: 0, column: 0 }
    }

    /// The problem of a parse error.
    pub fn problem(&self) -> (p: Option<Problem>)
        ensures
            match self@.reason {
                ReasonView::Parse(q) => p == Some(q),
                ReasonView::Message(_) => p is None,
            },
    {
        match &self.reason {
            Reason::Parse(p) => Some(*p),
            Reason::Message(_) => None,
        }
    }

    /// The 1-based line of the error, or `0` when it has no location.
    pub fn line(&self) -> (line: usize)
        ensures
            line == self@.line,
    {
        self.line
    }

    /// The 1-based column of the error, or `0` when it has no location.
    pub fn column(&self) -> (column: usize)
        ensures
            column == self@.column,
    {
        self.column
    }

    fn push_problem(out: &mut String, p: Problem)
        ensures
            final(out)@ == old(out)@ + problem_text(p),
    {
        let ghost start = out@;
        match p {
            Problem::TrailingInput(c) => {
                push_str(out, "unexpected trailing input: ");
                push_str(out, char_debug_string(c).as_str());
            },
            Problem::UnterminatedObject => push_str(out, "unterminated object: expected '}'"),
            Problem::ExpectedAssignment(c) => {
                push_str(out, "expected '=', ':' or '{' after key, found ");
                push_str(out, char_debug_string(c).as_str());
            },
            Problem::MissingValueAfterKey => push_str(
                out,
                "expected a value after key, found end of input",
            ),
            Problem::ExpectedKey => push_str(out, "expected a key"),
            Problem::ExpectedValue => push_str(out, "expected a value, found end of input"),
            Problem::UnterminatedArray => push_str(out, "unterminated array: expected ']'"),
            Problem::BraceInArray => push_str(out, "unexpected '}' in array"),
            Problem::UnterminatedString => push_str(out, "unterminated string"),
            Problem::InvalidEscape(c) => {
                push_str(out, "invalid escape: \\");
                push_char(out, c);
            },
            Problem::UnterminatedEscape => push_str(out, "unterminated escape sequence"),
        }
        assert(out@ =~= start + problem_text(p));
    }

    /// The error's text: its message, followed by ` (line L, column C)` when
    /// it has a location.
    pub fn to_string(&self) -> (text: String)
        ensures
            text@ == error_text(self@),
    {
        let mut out = String::new();
        match &self.reason {
            Reason::Parse(p) => Self::push_problem(&mut out, *p),
            Reason::Message(m) => push_str(&mut out, m.as_str()),
        }
        if self.line > 0 {
            push_str(&mut out, " (line ");
            push_decimal(&mut out, self.line as u64);
            push_str(&mut out, ", column ");
            push_decimal(&mut out, self.column as u64);
            push_str(&mut out, ")");
        }
        assert(out@ =~= error_text(self@));
        out
    }
}

} // verus!
