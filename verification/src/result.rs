//! What a parse returns: the finished sub and the cursor behind it, or an
//! error with its place in the source.

use vstd::prelude::*;
use crate::digits::{decimal_digits, render_decimal};
use crate::machine::Complaint;

verus! {

/// The two categories of failure.
#[derive(Debug, Clone, Copy, PartialEq, Eq, Structural)]
pub enum ErrorKind {
    /// The source text is malformed.
    Syntax,
    /// The parser was used against its contract; no source text causes this.
    Internal,
}

/// Who is at fault for a complaint.
pub open spec fn complaint_kind(c: Complaint) -> ErrorKind {
    match c {
        Complaint::NoOpening => ErrorKind::Internal,
        Complaint::AlreadyDone => ErrorKind::Internal,
        _ => ErrorKind::Syntax,
    }
}

/// The description of a complaint.
pub open spec fn complaint_text(c: Complaint) -> Seq<char> {
    match c {
        Complaint::SubExpected => "expected sub after sub open"@,
        Complaint::SubExpectedAfterName => "expected sub after sub name"@,
        Complaint::EndExpectedAfterModifierName => "expected sub end after modifier name"@,
        Complaint::EndExpectedAfterModifier => "expected sub end after modifier"@,
        Complaint::UnexpectedEnd => "unexpected end of input"@,
        Complaint::NoOpening => "parse started outside of a sub"@,
        Complaint::AlreadyDone => "parse continued after the sub's end"@,
    }
}

/// A parsed sub and the cursor behind its closing bracket.
#[derive(Debug, PartialEq, Eq)]
pub struct ParserSuccess {
    /// The sub's index in the arena.
    pub sub: usize,
    /// The index of the grapheme behind the sub's closing bracket.
    pub index: usize,
    /// The line of that grapheme, counted from 0.
    pub line: usize,
    /// Its column, counted from 0.
    pub lineindex: usize,
}

/// The mathematical counterpart of a [`ParserError`].
pub struct ErrorModel {
    pub kind: ErrorKind,
    pub description: Seq<char>,
    pub index: nat,
    pub line: nat,
    pub column: nat,
}

/// How an error reads: `ParserError on line L:C: ` and the description.
pub open spec fn error_text(e: ErrorModel) -> Seq<char> {
    "ParserError on line "@ + decimal_digits(e.line) + ":"@ + decimal_digits(e.column) + ": "@
        + e.description
}

/// A failed parse.
#[derive(Debug, PartialEq, Eq)]
pub struct ParserError {
    /// What was wrong.
    pub description: String,
    /// The index of the offending grapheme.
    pub index: usize,
    /// Its line, counted from 0.
    pub line: usize,
    /// Its column, counted from 0.
    pub lineindex: usize,
    /// Whether the source or the caller is at fault.
    pub kind: ErrorKind,
}

impl View for ParserError {
    type V = ErrorModel;

    open spec fn view(&self) -> ErrorModel {
        ErrorModel {
            kind: self.kind,
            description: self.description@,
            index: self.index as nat,
            line: self.line as nat,
            column: self.lineindex as nat,
        }
    }
}

impl ParserError {
    /// A syntax error at the given place.
    pub fn new(index: usize, line: usize, lineindex: usize, description: String) -> (e:
        ParserError)
        ensures
            e.index == index,
            e.line == line,
            e.lineindex == lineindex,
            e.description == description,
            e.kind == ErrorKind::Syntax,
    {
        ParserError { description, index, line, lineindex, kind: ErrorKind::Syntax }
    }

    /// The error that `complaint` stands for, at the given place.
    pub fn of(complaint: Complaint, index: usize, line: usize, lineindex: usize) -> (e:
        ParserError)
        ensures
            e@ == (ErrorModel {
                kind: complaint_kind(complaint),
                description: complaint_text(complaint),
                index: index as nat,
                line: line as nat,
                column: lineindex as nat,
            }),
    {
        let description = match complaint {
            Complaint::SubExpected => String::from_str("expected sub after sub open"),
            Complaint::SubExpectedAfterName => String::from_str("expected sub after sub name"),
            Complaint::EndExpectedAfterModifierName => String::from_str(
                "expected sub end after modifier name",
            ),
            Complaint::EndExpectedAfterModifier => String::from_str(
                "expected sub end after modifier",
            ),
            Complaint::UnexpectedEnd => String::from_str("unexpected end of input"),
            Complaint::NoOpening => String::from_str("parse started outside of a sub"),
            Complaint::AlreadyDone => String::from_str("parse continued after the sub's end"),
        };
        let kind = match complaint {
            Complaint::NoOpening => ErrorKind::Internal,
            Complaint::AlreadyDone => ErrorKind::Internal,
            _ => ErrorKind::Syntax,
        };
        ParserError { description, index, line, lineindex, kind }
    }

    /// The error as one line of text for the user.
    pub fn message(&self) -> (r: String)
        ensures
            r@ == error_text(self@),
    {
        let mut r = String::from_str("ParserError on line ");
        r.append(render_decimal(self.line as u64).as_str());
        r.append(":");
        r.append(render_decimal(self.lineindex as u64).as_str());
        r.append(": ");
        r.append(self.description.as_str());
        r
    }

    /// What was wrong, without the place.
    pub fn description(&self) -> (r: &str)
        ensures
            r@ == self.description@,
    {
        self.description.as_str()
    }
}

} // verus!
