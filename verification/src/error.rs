//! Errors that stop the front end: lexical errors and syntax errors.

use vstd::prelude::*;

verus! {

/// What went wrong while lexing or parsing.
#[derive(Clone, Copy, Debug, PartialEq, Eq, Structural)]
pub enum ErrorKind {
    /// An uppercase letter, or a symbol that is not part of the language.
    Lexical,
    DefinitionsExpected,
    ColonAfterDefinitions,
    OperationsExpected,
    ColonAfterOperations,
    EndExpected,
    PeriodExpected,
    IdExpected,
    AssignExpected,
    ShapeExpected,
    LParenExpected,
    RParenExpected,
    CommaExpected,
    NumExpected,
    OperationExpected,
    /// Text other than whitespace after the final period.
    TrailingText,
}

/// An error, with the offending text for a lexical error
/// (empty for a syntax error).
#[derive(Debug)]
pub struct ParseError {
    pub kind: ErrorKind,
    pub detail: String,
}

/// The mathematical model of a [`ParseError`].
pub struct ParseErrorView {
    pub kind: ErrorKind,
    pub detail: Seq<char>,
}

impl View for ParseError {
    type V = ParseErrorView;

    open spec fn view(&self) -> ParseErrorView {
        ParseErrorView { kind: self.kind, detail: self.detail@ }
    }
}

/// A syntax error of the given kind.
pub open spec fn syntax_error(kind: ErrorKind) -> ParseErrorView {
    ParseErrorView { kind, detail: Seq::empty() }
}

/// A lexical error on the given text.
pub open spec fn lexical_error(text: Seq<char>) -> ParseErrorView {
    ParseErrorView { kind: ErrorKind::Lexical, detail: text }
}

/// The message that reports an error of the given kind.
pub open spec fn kind_message(kind: ErrorKind) -> Seq<char> {
    match kind {
        ErrorKind::Lexical => "Lexical Error: "@,
        ErrorKind::DefinitionsExpected => "Syntax Error: definitions or colon expected"@,
        ErrorKind::ColonAfterDefinitions => "Syntax Error: colon expected after definitions"@,
        ErrorKind::OperationsExpected => "Syntax Error: operations, colon, or semicolon expected"@,
        ErrorKind::ColonAfterOperations => "Error: colon expected after operations"@,
        ErrorKind::EndExpected => "Syntax Error: end, period, or semicolon expected"@,
        ErrorKind::PeriodExpected => "Syntax Error: period expected after end"@,
        ErrorKind::IdExpected => "Syntax Error: ID expected"@,
        ErrorKind::AssignExpected => "Syntax Error: assign sign expected after ID"@,
        ErrorKind::ShapeExpected => "Syntax Error: point, circle, or square expected"@,
        ErrorKind::LParenExpected => "Syntax Error: left parentheses expected"@,
        ErrorKind::RParenExpected => "Syntax Error: right parentheses expected"@,
        ErrorKind::CommaExpected => "Syntax Error: comma expected"@,
        ErrorKind::NumExpected => "Syntax Error: NUM expected"@,
        ErrorKind::OperationExpected => "Syntax Error: print, contained, or intersects expected"@,
        ErrorKind::TrailingText => "Syntax Error: nothing expected after period"@,
    }
}

/// The full message of an error: the kind's message, followed by the
/// offending text for a lexical error.
pub open spec fn error_message(e: ParseErrorView) -> Seq<char> {
    if e.kind == ErrorKind::Lexical {
        kind_message(e.kind) + e.detail
    } else {
        kind_message(e.kind)
    }
}

impl ParseError {
    /// A syntax error of the given kind.
    pub fn syntax(kind: ErrorKind) -> (e: ParseError)
        ensures
            e@ == syntax_error(kind),
    {
        ParseError { kind, detail: String::new() }
    }

    /// A lexical error on the given text.
    pub fn lexical(text: String) -> (e: ParseError)
        ensures
            e@ == lexical_error(text@),
    {
        ParseError { kind: ErrorKind::Lexical, detail: text }
    }

    /// The message that the front end reports for this error.
    pub fn message(&self) -> (m: String)
        ensures
            m@ == error_message(self@),
    {
        let mut m = String::from_str(kind_text(self.kind));
        if self.kind == ErrorKind::Lexical {
            m.append(self.detail.as_str());
        }
        m
    }
}

fn kind_text(kind: ErrorKind) -> (s: &'static str)
    ensures
        s@ == kind_message(kind),
{
    match kind {
        ErrorKind::Lexical => "Lexical Error: ",
        ErrorKind::DefinitionsExpected => "Syntax Error: definitions or colon expected",
        ErrorKind::ColonAfterDefinitions => "Syntax Error: colon expected after definitions",
        ErrorKind::OperationsExpected => "Syntax Error: operations, colon, or semicolon expected",
        ErrorKind::ColonAfterOperations => "Error: colon expected after operations",
        ErrorKind::EndExpected => "Syntax Error: end, period, or semicolon expected",
        ErrorKind::PeriodExpected => "Syntax Error: period expected after end",
        ErrorKind::IdExpected => "Syntax Error: ID expected",
        ErrorKind::AssignExpected => "Syntax Error: assign sign expected after ID",
        ErrorKind::ShapeExpected => "Syntax Error: point, circle, or square expected",
        ErrorKind::LParenExpected => "Syntax Error: left parentheses expected",
        ErrorKind::RParenExpected => "Syntax Error: right parentheses expected",
        ErrorKind::CommaExpected => "Syntax Error: comma expected",
        ErrorKind::NumExpected => "Syntax Error: NUM expected",
        ErrorKind::OperationExpected => "Syntax Error: print, contained, or intersects expected",
        ErrorKind::TrailingText => "Syntax Error: nothing expected after period",
    }
}

} // verus!
