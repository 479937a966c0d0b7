//! Tokens of the language and the keyword table.

use vstd::prelude::*;
use crate::error::{ParseError, ParseErrorView, lexical_error};

verus! {

/// The kind of a token.
#[derive(Clone, Copy, Debug, PartialEq, Eq, Structural)]
pub enum TokenKind {
    Definitions,
    Operations,
    Point,
    Circle,
    Square,
    Print,
    Contained,
    Intersects,
    End,
    Semicolon,
    Colon,
    Comma,
    Period,
    LParen,
    RParen,
    Assign,
    Id,
    Num,
    /// The source holds no further complete lexeme.
    Eof,
}

/// A token with the lexeme it was read from (empty for `Eof`).
#[derive(Debug)]
pub struct Token {
    pub kind: TokenKind,
    pub lexeme: String,
}

/// The mathematical model of a [`Token`].
pub struct SpecToken {
    pub kind: TokenKind,
    pub lexeme: Seq<char>,
}

impl View for Token {
    type V = SpecToken;

    open spec fn view(&self) -> SpecToken {
        SpecToken { kind: self.kind, lexeme: self.lexeme@ }
    }
}

/// The kind of a reserved word or a symbol, if the lexeme is one.
pub open spec fn keyword_kind(lx: Seq<char>) -> Option<TokenKind> {
    if lx == "definitions"@ {
        Some(TokenKind::Definitions)
    } else if lx == "operations"@ {
        Some(TokenKind::Operations)
    } else if lx == "point"@ {
        Some(TokenKind::Point)
    } else if lx == "circle"@ {
        Some(TokenKind::Circle)
    } else if lx == "square"@ {
        Some(TokenKind::Square)
    } else if lx == "print"@ {
        Some(TokenKind::Print)
    } else if lx == "contained"@ {
        Some(TokenKind::Contained)
    } else if lx == "intersects"@ {
        Some(TokenKind::Intersects)
    } else if lx == "end"@ {
        Some(TokenKind::End)
    } else if lx == ";"@ {
        Some(TokenKind::Semicolon)
    } else if lx == ":"@ {
        Some(TokenKind::Colon)
    } else if lx == ","@ {
        Some(TokenKind::Comma)
    } else if lx == "."@ {
        Some(TokenKind::Period)
    } else if lx == "("@ {
        Some(TokenKind::LParen)
    } else if lx == ")"@ {
        Some(TokenKind::RParen)
    } else if lx == "="@ {
        Some(TokenKind::Assign)
    } else {
        None
    }
}

/// The token of a lexeme other than a number: a reserved word or symbol
/// gets its own kind, another word is an identifier, and another symbol
/// is a lexical error.
pub open spec fn spec_token(lexeme: Seq<char>, is_sym: bool) -> Result<SpecToken, ParseErrorView> {
    match keyword_kind(lexeme) {
        Some(k) => Ok(SpecToken { kind: k, lexeme }),
        None => if !is_sym {
            Ok(SpecToken { kind: TokenKind::Id, lexeme })
        } else {
            Err(lexical_error(lexeme))
        },
    }
}

pub open spec fn token_result_view(r: Result<Token, ParseError>) -> Result<SpecToken, ParseErrorView> {
    match r {
        Ok(t) => Ok(t@),
        Err(e) => Err(e@),
    }
}

/// The text by which a token is reported: the kind's name in capitals,
/// followed for an identifier or a number by a space and its lexeme,
/// and "None" for the end of the source.
pub open spec fn token_text(t: SpecToken) -> Seq<char> {
    match t.kind {
        TokenKind::Definitions => "DEFINITIONS"@,
        TokenKind::Operations => "OPERATIONS"@,
        TokenKind::Point => "POINT"@,
        TokenKind::Circle => "CIRCLE"@,
        TokenKind::Square => "SQUARE"@,
        TokenKind::Print => "PRINT"@,
        TokenKind::Contained => "CONTAINED"@,
        TokenKind::Intersects => "INTERSECTS"@,
        TokenKind::End => "END"@,
        TokenKind::Semicolon => "SEMICOLON"@,
        TokenKind::Colon => "COLON"@,
        TokenKind::Comma => "COMMA"@,
        TokenKind::Period => "PERIOD"@,
        TokenKind::LParen => "LPAREN"@,
        TokenKind::RParen => "RPAREN"@,
        TokenKind::Assign => "ASSIGN"@,
        TokenKind::Id => "ID "@ + t.lexeme,
        TokenKind::Num => "NUM "@ + t.lexeme,
        TokenKind::Eof => "None"@,
    }
}

fn lexeme_is(lexeme: &String, word: &str) -> (b: bool)
    ensures
        b == (lexeme@ == word@),
{
    let w = String::from_str(word);
    lexeme.eq(&w)
}

/// The token of a lexeme that is not a number; `is_sym` tells that the
/// lexeme is a single character that is neither a letter nor a digit.
pub fn token(lexeme: &String, is_sym: bool) -> (res: Result<Token, ParseError>)
    ensures
        token_result_view(res) == spec_token(lexeme@, is_sym),
{
    let kind = if lexeme_is(lexeme, "definitions") {
        TokenKind::Definitions
    } else if lexeme_is(lexeme, "operations") {
        TokenKind::Operations
    } else if lexeme_is(lexeme, "point") {
        TokenKind::Point
    } else if lexeme_is(lexeme, "circle") {
        TokenKind::Circle
    } else if lexeme_is(lexeme, "square") {
        TokenKind::Square
    } else if lexeme_is(lexeme, "print") {
        TokenKind::Print
    } else if lexeme_is(lexeme, "contained") {
        TokenKind::Contained
    } else if lexeme_is(lexeme, "intersects") {
        TokenKind::Intersects
    } else if lexeme_is(lexeme, "end") {
        TokenKind::End
    } else if lexeme_is(lexeme, ";") {
        TokenKind::Semicolon
    } else if lexeme_is(lexeme, ":") {
        TokenKind::Colon
    } else if lexeme_is(lexeme, ",") {
        TokenKind::Comma
    } else if lexeme_is(lexeme, ".") {
        TokenKind::Period
    } else if lexeme_is(lexeme, "(") {
        TokenKind::LParen
    } else if lexeme_is(lexeme, ")") {
        TokenKind::RParen
    } else if lexeme_is(lexeme, "=") {
        TokenKind::Assign
    } else if !is_sym {
        TokenKind::Id
    } else {
        return Err(ParseError::lexical(lexeme.clone()));
    };
    Ok(Token { kind, lexeme: lexeme.clone() })
}

fn kind_name(kind: TokenKind) -> (s: &'static str)
    requires
        kind != TokenKind::Id,
        kind != TokenKind::Num,
    ensures
        s@ == token_text(SpecToken { kind, lexeme: Seq::empty() }),
{
    match kind {
        TokenKind::Definitions => "DEFINITIONS",
        TokenKind::Operations => "OPERATIONS",
        TokenKind::Point => "POINT",
        TokenKind::Circle => "CIRCLE",
        TokenKind::Square => "SQUARE",
        TokenKind::Print => "PRINT",
        TokenKind::Contained => "CONTAINED",
        TokenKind::Intersects => "INTERSECTS",
        TokenKind::End => "END",
        TokenKind::Semicolon => "SEMICOLON",
        TokenKind::Colon => "COLON",
        TokenKind::Comma => "COMMA",
        TokenKind::Period => "PERIOD",
        TokenKind::LParen => "LPAREN",
        TokenKind::RParen => "RPAREN",
        TokenKind::Assign => "ASSIGN",
        TokenKind::Id => "ID ",
        TokenKind::Num => "NUM ",
        TokenKind::Eof => "None",
    }
}

impl Token {
    /// The text by which this token is reported, such as "ID abc" or "COLON".
    pub fn text(&self) -> (s: String)
        ensures
            s@ == token_text(self@),
    {
        match self.kind {
            TokenKind::Id => {
                let mut s = String::from_str("ID ");
                s.append(self.lexeme.as_str());
                s
            },
            TokenKind::Num => {
                let mut s = String::from_str("NUM ");
                s.append(self.lexeme.as_str());
                s
            },
            _ => String::from_str(kind_name(self.kind)),
        }
    }
}

} // verus!
