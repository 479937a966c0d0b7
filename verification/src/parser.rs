//! The syntax analyser: one function per rule of the grammar
//!
//! ```text
//! PROGRAM    --> definitions: DEFS operations: OPERATIONS end.
//! DEFS       --> DEF | DEF; DEFS
//! DEF        --> ID = point(NUM, NUM) | ID = circle(ID, NUM) | ID = square(ID, NUM)
//! OPERATIONS --> OPERATION | OPERATION; OPERATIONS
//! OPERATION  --> print(ID) | contained(ID, ID) | intersects(ID, ID)
//! ```
//!
//! Each function takes the source that remains, returns the source that
//! remains after its rule and an HTML view of the parse tree, and records
//! definitions in a symbol table and operations in a list.

use vstd::prelude::*;
use crate::error::{ErrorKind, ParseError, ParseErrorView, syntax_error};
use crate::lexer::{lex, spec_lex, lemma_lex_progress};
use crate::program_model::{DefView, Definition, DefinitionType, OpView, Operation, OperationType, SymbolTable, ops_view};
use crate::token::{Token, TokenKind};

verus! {

broadcast use lemma_lex_progress;

/// Reads a token of kind `kind`; another token is the syntax error `err`.
pub open spec fn spec_expect(code: Seq<char>, kind: TokenKind, err: ErrorKind) -> Result<Seq<char>, ParseErrorView> {
    match spec_lex(code) {
        Err(e) => Err(e),
        Ok((rest, t)) => if t.kind == kind {
            Ok(rest)
        } else {
            Err(syntax_error(err))
        },
    }
}

/// Reads a token of kind `kind` and returns its lexeme too; another token
/// is the syntax error `err`.
pub open spec fn spec_expect_lexeme(code: Seq<char>, kind: TokenKind, err: ErrorKind) -> Result<(Seq<char>, Seq<char>), ParseErrorView> {
    match spec_lex(code) {
        Err(e) => Err(e),
        Ok((rest, t)) => if t.kind == kind {
            Ok((rest, t.lexeme))
        } else {
            Err(syntax_error(err))
        },
    }
}

/// The parse-tree node of an identifier.
pub open spec fn id_html(id: Seq<char>) -> Seq<char> {
    "\t\t\t<id>\n\t\t\t\t-"@ + id + "\n\t\t\t</id>\n"@
}

/// The parse-tree node of a number.
pub open spec fn num_html(num: Seq<char>) -> Seq<char> {
    "\t\t\t<num>\n\t\t\t\t-"@ + num + "\n\t\t\t</num>\n"@
}

fn expect(code: &str, kind: TokenKind, err: ErrorKind) -> (res: Result<String, ParseError>)
    ensures
        match spec_expect(code@, kind, err) {
            Ok(r) => res matches Ok(s) && s@ == r,
            Err(e) => res matches Err(x) && x@ == e,
        },
{
    let (rest, t) = lex(code)?;
    if t.kind == kind {
        Ok(rest)
    } else {
        Err(ParseError::syntax(err))
    }
}

fn expect_lexeme(code: &str, kind: TokenKind, err: ErrorKind) -> (res: Result<(String, String), ParseError>)
    ensures
        match spec_expect_lexeme(code@, kind, err) {
            Ok((r, l)) => res matches Ok((s, x)) && s@ == r && x@ == l,
            Err(e) => res matches Err(x) && x@ == e,
        },
{
    let (rest, t) = lex(code)?;
    if t.kind == kind {
        Ok((rest, t.lexeme))
    } else {
        Err(ParseError::syntax(err))
    }
}

fn push_str(html: &mut String, s: &str)
    ensures
        final(html)@ == old(html)@ + s@,
{
    html.append(s);
}

fn push_id_html(html: &mut String, id: &str)
    ensures
        final(html)@ == old(html)@ + id_html(id@),
{
    html.append("\t\t\t<id>\n\t\t\t\t-");
    html.append(id);
    html.append("\n\t\t\t</id>\n");
}

fn push_num_html(html: &mut String, num: &str)
    ensures
        final(html)@ == old(html)@ + num_html(num@),
{
    html.append("\t\t\t<num>\n\t\t\t\t-");
    html.append(num);
    html.append("\n\t\t\t</num>\n");
}

/// `point(NUM, NUM)`, after the word `point`: the remaining source, the
/// parse tree and the point defined.
#[verifier::opaque]
pub open spec fn spec_point(code: Seq<char>) -> Result<(Seq<char>, Seq<char>, DefView), ParseErrorView> {
    match spec_expect(code, TokenKind::LParen, ErrorKind::LParenExpected) {
        Err(e) => Err(e),
        Ok(c1) => match spec_expect_lexeme(c1, TokenKind::Num, ErrorKind::NumExpected) {
            Err(e) => Err(e),
            Ok((c2, x)) => match spec_expect(c2, TokenKind::Comma, ErrorKind::CommaExpected) {
                Err(e) => Err(e),
                Ok(c3) => match spec_expect_lexeme(c3, TokenKind::Num, ErrorKind::NumExpected) {
                    Err(e) => Err(e),
                    Ok((c4, y)) => match spec_expect(c4, TokenKind::RParen, ErrorKind::RParenExpected) {
                        Err(e) => Err(e),
                        Ok(c5) => Ok((
                            c5,
                            "\t\t\t-point\n"@ + "\t\t\t-lparen\n"@ + num_html(x) + "\t\t\t-comma\n"@
                                + num_html(y) + "\t\t\t-rparen\n"@,
                            DefView { def_type: DefinitionType::POINT, param1: x, param2: y },
                        )),
                    },
                },
            },
        },
    }
}

/// Parses `point(NUM, NUM)`; the word `point` has been read already.
pub fn point(source: &str) -> (res: Result<(String, String, Definition), ParseError>)
    ensures
        match spec_point(source@) {
            Ok((r, h, d)) => res matches Ok((s, x, y)) && s@ == r && x@ == h && y@ == d,
            Err(e) => res matches Err(x) && x@ == e,
        },
{
    reveal(spec_point);
    let mut html = String::from_str("\t\t\t-point\n");
    let code = expect(source, TokenKind::LParen, ErrorKind::LParenExpected)?;
    push_str(&mut html, "\t\t\t-lparen\n");
    let (code, x) = expect_lexeme(code.as_str(), TokenKind::Num, ErrorKind::NumExpected)?;
    push_num_html(&mut html, x.as_str());
    let code = expect(code.as_str(), TokenKind::Comma, ErrorKind::CommaExpected)?;
    push_str(&mut html, "\t\t\t-comma\n");
    let (code, y) = expect_lexeme(code.as_str(), TokenKind::Num, ErrorKind::NumExpected)?;
    push_num_html(&mut html, y.as_str());
    let code = expect(code.as_str(), TokenKind::RParen, ErrorKind::RParenExpected)?;
    push_str(&mut html, "\t\t\t-rparen\n");
    Ok((code, html, Definition { def_type: DefinitionType::POINT, param1: x, param2: y }))
}

/// The head of the parse tree of a circle or a square, and the type
/// defined, for the token that named the shape (any other token gives
/// no head and no type).
pub open spec fn shape_head(kind: TokenKind) -> (Seq<char>, DefinitionType) {
    if kind == TokenKind::Circle {
        ("\t\t\t-circle\n"@, DefinitionType::CIRCLE)
    } else if kind == TokenKind::Square {
        ("\t\t\t-square\n"@, DefinitionType::SQUARE)
    } else {
        (Seq::empty(), DefinitionType::NONE)
    }
}

/// `circle(ID, NUM)` or `square(ID, NUM)`, after the word: the remaining
/// source, the parse tree and the shape defined.
#[verifier::opaque]
pub open spec fn spec_circle_square(kind: TokenKind, code: Seq<char>) -> Result<(Seq<char>, Seq<char>, DefView), ParseErrorView> {
    match spec_expect(code, TokenKind::LParen, ErrorKind::LParenExpected) {
        Err(e) => Err(e),
        Ok(c1) => match spec_expect_lexeme(c1, TokenKind::Id, ErrorKind::IdExpected) {
            Err(e) => Err(e),
            Ok((c2, id)) => match spec_expect(c2, TokenKind::Comma, ErrorKind::CommaExpected) {
                Err(e) => Err(e),
                Ok(c3) => match spec_expect_lexeme(c3, TokenKind::Num, ErrorKind::NumExpected) {
                    Err(e) => Err(e),
                    Ok((c4, n)) => match spec_expect(c4, TokenKind::RParen, ErrorKind::RParenExpected) {
                        Err(e) => Err(e),
                        Ok(c5) => Ok((
                            c5,
                            shape_head(kind).0 + "\t\t\t-lparen\n"@ + id_html(id) + "\t\t\t-comma\n"@
                                + num_html(n) + "\t\t\t-rparen\n"@,
                            DefView { def_type: shape_head(kind).1, param1: id, param2: n },
                        )),
                    },
                },
            },
        },
    }
}

/// Parses `circle(ID, NUM)` or `square(ID, NUM)`; `tok` is the word that
/// named the shape, read already.
pub fn circle_square(tok: &Token, source: &str) -> (res: Result<(String, String, Definition), ParseError>)
    ensures
        match spec_circle_square(tok.kind, source@) {
            Ok((r, h, d)) => res matches Ok((s, x, y)) && s@ == r && x@ == h && y@ == d,
            Err(e) => res matches Err(x) && x@ == e,
        },
{
    reveal(spec_circle_square);
    let mut html = String::new();
    let mut def_type = DefinitionType::NONE;
    if tok.kind == TokenKind::Circle {
        push_str(&mut html, "\t\t\t-circle\n");
        def_type = DefinitionType::CIRCLE;
    } else if tok.kind == TokenKind::Square {
        push_str(&mut html, "\t\t\t-square\n");
        def_type = DefinitionType::SQUARE;
    }
    assert(html@ =~= shape_head(tok.kind).0);
    let code = expect(source, TokenKind::LParen, ErrorKind::LParenExpected)?;
    push_str(&mut html, "\t\t\t-lparen\n");
    let (code, id) = expect_lexeme(code.as_str(), TokenKind::Id, ErrorKind::IdExpected)?;
    push_id_html(&mut html, id.as_str());
    let code = expect(code.as_str(), TokenKind::Comma, ErrorKind::CommaExpected)?;
    push_str(&mut html, "\t\t\t-comma\n");
    let (code, n) = expect_lexeme(code.as_str(), TokenKind::Num, ErrorKind::NumExpected)?;
    push_num_html(&mut html, n.as_str());
    let code = expect(code.as_str(), TokenKind::RParen, ErrorKind::RParenExpected)?;
    push_str(&mut html, "\t\t\t-rparen\n");
    Ok((code, html, Definition { def_type, param1: id, param2: n }))
}

/// The parse-tree lines that open a definition of `id`.
pub open spec fn def_head(id: Seq<char>) -> Seq<char> {
    "\t\t<def>\n"@ + id_html(id) + "\t\t\t-assign\n"@
}

/// `ID = SHAPE`: the remaining source, the parse tree, the identifier and
/// its definition.
#[verifier::opaque]
pub open spec fn spec_def(code: Seq<char>) -> Result<(Seq<char>, Seq<char>, Seq<char>, DefView), ParseErrorView> {
    match spec_expect_lexeme(code, TokenKind::Id, ErrorKind::IdExpected) {
        Err(e) => Err(e),
        Ok((c1, id)) => match spec_expect(c1, TokenKind::Assign, ErrorKind::AssignExpected) {
            Err(e) => Err(e),
            Ok(c2) => match spec_lex(c2) {
                Err(e) => Err(e),
                Ok((c3, t)) => if t.kind == TokenKind::Point {
                    match spec_point(c3) {
                        Err(e) => Err(e),
                        Ok((c4, h, d)) => Ok((c4, def_head(id) + h + "\t\t</def>\n"@, id, d)),
                    }
                } else if t.kind == TokenKind::Circle || t.kind == TokenKind::Square {
                    match spec_circle_square(t.kind, c3) {
                        Err(e) => Err(e),
                        Ok((c4, h, d)) => Ok((c4, def_head(id) + h + "\t\t</def>\n"@, id, d)),
                    }
                } else {
                    Err(syntax_error(ErrorKind::ShapeExpected))
                },
            },
        },
    }
}

/// Parses one definition and records it in `defs`, where it replaces any
/// earlier definition of the same identifier; on an error `defs` is left
/// as it was.
pub fn def(source: &str, defs: &mut SymbolTable) -> (res: Result<(String, String), ParseError>)
    ensures
        match spec_def(source@) {
            Ok((r, h, id, d)) => res matches Ok((s, x)) && s@ == r && x@ == h
                && final(defs)@ == old(defs)@.insert(id, d),
            Err(e) => res matches Err(x) && x@ == e && final(defs)@ == old(defs)@,
        },
{
    reveal(spec_def);
    let mut html = String::from_str("\t\t<def>\n");
    let (code, id) = expect_lexeme(source, TokenKind::Id, ErrorKind::IdExpected)?;
    push_id_html(&mut html, id.as_str());
    let code = expect(code.as_str(), TokenKind::Assign, ErrorKind::AssignExpected)?;
    push_str(&mut html, "\t\t\t-assign\n");
    let (code, t) = lex(code.as_str())?;
    let code = if t.kind == TokenKind::Point {
        let (code, h, d) = point(code.as_str())?;
        push_str(&mut html, h.as_str());
        defs.insert(id, d);
        code
    } else if t.kind == TokenKind::Circle || t.kind == TokenKind::Square {
        let (code, h, d) = circle_square(&t, code.as_str())?;
        push_str(&mut html, h.as_str());
        defs.insert(id, d);
        code
    } else {
        return Err(ParseError::syntax(ErrorKind::ShapeExpected));
    };
    push_str(&mut html, "\t\t</def>\n");
    Ok((code, html))
}

/// `print(ID)`, after the word `print`: the remaining source, the parse
/// tree and the operation.
#[verifier::opaque]
pub open spec fn spec_print(code: Seq<char>) -> Result<(Seq<char>, Seq<char>, OpView), ParseErrorView> {
    match spec_expect(code, TokenKind::LParen, ErrorKind::LParenExpected) {
        Err(e) => Err(e),
        Ok(c1) => match spec_expect_lexeme(c1, TokenKind::Id, ErrorKind::IdExpected) {
            Err(e) => Err(e),
            Ok((c2, id)) => match spec_expect(c2, TokenKind::RParen, ErrorKind::RParenExpected) {
                Err(e) => Err(e),
                Ok(c3) => Ok((
                    c3,
                    "\t\t\t-print\n"@ + "\t\t\t-lparen\n"@ + id_html(id) + "\t\t\t-rparen\n"@,
                    OpView { op_type: OperationType::PRINT, param1: id, param2: Seq::empty() },
                )),
            },
        },
    }
}

/// Parses `print(ID)` and appends the operation to `op_list`; the word
/// `print` has been read already. On an error `op_list` is left as it was.
pub fn print(source: &str, op_list: &mut Vec<Operation>) -> (res: Result<(String, String), ParseError>)
    ensures
        match spec_print(source@) {
            Ok((r, h, o)) => res matches Ok((s, x)) && s@ == r && x@ == h
                && ops_view(final(op_list)@) == ops_view(old(op_list)@).push(o),
            Err(e) => res matches Err(x) && x@ == e && final(op_list)@ == old(op_list)@,
        },
{
    reveal(spec_print);
    let mut html = String::from_str("\t\t\t-print\n");
    let code = expect(source, TokenKind::LParen, ErrorKind::LParenExpected)?;
    push_str(&mut html, "\t\t\t-lparen\n");
    let (code, id) = expect_lexeme(code.as_str(), TokenKind::Id, ErrorKind::IdExpected)?;
    push_id_html(&mut html, id.as_str());
    let code = expect(code.as_str(), TokenKind::RParen, ErrorKind::RParenExpected)?;
    push_str(&mut html, "\t\t\t-rparen\n");
    op_list.push(Operation { op_type: OperationType::PRINT, param1: id, param2: String::new() });
    assert(ops_view(op_list@) =~= ops_view(old(op_list)@).push(op_list@.last()@));
    Ok((code, html))
}

/// The head of the parse tree of `contained` or `intersects`, and the
/// operation type, for the token that named it (any other token gives no
/// head and an undefined operation).
pub open spec fn relation_head(kind: TokenKind) -> (Seq<char>, OperationType) {
    if kind == TokenKind::Contained {
        ("\t\t\t-contained\n"@, OperationType::CONTAINED)
    } else if kind == TokenKind::Intersects {
        ("\t\t\t-intersects\n"@, OperationType::INTERSECTS)
    } else {
        (Seq::empty(), OperationType::UNDEFINED)
    }
}

/// `contained(ID, ID)` or `intersects(ID, ID)`, after the word: the
/// remaining source, the parse tree and the operation.
#[verifier::opaque]
pub open spec fn spec_contain_inter(kind: TokenKind, code: Seq<char>) -> Result<(Seq<char>, Seq<char>, OpView), ParseErrorView> {
    match spec_expect(code, TokenKind::LParen, ErrorKind::LParenExpected) {
        Err(e) => Err(e),
        Ok(c1) => match spec_expect_lexeme(c1, TokenKind::Id, ErrorKind::IdExpected) {
            Err(e) => Err(e),
            Ok((c2, a)) => match spec_expect(c2, TokenKind::Comma, ErrorKind::CommaExpected) {
                Err(e) => Err(e),
                Ok(c3) => match spec_expect_lexeme(c3, TokenKind::Id, ErrorKind::IdExpected) {
                    Err(e) => Err(e),
                    Ok((c4, b)) => match spec_expect(c4, TokenKind::RParen, ErrorKind::RParenExpected) {
                        Err(e) => Err(e),
                        Ok(c5) => Ok((
                            c5,
                            relation_head(kind).0 + "\t\t\t-lparen\n"@ + id_html(a) + "\t\t\t-comma\n"@
                                + id_html(b) + "\t\t\t-rparen\n"@,
                            OpView { op_type: relation_head(kind).1, param1: a, param2: b },
                        )),
                    },
                },
            },
        },
    }
}

/// Parses `contained(ID, ID)` or `intersects(ID, ID)` and appends the
/// operation to `op_list`; `tok` is the word that named it, read already.
/// On an error `op_list` is left as it was.
pub fn contain_inter(tok: &Token, source: &str, op_list: &mut Vec<Operation>) -> (res: Result<(String, String), ParseError>)
    ensures
        match spec_contain_inter(tok.kind, source@) {
            Ok((r, h, o)) => res matches Ok((s, x)) && s@ == r && x@ == h
                && ops_view(final(op_list)@) == ops_view(old(op_list)@).push(o),
            Err(e) => res matches Err(x) && x@ == e && final(op_list)@ == old(op_list)@,
        },
{
    reveal(spec_contain_inter);
    let mut html = String::new();
    let mut op_type = OperationType::UNDEFINED;
    if tok.kind == TokenKind::Contained {
        op_type = OperationType::CONTAINED;
        push_str(&mut html, "\t\t\t-contained\n");
    } else if tok.kind == TokenKind::Intersects {
        op_type = OperationType::INTERSECTS;
        push_str(&mut html, "\t\t\t-intersects\n");
    }
    assert(html@ =~= relation_head(tok.kind).0);
    let code = expect(source, TokenKind::LParen, ErrorKind::LParenExpected)?;
    push_str(&mut html, "\t\t\t-lparen\n");
    let (code, a) = expect_lexeme(code.as_str(), TokenKind::Id, ErrorKind::IdExpected)?;
    push_id_html(&mut html, a.as_str());
    let code = expect(code.as_str(), TokenKind::Comma, ErrorKind::CommaExpected)?;
    push_str(&mut html, "\t\t\t-comma\n");
    let (code, b) = expect_lexeme(code.as_str(), TokenKind::Id, ErrorKind::IdExpected)?;
    push_id_html(&mut html, b.as_str());
    let code = expect(code.as_str(), TokenKind::RParen, ErrorKind::RParenExpected)?;
    push_str(&mut html, "\t\t\t-rparen\n");
    op_list.push(Operation { op_type, param1: a, param2: b });
    assert(ops_view(op_list@) =~= ops_view(old(op_list)@).push(op_list@.last()@));
    Ok((code, html))
}

/// One operation: the remaining source, the parse tree and the operation.
#[verifier::opaque]
pub open spec fn spec_op(code: Seq<char>) -> Result<(Seq<char>, Seq<char>, OpView), ParseErrorView> {
    match spec_lex(code) {
        Err(e) => Err(e),
        Ok((c1, t)) => if t.kind == TokenKind::Print {
            match spec_print(c1) {
                Err(e) => Err(e),
                Ok((c2, h, o)) => Ok((c2, "\t\t<op>\n"@ + h + "\t\t</op>\n"@, o)),
            }
        } else if t.kind == TokenKind::Contained || t.kind == TokenKind::Intersects {
            match spec_contain_inter(t.kind, c1) {
                Err(e) => Err(e),
                Ok((c2, h, o)) => Ok((c2, "\t\t<op>\n"@ + h + "\t\t</op>\n"@, o)),
            }
        } else {
            Err(syntax_error(ErrorKind::OperationExpected))
        },
    }
}

/// Parses one operation and appends it to `op_list`; on an error
/// `op_list` is left as it was.
pub fn ops(source: &str, op_list: &mut Vec<Operation>) -> (res: Result<(String, String), ParseError>)
    ensures
        match spec_op(source@) {
            Ok((r, h, o)) => res matches Ok((s, x)) && s@ == r && x@ == h
                && ops_view(final(op_list)@) == ops_view(old(op_list)@).push(o),
            Err(e) => res matches Err(x) && x@ == e && final(op_list)@ == old(op_list)@,
        },
{
    reveal(spec_op);
    let mut html = String::from_str("\t\t<op>\n");
    let (code, t) = lex(source)?;
    let code = if t.kind == TokenKind::Print {
        let (code, h) = print(code.as_str(), op_list)?;
        push_str(&mut html, h.as_str());
        code
    } else if t.kind == TokenKind::Contained || t.kind == TokenKind::Intersects {
        let (code, h) = contain_inter(&t, code.as_str(), op_list)?;
        push_str(&mut html, h.as_str());
        code
    } else {
        return Err(ParseError::syntax(ErrorKind::OperationExpected));
    };
    push_str(&mut html, "\t\t</op>\n");
    Ok((code, html))
}

/// A definition that parses consumes part of the source.
pub proof fn lemma_def_progress(code: Seq<char>)
    ensures
        spec_def(code) matches Ok((r, _, _, _)) ==> r.len() < code.len(),
{
    reveal(spec_def);
    reveal(spec_point);
    reveal(spec_circle_square);
}

/// An operation that parses consumes part of the source.
pub proof fn lemma_op_progress(code: Seq<char>)
    ensures
        spec_op(code) matches Ok((r, _, _)) ==> r.len() < code.len(),
{
    reveal(spec_op);
    reveal(spec_print);
    reveal(spec_contain_inter);
}

/// `DEF; DEF; ...` up to the first token after a definition that is not a
/// semicolon: that token, the source after it and the parse tree (appended
/// to `html`), together with the symbol table, which has each definition
/// read recorded, also when an error stops the list.
pub open spec fn spec_def_list(code: Seq<char>, defs: Map<Seq<char>, DefView>, html: Seq<char>) -> (Result<(Seq<char>, Seq<char>, crate::token::SpecToken), ParseErrorView>, Map<Seq<char>, DefView>)
    decreases code.len(),
{
    match spec_def(code) {
        Err(e) => (Err(e), defs),
        Ok((c1, h, id, d)) => {
            let defs1 = defs.insert(id, d);
            match spec_lex(c1) {
                Err(e) => (Err(e), defs1),
                Ok((c2, t)) => if t.kind == TokenKind::Semicolon {
                    proof {
                        lemma_def_progress(code);
                    }
                    spec_def_list(c2, defs1, html + h + "\t\t-semicolon\n"@)
                } else {
                    (Ok((c2, html + h, t)), defs1)
                },
            }
        },
    }
}

/// `OPERATION; OPERATION; ...` up to the first token after an operation
/// that is not a semicolon: that token, the source after it and the parse
/// tree (appended to `html`), together with the operations, which have
/// each operation read appended, also when an error stops the list.
pub open spec fn spec_op_list(code: Seq<char>, op_list: Seq<OpView>, html: Seq<char>) -> (Result<(Seq<char>, Seq<char>, crate::token::SpecToken), ParseErrorView>, Seq<OpView>)
    decreases code.len(),
{
    match spec_op(code) {
        Err(e) => (Err(e), op_list),
        Ok((c1, h, o)) => {
            let ops1 = op_list.push(o);
            match spec_lex(c1) {
                Err(e) => (Err(e), ops1),
                Ok((c2, t)) => if t.kind == TokenKind::Semicolon {
                    proof {
                        lemma_op_progress(code);
                    }
                    spec_op_list(c2, ops1, html + h + "\t\t-semicolon\n"@)
                } else {
                    (Ok((c2, html + h, t)), ops1)
                },
            }
        },
    }
}

fn def_list(code: String, defs: &mut SymbolTable, html: String) -> (res: Result<(String, String, Token), ParseError>)
    ensures
        final(defs)@ == spec_def_list(code@, old(defs)@, html@).1,
        match spec_def_list(code@, old(defs)@, html@).0 {
            Ok((c, h, t)) => res matches Ok((x, y, z)) && x@ == c && y@ == h && z@ == t,
            Err(e) => res matches Err(x) && x@ == e,
        },
{
    let ghost target = spec_def_list(code@, defs@, html@);
    let ghost code0 = code@;
    let ghost html0 = html@;
    let mut cur = code;
    let mut out = html;
    loop
        invariant
            spec_def_list(cur@, defs@, out@) == target,
            target == spec_def_list(code0, old(defs)@, html0),
            code0 == code@,
            html0 == html@,
        decreases cur@.len(),
    {
        proof {
            lemma_def_progress(cur@);
        }
        let ghost before = cur@;
        let (c1, h) = match def(cur.as_str(), defs) {
            Ok(p) => p,
            Err(e) => {
                return Err(e);
            },
        };
        push_str(&mut out, h.as_str());
        let (c2, t) = match lex(c1.as_str()) {
            Ok(p) => p,
            Err(e) => {
                return Err(e);
            },
        };
        if t.kind != TokenKind::Semicolon {
            return Ok((c2, out, t));
        }
        push_str(&mut out, "\t\t-semicolon\n");
        cur = c2;
        assert(cur@.len() < before.len());
    }
}

fn op_list_parse(code: String, op_list: &mut Vec<Operation>, html: String) -> (res: Result<(String, String, Token), ParseError>)
    ensures
        ops_view(final(op_list)@) == spec_op_list(code@, ops_view(old(op_list)@), html@).1,
        match spec_op_list(code@, ops_view(old(op_list)@), html@).0 {
            Ok((c, h, t)) => res matches Ok((x, y, z)) && x@ == c && y@ == h && z@ == t,
            Err(e) => res matches Err(x) && x@ == e,
        },
{
    let ghost target = spec_op_list(code@, ops_view(op_list@), html@);
    let ghost code0 = code@;
    let ghost html0 = html@;
    let mut cur = code;
    let mut out = html;
    loop
        invariant
            spec_op_list(cur@, ops_view(op_list@), out@) == target,
            target == spec_op_list(code0, ops_view(old(op_list)@), html0),
            code0 == code@,
            html0 == html@,
        decreases cur@.len(),
    {
        proof {
            lemma_op_progress(cur@);
        }
        let ghost before = cur@;
        let (c1, h) = match ops(cur.as_str(), op_list) {
            Ok(p) => p,
            Err(e) => {
                return Err(e);
            },
        };
        push_str(&mut out, h.as_str());
        let (c2, t) = match lex(c1.as_str()) {
            Ok(p) => p,
            Err(e) => {
                return Err(e);
            },
        };
        if t.kind != TokenKind::Semicolon {
            return Ok((c2, out, t));
        }
        push_str(&mut out, "\t\t-semicolon\n");
        cur = c2;
        assert(cur@.len() < before.len());
    }
}

/// The definitions section, after `definitions :`, up to and including the
/// word `operations`: the source after it and the parse tree (appended to
/// `html`), together with the symbol table.
pub open spec fn spec_defs_section(code: Seq<char>, defs: Map<Seq<char>, DefView>, html: Seq<char>) -> (Result<(Seq<char>, Seq<char>), ParseErrorView>, Map<Seq<char>, DefView>) {
    let (r, d) = spec_def_list(code, defs, html);
    match r {
        Err(e) => (Err(e), d),
        Ok((c2, h, t2)) => if t2.kind == TokenKind::Operations {
            (Ok((c2, h + "\t</defs>\n"@)), d)
        } else {
            (Err(syntax_error(ErrorKind::OperationsExpected)), d)
        },
    }
}

/// The operations section, after `operations :`, up to and including the
/// word `end`: the source after it and the parse tree (appended to
/// `html`), together with the operations.
pub open spec fn spec_ops_section(code: Seq<char>, op_list: Seq<OpView>, html: Seq<char>) -> (Result<(Seq<char>, Seq<char>), ParseErrorView>, Seq<OpView>) {
    let (r, o) = spec_op_list(code, op_list, html);
    match r {
        Err(e) => (Err(e), o),
        Ok((c2, h, t2)) => if t2.kind == TokenKind::End {
            (Ok((c2, h + "\t</ops>\n"@)), o)
        } else {
            (Err(syntax_error(ErrorKind::EndExpected)), o)
        },
    }
}

/// A whole program: its parse tree, together with the symbol table and the
/// operations, which hold what was read also when an error stops the parse.
pub open spec fn spec_program(code: Seq<char>, defs: Map<Seq<char>, DefView>, op_list: Seq<OpView>) -> (Result<Seq<char>, ParseErrorView>, Map<Seq<char>, DefView>, Seq<OpView>) {
    match spec_expect(code, TokenKind::Definitions, ErrorKind::DefinitionsExpected) {
        Err(e) => (Err(e), defs, op_list),
        Ok(c1) => match spec_expect(c1, TokenKind::Colon, ErrorKind::ColonAfterDefinitions) {
            Err(e) => (Err(e), defs, op_list),
            Ok(c2) => {
                let (r, defs2) = spec_defs_section(
                    c2,
                    defs,
                    "<program>\n"@ + "\t-definitions\n"@ + "\t-colon\n\t<defs>\n"@,
                );
                match r {
                    Err(e) => (Err(e), defs2, op_list),
                    Ok((c3, h3)) => match spec_expect(c3, TokenKind::Colon, ErrorKind::ColonAfterOperations) {
                        Err(e) => (Err(e), defs2, op_list),
                        Ok(c4) => {
                            let (r2, ops2) = spec_ops_section(
                                c4,
                                op_list,
                                h3 + "\t-operations\n"@ + "\t-colon\n\t<ops>\n"@,
                            );
                            match r2 {
                                Err(e) => (Err(e), defs2, ops2),
                                Ok((c5, h5)) => match spec_expect(c5, TokenKind::Period, ErrorKind::PeriodExpected) {
                                    Err(e) => (Err(e), defs2, ops2),
                                    Ok(c6) => match spec_lex(c6) {
                                        Err(e) => (Err(e), defs2, ops2),
                                        Ok((_, t)) => if t.kind == TokenKind::Eof {
                                            (Ok(h5 + "\t-end\n"@ + "\t-period\n</program>"@), defs2, ops2)
                                        } else {
                                            (Err(syntax_error(ErrorKind::TrailingText)), defs2, ops2)
                                        },
                                    },
                                },
                            }
                        },
                    },
                }
            },
        },
    }
}

fn defs_section(code: String, defs: &mut SymbolTable, html: String) -> (res: Result<(String, String), ParseError>)
    ensures
        final(defs)@ == spec_defs_section(code@, old(defs)@, html@).1,
        match spec_defs_section(code@, old(defs)@, html@).0 {
            Ok((c, h)) => res matches Ok((x, y)) && x@ == c && y@ == h,
            Err(e) => res matches Err(x) && x@ == e,
        },
{
    let (c2, mut h, t2) = def_list(code, defs, html)?;
    push_str(&mut h, "\t</defs>\n");
    if t2.kind != TokenKind::Operations {
        return Err(ParseError::syntax(ErrorKind::OperationsExpected));
    }
    Ok((c2, h))
}

fn ops_section(code: String, op_list: &mut Vec<Operation>, html: String) -> (res: Result<(String, String), ParseError>)
    ensures
        ops_view(final(op_list)@) == spec_ops_section(code@, ops_view(old(op_list)@), html@).1,
        match spec_ops_section(code@, ops_view(old(op_list)@), html@).0 {
            Ok((c, h)) => res matches Ok((x, y)) && x@ == c && y@ == h,
            Err(e) => res matches Err(x) && x@ == e,
        },
{
    let (c2, mut h, t2) = op_list_parse(code, op_list, html)?;
    push_str(&mut h, "\t</ops>\n");
    if t2.kind != TokenKind::End {
        return Err(ParseError::syntax(ErrorKind::EndExpected));
    }
    Ok((c2, h))
}

/// Parses a whole program, which must take up the whole source (only
/// whitespace may follow the final period): records each definition in `defs` (a later
/// definition of an identifier replaces an earlier one) and appends each
/// operation to `op_v`, and returns the HTML view of the parse tree.
/// When an error stops the parse, `defs` and `op_v` hold what was read
/// before it.
pub fn program(source: &str, defs: &mut SymbolTable, op_v: &mut Vec<Operation>) -> (res: Result<String, ParseError>)
    ensures
        final(defs)@ == spec_program(source@, old(defs)@, ops_view(old(op_v)@)).1,
        ops_view(final(op_v)@) == spec_program(source@, old(defs)@, ops_view(old(op_v)@)).2,
        match spec_program(source@, old(defs)@, ops_view(old(op_v)@)).0 {
            Ok(h) => res matches Ok(x) && x@ == h,
            Err(e) => res matches Err(x) && x@ == e,
        },
{
    let mut html = String::from_str("<program>\n");
    let code = expect(source, TokenKind::Definitions, ErrorKind::DefinitionsExpected)?;
    push_str(&mut html, "\t-definitions\n");
    let code = expect(code.as_str(), TokenKind::Colon, ErrorKind::ColonAfterDefinitions)?;
    push_str(&mut html, "\t-colon\n\t<defs>\n");
    let (code, mut html) = defs_section(code, defs, html)?;
    push_str(&mut html, "\t-operations\n");
    let code = expect(code.as_str(), TokenKind::Colon, ErrorKind::ColonAfterOperations)?;
    push_str(&mut html, "\t-colon\n\t<ops>\n");
    let (code, mut html) = ops_section(code, op_v, html)?;
    push_str(&mut html, "\t-end\n");
    let rest = expect(code.as_str(), TokenKind::Period, ErrorKind::PeriodExpected)?;
    let (_, t) = lex(rest.as_str())?;
    if t.kind != TokenKind::Eof {
        return Err(ParseError::syntax(ErrorKind::TrailingText));
    }
    push_str(&mut html, "\t-period\n</program>");
    Ok(html)
}

/// `pre` is a prefix of `s`.
pub open spec fn starts_with(s: Seq<char>, pre: Seq<char>) -> bool {
    pre.len() <= s.len() && s.subrange(0, pre.len() as int) =~= pre
}

proof fn lemma_starts_with_append(a: Seq<char>, pre: Seq<char>, b: Seq<char>)
    requires
        starts_with(a, pre),
    ensures
        starts_with(a + b, pre),
{
    assert((a + b).subrange(0, pre.len() as int) =~= a.subrange(0, pre.len() as int));
}

proof fn lemma_def_list_grows(code: Seq<char>, defs: Map<Seq<char>, DefView>, html: Seq<char>)
    ensures
        defs.dom().subset_of(spec_def_list(code, defs, html).1.dom()),
        spec_def_list(code, defs, html).0 matches Ok((_, h, _)) ==> starts_with(h, html),
    decreases code.len(),
{
    lemma_def_progress(code);
    if let Ok((c1, h, id, d)) = spec_def(code) {
        let defs1 = defs.insert(id, d);
        if let Ok((c2, t)) = spec_lex(c1) {
            if t.kind == TokenKind::Semicolon {
                let html1 = html + h + "\t\t-semicolon\n"@;
                lemma_def_list_grows(c2, defs1, html1);
                lemma_starts_with_append(html, html, h + "\t\t-semicolon\n"@);
                assert(html1 =~= html + (h + "\t\t-semicolon\n"@));
                if let Ok((_, h2, _)) = spec_def_list(c2, defs1, html1).0 {
                    assert(h2.subrange(0, html.len() as int) =~= h2.subrange(0, html1.len() as int).subrange(0, html.len() as int));
                }
            } else {
                lemma_starts_with_append(html, html, h);
            }
        }
    }
}

proof fn lemma_op_list_grows(code: Seq<char>, op_list: Seq<OpView>, html: Seq<char>)
    ensures
        op_list.is_prefix_of(spec_op_list(code, op_list, html).1),
        spec_op_list(code, op_list, html).0 matches Ok((_, h, _)) ==> starts_with(h, html),
    decreases code.len(),
{
    lemma_op_progress(code);
    if let Ok((c1, h, o)) = spec_op(code) {
        let ops1 = op_list.push(o);
        assert(op_list.is_prefix_of(ops1));
        if let Ok((c2, t)) = spec_lex(c1) {
            if t.kind == TokenKind::Semicolon {
                let html1 = html + h + "\t\t-semicolon\n"@;
                lemma_op_list_grows(c2, ops1, html1);
                lemma_starts_with_append(html, html, h + "\t\t-semicolon\n"@);
                assert(html1 =~= html + (h + "\t\t-semicolon\n"@));
                if let Ok((_, h2, _)) = spec_op_list(c2, ops1, html1).0 {
                    assert(h2.subrange(0, html.len() as int) =~= h2.subrange(0, html1.len() as int).subrange(0, html.len() as int));
                }
            } else {
                lemma_starts_with_append(html, html, h);
            }
        }
    }
}

/// Parsing only adds: every identifier defined before stays defined (a
/// later definition may replace its value), the operations held before
/// stay first in the list, and this holds also when an error stops the
/// parse.
pub proof fn lemma_program_only_adds(code: Seq<char>, defs: Map<Seq<char>, DefView>, op_list: Seq<OpView>)
    ensures
        defs.dom().subset_of(spec_program(code, defs, op_list).1.dom()),
        op_list.is_prefix_of(spec_program(code, defs, op_list).2),
{
    let h1 = "<program>\n"@ + "\t-definitions\n"@ + "\t-colon\n\t<defs>\n"@;
    if let Ok(c1) = spec_expect(code, TokenKind::Definitions, ErrorKind::DefinitionsExpected) {
        if let Ok(c2) = spec_expect(c1, TokenKind::Colon, ErrorKind::ColonAfterDefinitions) {
            lemma_def_list_grows(c2, defs, h1);
            let (r, defs2) = spec_defs_section(c2, defs, h1);
            if let Ok((c3, h3)) = r {
                if let Ok(c4) = spec_expect(c3, TokenKind::Colon, ErrorKind::ColonAfterOperations) {
                    lemma_op_list_grows(c4, op_list, h3 + "\t-operations\n"@ + "\t-colon\n\t<ops>\n"@);
                }
            }
        }
    }
    assert(op_list.is_prefix_of(op_list));
}

/// The parse tree of a program that parses is one `<program>` element:
/// it opens with `<program>` and closes with the period and `</program>`.
pub proof fn lemma_program_tree_brackets(code: Seq<char>, defs: Map<Seq<char>, DefView>, op_list: Seq<OpView>)
    ensures
        spec_program(code, defs, op_list).0 matches Ok(h) ==> {
            &&& starts_with(h, "<program>\n"@)
            &&& h.len() >= "\t-period\n</program>"@.len()
            &&& h.subrange(h.len() - "\t-period\n</program>"@.len(), h.len() as int) =~= "\t-period\n</program>"@
        },
{
    let h0 = "<program>\n"@;
    let h1 = "<program>\n"@ + "\t-definitions\n"@ + "\t-colon\n\t<defs>\n"@;
    if let Ok(c1) = spec_expect(code, TokenKind::Definitions, ErrorKind::DefinitionsExpected) {
        if let Ok(c2) = spec_expect(c1, TokenKind::Colon, ErrorKind::ColonAfterDefinitions) {
            assert(h1 =~= h0 + ("\t-definitions\n"@ + "\t-colon\n\t<defs>\n"@));
            lemma_starts_with_append(h0, h0, "\t-definitions\n"@ + "\t-colon\n\t<defs>\n"@);
            lemma_def_list_grows(c2, defs, h1);
            let (r, defs2) = spec_defs_section(c2, defs, h1);
            if let Ok((c3, h3)) = r {
                if spec_lex(c2) matches Ok((_, t)) && t.kind != TokenKind::Operations {
                    let (r0, _) = spec_def_list(c2, defs, h1);
                    if let Ok((_, hd, _)) = r0 {
                        assert(hd.subrange(0, h0.len() as int) =~= hd.subrange(0, h1.len() as int).subrange(0, h0.len() as int));
                        lemma_starts_with_append(hd, h0, "\t</defs>\n"@);
                    }
                }
                assert(starts_with(h3, h0));
                if let Ok(c4) = spec_expect(c3, TokenKind::Colon, ErrorKind::ColonAfterOperations) {
                    let h4 = h3 + "\t-operations\n"@ + "\t-colon\n\t<ops>\n"@;
                    assert(h4 =~= h3 + ("\t-operations\n"@ + "\t-colon\n\t<ops>\n"@));
                    lemma_starts_with_append(h3, h0, "\t-operations\n"@ + "\t-colon\n\t<ops>\n"@);
                    lemma_op_list_grows(c4, op_list, h4);
                    let (r2, ops2) = spec_ops_section(c4, op_list, h4);
                    if let Ok((c5, h5)) = r2 {
                        if spec_lex(c4) matches Ok((_, t)) && t.kind != TokenKind::End {
                            let (r0, _) = spec_op_list(c4, op_list, h4);
                            if let Ok((_, ho, _)) = r0 {
                                assert(ho.subrange(0, h0.len() as int) =~= ho.subrange(0, h4.len() as int).subrange(0, h0.len() as int));
                                lemma_starts_with_append(ho, h0, "\t</ops>\n"@);
                            }
                        }
                        assert(starts_with(h5, h0));
                        let hf = h5 + "\t-end\n"@ + "\t-period\n</program>"@;
                        assert(hf =~= h5 + ("\t-end\n"@ + "\t-period\n</program>"@));
                        lemma_starts_with_append(h5, h0, "\t-end\n"@ + "\t-period\n</program>"@);
                        assert(hf.subrange(hf.len() - "\t-period\n</program>"@.len(), hf.len() as int) =~= "\t-period\n</program>"@);
                    }
                }
            }
        }
    }
}

} // verus!
