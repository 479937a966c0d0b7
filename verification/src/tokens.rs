//! The token stream of a source, and the law that the parser's results
//! depend on the token stream alone: sources that lex to the same tokens
//! give the same parse tree, symbol table, operations and errors.

use vstd::prelude::*;
use crate::error::{ErrorKind, ParseErrorView};
use crate::grammar::reads;
use crate::lexer::{Scan, is_blank, lemma_lex_eof_iff_blank, lemma_lex_leading_whitespace, lemma_lex_progress, lemma_scan_insert, spec_lex};
use crate::parser::{
    lemma_def_progress, lemma_op_progress, spec_circle_square, spec_contain_inter, spec_def,
    spec_def_list, spec_defs_section, spec_expect, spec_expect_lexeme, spec_op, spec_op_list,
    spec_ops_section, spec_point, spec_print, spec_program,
};
use crate::program_model::{DefView, OpView};
use crate::token::{SpecToken, TokenKind};

verus! {

broadcast use lemma_lex_progress;

/// The tokens of `s`, read one after the other up to the end of the
/// source, and the lexical error that stops them, if any.
pub open spec fn token_stream(s: Seq<char>) -> (Seq<SpecToken>, Option<ParseErrorView>)
    decreases s.len(),
{
    match spec_lex(s) {
        Err(e) => (Seq::empty(), Some(e)),
        Ok((r, t)) => if t.kind == TokenKind::Eof {
            (Seq::empty(), None)
        } else {
            let (ts, e) = token_stream(r);
            (seq![t] + ts, e)
        },
    }
}

/// `a` and `b` lex to the same tokens.
pub open spec fn alike(a: Seq<char>, b: Seq<char>) -> bool {
    token_stream(a) == token_stream(b)
}

/// Two outcomes that give the same value (or the same error) and leave
/// sources that lex alike.
pub open spec fn same1(x: Result<Seq<char>, ParseErrorView>, y: Result<Seq<char>, ParseErrorView>) -> bool {
    match (x, y) {
        (Ok(a), Ok(b)) => alike(a, b),
        (Err(e1), Err(e2)) => e1 == e2,
        _ => false,
    }
}

pub open spec fn same2<A>(x: Result<(Seq<char>, A), ParseErrorView>, y: Result<(Seq<char>, A), ParseErrorView>) -> bool {
    match (x, y) {
        (Ok((a, v)), Ok((b, w))) => alike(a, b) && v == w,
        (Err(e1), Err(e2)) => e1 == e2,
        _ => false,
    }
}

pub open spec fn same3<A, B>(x: Result<(Seq<char>, A, B), ParseErrorView>, y: Result<(Seq<char>, A, B), ParseErrorView>) -> bool {
    match (x, y) {
        (Ok((a, v1, v2)), Ok((b, w1, w2))) => alike(a, b) && v1 == w1 && v2 == w2,
        (Err(e1), Err(e2)) => e1 == e2,
        _ => false,
    }
}

pub open spec fn same4<A, B, C>(x: Result<(Seq<char>, A, B, C), ParseErrorView>, y: Result<(Seq<char>, A, B, C), ParseErrorView>) -> bool {
    match (x, y) {
        (Ok((a, v1, v2, v3)), Ok((b, w1, w2, w3))) => alike(a, b) && v1 == w1 && v2 == w2 && v3 == w3,
        (Err(e1), Err(e2)) => e1 == e2,
        _ => false,
    }
}

/// Sources that lex alike give the same first token (or the same error),
/// and what remains after it lexes alike.
pub proof fn lemma_alike_lex(a: Seq<char>, b: Seq<char>)
    requires
        alike(a, b),
    ensures
        same2(spec_lex(a), spec_lex(b)),
{
    match (spec_lex(a), spec_lex(b)) {
        (Ok((ra, ta)), Ok((rb, tb))) => {
            if ta.kind == TokenKind::Eof || tb.kind == TokenKind::Eof {
                assert(ta.kind == TokenKind::Eof && tb.kind == TokenKind::Eof) by {
                    if ta.kind != TokenKind::Eof {
                        assert(token_stream(a).0.len() > 0);
                    }
                    if tb.kind != TokenKind::Eof {
                        assert(token_stream(b).0.len() > 0);
                    }
                }
                lemma_lex_eof_iff_blank(a);
                lemma_lex_eof_iff_blank(b);
                assert(ta == tb);
            } else {
                assert(token_stream(a).0[0] == ta);
                assert(token_stream(b).0[0] == tb);
                assert(token_stream(ra).0 =~= token_stream(a).0.drop_first());
                assert(token_stream(rb).0 =~= token_stream(b).0.drop_first());
            }
        },
        (Ok((ra, ta)), Err(_)) => {
            if ta.kind != TokenKind::Eof {
                assert(token_stream(a).0.len() > 0);
            }
        },
        (Err(_), Ok((rb, tb))) => {
            if tb.kind != TokenKind::Eof {
                assert(token_stream(b).0.len() > 0);
            }
        },
        (Err(_), Err(_)) => {},
    }
}

proof fn lemma_alike_expect(a: Seq<char>, b: Seq<char>, k: TokenKind, err: ErrorKind)
    requires
        alike(a, b),
    ensures
        same1(spec_expect(a, k, err), spec_expect(b, k, err)),
{
    lemma_alike_lex(a, b);
}

proof fn lemma_alike_expect_lexeme(a: Seq<char>, b: Seq<char>, k: TokenKind, err: ErrorKind)
    requires
        alike(a, b),
    ensures
        same2(spec_expect_lexeme(a, k, err), spec_expect_lexeme(b, k, err)),
{
    lemma_alike_lex(a, b);
}

proof fn lemma_alike_point(a: Seq<char>, b: Seq<char>)
    requires
        alike(a, b),
    ensures
        same3(spec_point(a), spec_point(b)),
{
    reveal(spec_point);
    lemma_alike_expect(a, b, TokenKind::LParen, ErrorKind::LParenExpected);
    if let (Ok(a1), Ok(b1)) = (spec_expect(a, TokenKind::LParen, ErrorKind::LParenExpected), spec_expect(b, TokenKind::LParen, ErrorKind::LParenExpected)) {
        lemma_alike_expect_lexeme(a1, b1, TokenKind::Num, ErrorKind::NumExpected);
        if let (Ok((a2, _)), Ok((b2, _))) = (spec_expect_lexeme(a1, TokenKind::Num, ErrorKind::NumExpected), spec_expect_lexeme(b1, TokenKind::Num, ErrorKind::NumExpected)) {
            lemma_alike_expect(a2, b2, TokenKind::Comma, ErrorKind::CommaExpected);
            if let (Ok(a3), Ok(b3)) = (spec_expect(a2, TokenKind::Comma, ErrorKind::CommaExpected), spec_expect(b2, TokenKind::Comma, ErrorKind::CommaExpected)) {
                lemma_alike_expect_lexeme(a3, b3, TokenKind::Num, ErrorKind::NumExpected);
                if let (Ok((a4, _)), Ok((b4, _))) = (spec_expect_lexeme(a3, TokenKind::Num, ErrorKind::NumExpected), spec_expect_lexeme(b3, TokenKind::Num, ErrorKind::NumExpected)) {
                    lemma_alike_expect(a4, b4, TokenKind::RParen, ErrorKind::RParenExpected);
                }
            }
        }
    }
}

proof fn lemma_alike_circle_square(kind: TokenKind, a: Seq<char>, b: Seq<char>)
    requires
        alike(a, b),
    ensures
        same3(spec_circle_square(kind, a), spec_circle_square(kind, b)),
{
    reveal(spec_circle_square);
    lemma_alike_expect(a, b, TokenKind::LParen, ErrorKind::LParenExpected);
    if let (Ok(a1), Ok(b1)) = (spec_expect(a, TokenKind::LParen, ErrorKind::LParenExpected), spec_expect(b, TokenKind::LParen, ErrorKind::LParenExpected)) {
        lemma_alike_expect_lexeme(a1, b1, TokenKind::Id, ErrorKind::IdExpected);
        if let (Ok((a2, _)), Ok((b2, _))) = (spec_expect_lexeme(a1, TokenKind::Id, ErrorKind::IdExpected), spec_expect_lexeme(b1, TokenKind::Id, ErrorKind::IdExpected)) {
            lemma_alike_expect(a2, b2, TokenKind::Comma, ErrorKind::CommaExpected);
            if let (Ok(a3), Ok(b3)) = (spec_expect(a2, TokenKind::Comma, ErrorKind::CommaExpected), spec_expect(b2, TokenKind::Comma, ErrorKind::CommaExpected)) {
                lemma_alike_expect_lexeme(a3, b3, TokenKind::Num, ErrorKind::NumExpected);
                if let (Ok((a4, _)), Ok((b4, _))) = (spec_expect_lexeme(a3, TokenKind::Num, ErrorKind::NumExpected), spec_expect_lexeme(b3, TokenKind::Num, ErrorKind::NumExpected)) {
                    lemma_alike_expect(a4, b4, TokenKind::RParen, ErrorKind::RParenExpected);
                }
            }
        }
    }
}

proof fn lemma_alike_print(a: Seq<char>, b: Seq<char>)
    requires
        alike(a, b),
    ensures
        same3(spec_print(a), spec_print(b)),
{
    reveal(spec_print);
    lemma_alike_expect(a, b, TokenKind::LParen, ErrorKind::LParenExpected);
    if let (Ok(a1), Ok(b1)) = (spec_expect(a, TokenKind::LParen, ErrorKind::LParenExpected), spec_expect(b, TokenKind::LParen, ErrorKind::LParenExpected)) {
        lemma_alike_expect_lexeme(a1, b1, TokenKind::Id, ErrorKind::IdExpected);
        if let (Ok((a2, _)), Ok((b2, _))) = (spec_expect_lexeme(a1, TokenKind::Id, ErrorKind::IdExpected), spec_expect_lexeme(b1, TokenKind::Id, ErrorKind::IdExpected)) {
            lemma_alike_expect(a2, b2, TokenKind::RParen, ErrorKind::RParenExpected);
        }
    }
}

proof fn lemma_alike_contain_inter(kind: TokenKind, a: Seq<char>, b: Seq<char>)
    requires
        alike(a, b),
    ensures
        same3(spec_contain_inter(kind, a), spec_contain_inter(kind, b)),
{
    reveal(spec_contain_inter);
    lemma_alike_expect(a, b, TokenKind::LParen, ErrorKind::LParenExpected);
    if let (Ok(a1), Ok(b1)) = (spec_expect(a, TokenKind::LParen, ErrorKind::LParenExpected), spec_expect(b, TokenKind::LParen, ErrorKind::LParenExpected)) {
        lemma_alike_expect_lexeme(a1, b1, TokenKind::Id, ErrorKind::IdExpected);
        if let (Ok((a2, _)), Ok((b2, _))) = (spec_expect_lexeme(a1, TokenKind::Id, ErrorKind::IdExpected), spec_expect_lexeme(b1, TokenKind::Id, ErrorKind::IdExpected)) {
            lemma_alike_expect(a2, b2, TokenKind::Comma, ErrorKind::CommaExpected);
            if let (Ok(a3), Ok(b3)) = (spec_expect(a2, TokenKind::Comma, ErrorKind::CommaExpected), spec_expect(b2, TokenKind::Comma, ErrorKind::CommaExpected)) {
                lemma_alike_expect_lexeme(a3, b3, TokenKind::Id, ErrorKind::IdExpected);
                if let (Ok((a4, _)), Ok((b4, _))) = (spec_expect_lexeme(a3, TokenKind::Id, ErrorKind::IdExpected), spec_expect_lexeme(b3, TokenKind::Id, ErrorKind::IdExpected)) {
                    lemma_alike_expect(a4, b4, TokenKind::RParen, ErrorKind::RParenExpected);
                }
            }
        }
    }
}

proof fn lemma_alike_def(a: Seq<char>, b: Seq<char>)
    requires
        alike(a, b),
    ensures
        same4(spec_def(a), spec_def(b)),
{
    reveal(spec_def);
    lemma_alike_expect_lexeme(a, b, TokenKind::Id, ErrorKind::IdExpected);
    if let (Ok((a1, _)), Ok((b1, _))) = (spec_expect_lexeme(a, TokenKind::Id, ErrorKind::IdExpected), spec_expect_lexeme(b, TokenKind::Id, ErrorKind::IdExpected)) {
        lemma_alike_expect(a1, b1, TokenKind::Assign, ErrorKind::AssignExpected);
        if let (Ok(a2), Ok(b2)) = (spec_expect(a1, TokenKind::Assign, ErrorKind::AssignExpected), spec_expect(b1, TokenKind::Assign, ErrorKind::AssignExpected)) {
            lemma_alike_lex(a2, b2);
            if let (Ok((a3, t)), Ok((b3, _))) = (spec_lex(a2), spec_lex(b2)) {
                lemma_alike_point(a3, b3);
                lemma_alike_circle_square(t.kind, a3, b3);
            }
        }
    }
}

proof fn lemma_alike_op(a: Seq<char>, b: Seq<char>)
    requires
        alike(a, b),
    ensures
        same3(spec_op(a), spec_op(b)),
{
    reveal(spec_op);
    lemma_alike_lex(a, b);
    if let (Ok((a1, t)), Ok((b1, _))) = (spec_lex(a), spec_lex(b)) {
        lemma_alike_print(a1, b1);
        lemma_alike_contain_inter(t.kind, a1, b1);
    }
}

proof fn lemma_alike_def_list(a: Seq<char>, b: Seq<char>, defs: Map<Seq<char>, DefView>, html: Seq<char>)
    requires
        alike(a, b),
    ensures
        same3(spec_def_list(a, defs, html).0, spec_def_list(b, defs, html).0),
        spec_def_list(a, defs, html).1 == spec_def_list(b, defs, html).1,
    decreases a.len(),
{
    lemma_def_progress(a);
    lemma_alike_def(a, b);
    if let (Ok((a1, h, id, d)), Ok((b1, _, _, _))) = (spec_def(a), spec_def(b)) {
        lemma_alike_lex(a1, b1);
        if let (Ok((a2, t)), Ok((b2, _))) = (spec_lex(a1), spec_lex(b1)) {
            if t.kind == TokenKind::Semicolon {
                lemma_alike_def_list(a2, b2, defs.insert(id, d), html + h + "\t\t-semicolon\n"@);
            }
        }
    }
}

proof fn lemma_alike_op_list(a: Seq<char>, b: Seq<char>, op_list: Seq<OpView>, html: Seq<char>)
    requires
        alike(a, b),
    ensures
        same3(spec_op_list(a, op_list, html).0, spec_op_list(b, op_list, html).0),
        spec_op_list(a, op_list, html).1 == spec_op_list(b, op_list, html).1,
    decreases a.len(),
{
    lemma_op_progress(a);
    lemma_alike_op(a, b);
    if let (Ok((a1, h, o)), Ok((b1, _, _))) = (spec_op(a), spec_op(b)) {
        lemma_alike_lex(a1, b1);
        if let (Ok((a2, t)), Ok((b2, _))) = (spec_lex(a1), spec_lex(b1)) {
            if t.kind == TokenKind::Semicolon {
                lemma_alike_op_list(a2, b2, op_list.push(o), html + h + "\t\t-semicolon\n"@);
            }
        }
    }
}

/// The parser's results depend on the token stream alone: two sources
/// that lex to the same tokens give the same parse tree or error, the same
/// symbol table and the same operations.
pub proof fn lemma_program_depends_on_tokens(a: Seq<char>, b: Seq<char>, defs: Map<Seq<char>, DefView>, op_list: Seq<OpView>)
    requires
        token_stream(a) == token_stream(b),
    ensures
        spec_program(a, defs, op_list) == spec_program(b, defs, op_list),
{
    let h1 = "<program>\n"@ + "\t-definitions\n"@ + "\t-colon\n\t<defs>\n"@;
    lemma_alike_expect(a, b, TokenKind::Definitions, ErrorKind::DefinitionsExpected);
    if let (Ok(a1), Ok(b1)) = (spec_expect(a, TokenKind::Definitions, ErrorKind::DefinitionsExpected), spec_expect(b, TokenKind::Definitions, ErrorKind::DefinitionsExpected)) {
        lemma_alike_expect(a1, b1, TokenKind::Colon, ErrorKind::ColonAfterDefinitions);
        if let (Ok(a2), Ok(b2)) = (spec_expect(a1, TokenKind::Colon, ErrorKind::ColonAfterDefinitions), spec_expect(b1, TokenKind::Colon, ErrorKind::ColonAfterDefinitions)) {
            lemma_alike_def_list(a2, b2, defs, h1);
            if let (Ok((a3, h3)), Ok((b3, _))) = (spec_defs_section(a2, defs, h1).0, spec_defs_section(b2, defs, h1).0) {
                lemma_alike_expect(a3, b3, TokenKind::Colon, ErrorKind::ColonAfterOperations);
                if let (Ok(a4), Ok(b4)) = (spec_expect(a3, TokenKind::Colon, ErrorKind::ColonAfterOperations), spec_expect(b3, TokenKind::Colon, ErrorKind::ColonAfterOperations)) {
                    let h4 = h3 + "\t-operations\n"@ + "\t-colon\n\t<ops>\n"@;
                    lemma_alike_op_list(a4, b4, op_list, h4);
                    if let (Ok((a5, _)), Ok((b5, _))) = (spec_ops_section(a4, op_list, h4).0, spec_ops_section(b4, op_list, h4).0) {
                        lemma_alike_expect(a5, b5, TokenKind::Period, ErrorKind::PeriodExpected);
                        if let (Ok(a6), Ok(b6)) = (spec_expect(a5, TokenKind::Period, ErrorKind::PeriodExpected), spec_expect(b5, TokenKind::Period, ErrorKind::PeriodExpected)) {
                            lemma_alike_lex(a6, b6);
                        }
                    }
                }
            }
        }
    }
}

proof fn lemma_reads_suffix(s: Seq<char>, ts: Seq<SpecToken>, r: Seq<char>)
    requires
        reads(s, ts, r),
        forall|j: int| 0 <= j < ts.len() ==> (#[trigger] ts[j]).kind != TokenKind::Eof,
    ensures
        r.len() <= s.len(),
        r =~= s.subrange(s.len() - r.len(), s.len() as int),
    decreases ts.len(),
{
    if ts.len() > 0 {
        let (s1, t) = spec_lex(s)->Ok_0;
        assert(ts[0].kind != TokenKind::Eof);
        assert forall|j: int| 0 <= j < ts.drop_first().len() implies (#[trigger] ts.drop_first()[j]).kind != TokenKind::Eof by {
            assert(ts.drop_first()[j] == ts[j + 1]);
        }
        lemma_reads_suffix(s1, ts.drop_first(), r);
        assert(s.subrange(s.len() - r.len(), s.len() as int) =~= s1.subrange(s1.len() - r.len(), s1.len() as int));
    }
}

proof fn lemma_blank_prefix_stream(w: Seq<char>, r: Seq<char>)
    requires
        is_blank(w),
    ensures
        token_stream(w + r) == token_stream(r),
{
    lemma_lex_leading_whitespace(w, r);
}

proof fn lemma_no_eof_tail(ts: Seq<SpecToken>)
    requires
        ts.len() > 0,
        forall|j: int| 0 <= j < ts.len() ==> (#[trigger] ts[j]).kind != TokenKind::Eof,
    ensures
        forall|j: int| 0 <= j < ts.drop_first().len() ==> (#[trigger] ts.drop_first()[j]).kind != TokenKind::Eof,
        ts[0].kind != TokenKind::Eof,
{
    assert forall|j: int| 0 <= j < ts.drop_first().len() implies (#[trigger] ts.drop_first()[j]).kind != TokenKind::Eof by {
        assert(ts.drop_first()[j] == ts[j + 1]);
    }
}

/// The token stream of a source that starts with the tokens `ts`, with `r`
/// left after them, is `ts` followed by the token stream of `r`.
proof fn lemma_reads_stream(s: Seq<char>, ts: Seq<SpecToken>, r: Seq<char>)
    requires
        reads(s, ts, r),
        forall|j: int| 0 <= j < ts.len() ==> (#[trigger] ts[j]).kind != TokenKind::Eof,
    ensures
        token_stream(s) == (ts + token_stream(r).0, token_stream(r).1),
    decreases ts.len(),
{
    if ts.len() == 0 {
        assert(ts + token_stream(r).0 =~= token_stream(r).0);
    } else {
        lemma_no_eof_tail(ts);
        let (s1, t) = spec_lex(s)->Ok_0;
        lemma_reads_stream(s1, ts.drop_first(), r);
        assert(seq![t] + (ts.drop_first() + token_stream(r).0) =~= ts + token_stream(r).0);
    }
}

/// With nonempty whitespace `w` inserted where the tokens `ts` of `x + r`
/// end, the source `x + w + r2` lexes to `ts` followed by the tokens of
/// `r2`, whatever `r2` is.
proof fn lemma_insert_stream(x: Seq<char>, w: Seq<char>, r: Seq<char>, r2: Seq<char>, ts: Seq<SpecToken>)
    requires
        reads(x + r, ts, r),
        forall|j: int| 0 <= j < ts.len() ==> (#[trigger] ts[j]).kind != TokenKind::Eof,
        w.len() > 0,
        is_blank(w),
    ensures
        token_stream(x + w + r2) == (ts + token_stream(r2).0, token_stream(r2).1),
    decreases ts.len(),
{
    if ts.len() == 0 {
        assert(x.len() == 0);
        assert(x + w + r2 =~= w + r2);
        lemma_blank_prefix_stream(w, r2);
        assert(ts + token_stream(r2).0 =~= token_stream(r2).0);
    } else {
        let s = x + r;
        let (s1, t0) = spec_lex(s)->Ok_0;
        lemma_no_eof_tail(ts);
        lemma_reads_suffix(s1, ts.drop_first(), r);
        lemma_scan_insert(x, w, r, r2, 0, Seq::empty(), Scan::Empty);
        let k = x.len() + r.len() - s1.len();
        let x1 = x.subrange(k, x.len() as int);
        assert(s1 =~= x1 + r) by {
            lemma_lex_progress(s);
            assert(s1 =~= s.subrange(s.len() - s1.len(), s.len() as int));
        }
        lemma_insert_stream(x1, w, r, r2, ts.drop_first());
        assert(spec_lex(x + w + r2) == Ok::<(Seq<char>, SpecToken), ParseErrorView>((x1 + w + r2, t0)));
        assert(seq![t0] + (ts.drop_first() + token_stream(r2).0) =~= ts + token_stream(r2).0);
    }
}

/// The chunks joined one after the other.
pub open spec fn concat(xs: Seq<Seq<char>>) -> Seq<char>
    decreases xs.len(),
{
    if xs.len() == 0 {
        Seq::empty()
    } else {
        xs[0] + concat(xs.drop_first())
    }
}

/// The chunks with the whitespace `ws[i]` inserted between chunk `i` and
/// chunk `i + 1`.
pub open spec fn interleave(xs: Seq<Seq<char>>, ws: Seq<Seq<char>>) -> Seq<char>
    decreases xs.len(),
{
    if xs.len() <= 1 {
        concat(xs)
    } else {
        xs[0] + ws[0] + interleave(xs.drop_first(), ws.drop_first())
    }
}

/// No token is the end of the source.
pub open spec fn no_eof(ts: Seq<SpecToken>) -> bool {
    forall|j: int| 0 <= j < ts.len() ==> (#[trigger] ts[j]).kind != TokenKind::Eof
}

/// Lexing `a` reads whole tokens that end exactly where `b` starts.
pub open spec fn whole_tokens(a: Seq<char>, b: Seq<char>) -> bool {
    exists|ts: Seq<SpecToken>| #[trigger] reads(a, ts, b) && no_eof(ts)
}

/// Each chunk but the last is made of whole tokens: lexing from the start
/// of a chunk reads tokens that end exactly where the next chunk starts.
pub open spec fn chunks_of_tokens(xs: Seq<Seq<char>>) -> bool {
    forall|k: int| 0 <= k < xs.len() - 1 ==> #[trigger] whole_tokens(concat(xs.skip(k)), concat(xs.skip(k + 1)))
}

/// Inserting whitespace at any number of points between tokens leaves the
/// token stream unchanged.
pub proof fn lemma_whitespace_keeps_tokens(xs: Seq<Seq<char>>, ws: Seq<Seq<char>>)
    requires
        ws.len() + 1 == xs.len(),
        chunks_of_tokens(xs),
        forall|i: int| 0 <= i < ws.len() ==> (#[trigger] ws[i]).len() > 0 && is_blank(ws[i]),
    ensures
        token_stream(interleave(xs, ws)) == token_stream(concat(xs)),
    decreases xs.len(),
{
    if xs.len() > 1 {
        let tail = xs.drop_first();
        assert(xs.skip(0) =~= xs);
        assert(xs.skip(1) =~= tail);
        assert forall|k: int| 0 <= k < tail.len() - 1 implies #[trigger] whole_tokens(concat(tail.skip(k)), concat(tail.skip(k + 1))) by {
            assert(tail.skip(k) =~= xs.skip(k + 1));
            assert(tail.skip(k + 1) =~= xs.skip(k + 2));
            assert(whole_tokens(concat(xs.skip(k + 1)), concat(xs.skip(k + 2))));
        }
        assert(forall|i: int| 0 <= i < ws.drop_first().len() ==> #[trigger] ws.drop_first()[i] == ws[i + 1]);
        lemma_whitespace_keeps_tokens(tail, ws.drop_first());
        assert(whole_tokens(concat(xs.skip(0)), concat(xs.skip(1))));
        let ts = choose|ts: Seq<SpecToken>| #[trigger] reads(concat(xs.skip(0)), ts, concat(xs.skip(1))) && no_eof(ts);
        assert(ws[0].len() > 0 && is_blank(ws[0]));
        let r1 = concat(tail);
        let r2 = interleave(tail, ws.drop_first());
        lemma_insert_stream(xs[0], ws[0], r1, r2, ts);
        lemma_reads_stream(xs[0] + r1, ts, r1);
    }
}

/// Whitespace inserted at any number of points between tokens changes
/// nothing the parser returns: the same parse tree or error, the same
/// symbol table and the same operations.
pub proof fn lemma_program_whitespace_between_tokens(xs: Seq<Seq<char>>, ws: Seq<Seq<char>>, defs: Map<Seq<char>, DefView>, op_list: Seq<OpView>)
    requires
        ws.len() + 1 == xs.len(),
        chunks_of_tokens(xs),
        forall|i: int| 0 <= i < ws.len() ==> (#[trigger] ws[i]).len() > 0 && is_blank(ws[i]),
    ensures
        spec_program(interleave(xs, ws), defs, op_list) == spec_program(concat(xs), defs, op_list),
{
    lemma_whitespace_keeps_tokens(xs, ws);
    lemma_program_depends_on_tokens(interleave(xs, ws), concat(xs), defs, op_list);
}

} // verus!
