//! What each rule produces, stated over the tokens it reads: the
//! definition or operation holds the lexemes of those tokens, in order,
//! and the tree shows them; and what each operation is rendered as, stated
//! over the definitions it names.

use vstd::prelude::*;
use crate::error::ParseErrorView;
use crate::grammar::{lemma_reads_cons, reads};
use crate::lexer::spec_lex;
use crate::output::{prolog_op, prolog_queries, scheme_op, spec_prolog, spec_scheme, prolog_main, SemanticError};
use crate::parser::{spec_circle_square, spec_contain_inter, spec_def, spec_op, spec_point, spec_print};
use crate::program_model::{DefView, DefinitionType, OpView, OperationType};
use crate::token::{SpecToken, TokenKind};

verus! {

proof fn lemma_reads_five(s: Seq<char>) -> (ts: Seq<SpecToken>)
    requires
        spec_lex(s) is Ok,
        spec_lex(spec_lex(s)->Ok_0.0) is Ok,
        spec_lex(spec_lex(spec_lex(s)->Ok_0.0)->Ok_0.0) is Ok,
        spec_lex(spec_lex(spec_lex(spec_lex(s)->Ok_0.0)->Ok_0.0)->Ok_0.0) is Ok,
        spec_lex(spec_lex(spec_lex(spec_lex(spec_lex(s)->Ok_0.0)->Ok_0.0)->Ok_0.0)->Ok_0.0) is Ok,
    ensures
        ({
            let (c1, t0) = spec_lex(s)->Ok_0;
            let (c2, t1) = spec_lex(c1)->Ok_0;
            let (c3, t2) = spec_lex(c2)->Ok_0;
            let (c4, t3) = spec_lex(c3)->Ok_0;
            let (c5, t4) = spec_lex(c4)->Ok_0;
            &&& reads(s, ts, c5)
            &&& ts == seq![t0, t1, t2, t3, t4]
        }),
{
    let (c1, t0) = spec_lex(s)->Ok_0;
    let (c2, t1) = spec_lex(c1)->Ok_0;
    let (c3, t2) = spec_lex(c2)->Ok_0;
    let (c4, t3) = spec_lex(c3)->Ok_0;
    let (c5, t4) = spec_lex(c4)->Ok_0;
    let e = Seq::<SpecToken>::empty();
    lemma_reads_cons(c4, t4, c5, e, c5);
    let l4 = seq![t4] + e;
    lemma_reads_cons(c3, t3, c4, l4, c5);
    let l3 = seq![t3] + l4;
    lemma_reads_cons(c2, t2, c3, l3, c5);
    let l2 = seq![t2] + l3;
    lemma_reads_cons(c1, t1, c2, l2, c5);
    let l1 = seq![t1] + l2;
    lemma_reads_cons(s, t0, c1, l1, c5);
    let ts = seq![t0] + l1;
    assert(ts =~= seq![t0, t1, t2, t3, t4]);
    ts
}

/// `point(x, y)`: the source after the word `point` is read as the five
/// tokens `( NUM , NUM )`; the point's first coordinate is the lexeme of the
/// first number and its second coordinate that of the second, and the tree
/// shows the two numbers in that order.
pub proof fn lemma_point_meaning(s: Seq<char>)
    requires
        spec_point(s) is Ok,
    ensures
        exists|ts: Seq<SpecToken>| #[trigger] reads(s, ts, spec_point(s)->Ok_0.0) && {
            &&& ts.len() == 5
            &&& ts[0].kind == TokenKind::LParen && ts[1].kind == TokenKind::Num && ts[2].kind == TokenKind::Comma
            &&& ts[3].kind == TokenKind::Num && ts[4].kind == TokenKind::RParen
            &&& spec_point(s)->Ok_0.2 == DefView { def_type: DefinitionType::POINT, param1: ts[1].lexeme, param2: ts[3].lexeme }
            &&& spec_point(s)->Ok_0.1 == "\t\t\t-point\n"@ + "\t\t\t-lparen\n"@ + ("\t\t\t<num>\n\t\t\t\t-"@ + ts[1].lexeme + "\n\t\t\t</num>\n"@)
                + "\t\t\t-comma\n"@ + ("\t\t\t<num>\n\t\t\t\t-"@ + ts[3].lexeme + "\n\t\t\t</num>\n"@) + "\t\t\t-rparen\n"@
        },
{
    reveal(spec_point);
    let ts = lemma_reads_five(s);
    assert(reads(s, ts, spec_point(s)->Ok_0.0));
}

/// `circle(ID, NUM)` or `square(ID, NUM)`: the source after the word is read
/// as the five tokens `( ID , NUM )`; the shape's point is the lexeme of the
/// identifier and its size the whole lexeme of the number, its type is the
/// word that named it (none for another word), and the tree shows the
/// identifier and the number in that order.
pub proof fn lemma_circle_square_meaning(kind: TokenKind, s: Seq<char>)
    requires
        spec_circle_square(kind, s) is Ok,
    ensures
        exists|ts: Seq<SpecToken>| #[trigger] reads(s, ts, spec_circle_square(kind, s)->Ok_0.0) && {
            &&& ts.len() == 5
            &&& ts[0].kind == TokenKind::LParen && ts[1].kind == TokenKind::Id && ts[2].kind == TokenKind::Comma
            &&& ts[3].kind == TokenKind::Num && ts[4].kind == TokenKind::RParen
            &&& spec_circle_square(kind, s)->Ok_0.2 == DefView {
                def_type: if kind == TokenKind::Circle {
                    DefinitionType::CIRCLE
                } else if kind == TokenKind::Square {
                    DefinitionType::SQUARE
                } else {
                    DefinitionType::NONE
                },
                param1: ts[1].lexeme,
                param2: ts[3].lexeme,
            }
            &&& spec_circle_square(kind, s)->Ok_0.1 == (if kind == TokenKind::Circle {
                "\t\t\t-circle\n"@
            } else if kind == TokenKind::Square {
                "\t\t\t-square\n"@
            } else {
                Seq::empty()
            }) + "\t\t\t-lparen\n"@ + ("\t\t\t<id>\n\t\t\t\t-"@ + ts[1].lexeme + "\n\t\t\t</id>\n"@) + "\t\t\t-comma\n"@
                + ("\t\t\t<num>\n\t\t\t\t-"@ + ts[3].lexeme + "\n\t\t\t</num>\n"@) + "\t\t\t-rparen\n"@
        },
{
    reveal(spec_circle_square);
    let ts = lemma_reads_five(s);
    assert(reads(s, ts, spec_circle_square(kind, s)->Ok_0.0));
}

/// `contained(ID, ID)` or `intersects(ID, ID)`: the source after the word is
/// read as the five tokens `( ID , ID )`; the operation names the lexeme
/// of the first identifier first and that of the second identifier second,
/// its kind is the word that named it (undefined for another word), and the
/// tree shows the two identifiers in that order.
pub proof fn lemma_contain_inter_meaning(kind: TokenKind, s: Seq<char>)
    requires
        spec_contain_inter(kind, s) is Ok,
    ensures
        exists|ts: Seq<SpecToken>| #[trigger] reads(s, ts, spec_contain_inter(kind, s)->Ok_0.0) && {
            &&& ts.len() == 5
            &&& ts[0].kind == TokenKind::LParen && ts[1].kind == TokenKind::Id && ts[2].kind == TokenKind::Comma
            &&& ts[3].kind == TokenKind::Id && ts[4].kind == TokenKind::RParen
            &&& spec_contain_inter(kind, s)->Ok_0.2 == OpView {
                op_type: if kind == TokenKind::Contained {
                    OperationType::CONTAINED
                } else if kind == TokenKind::Intersects {
                    OperationType::INTERSECTS
                } else {
                    OperationType::UNDEFINED
                },
                param1: ts[1].lexeme,
                param2: ts[3].lexeme,
            }
            &&& spec_contain_inter(kind, s)->Ok_0.1 == (if kind == TokenKind::Contained {
                "\t\t\t-contained\n"@
            } else if kind == TokenKind::Intersects {
                "\t\t\t-intersects\n"@
            } else {
                Seq::empty()
            }) + "\t\t\t-lparen\n"@ + ("\t\t\t<id>\n\t\t\t\t-"@ + ts[1].lexeme + "\n\t\t\t</id>\n"@) + "\t\t\t-comma\n"@
                + ("\t\t\t<id>\n\t\t\t\t-"@ + ts[3].lexeme + "\n\t\t\t</id>\n"@) + "\t\t\t-rparen\n"@
        },
{
    reveal(spec_contain_inter);
    let ts = lemma_reads_five(s);
    assert(reads(s, ts, spec_contain_inter(kind, s)->Ok_0.0));
}

/// `print(ID)`: the source after the word is read as the three tokens
/// `( ID )`; the operation prints the lexeme of the identifier, and the tree
/// shows it.
pub proof fn lemma_print_meaning(s: Seq<char>)
    requires
        spec_print(s) is Ok,
    ensures
        exists|ts: Seq<SpecToken>| #[trigger] reads(s, ts, spec_print(s)->Ok_0.0) && {
            &&& ts.len() == 3
            &&& ts[0].kind == TokenKind::LParen && ts[1].kind == TokenKind::Id && ts[2].kind == TokenKind::RParen
            &&& spec_print(s)->Ok_0.2 == OpView { op_type: OperationType::PRINT, param1: ts[1].lexeme, param2: Seq::empty() }
            &&& spec_print(s)->Ok_0.1 == "\t\t\t-print\n"@ + "\t\t\t-lparen\n"@ + ("\t\t\t<id>\n\t\t\t\t-"@ + ts[1].lexeme
                + "\n\t\t\t</id>\n"@) + "\t\t\t-rparen\n"@
        },
{
    reveal(spec_print);
    let (c1, t0) = spec_lex(s)->Ok_0;
    let (c2, t1) = spec_lex(c1)->Ok_0;
    let (c3, t2) = spec_lex(c2)->Ok_0;
    let e = Seq::<SpecToken>::empty();
    lemma_reads_cons(c2, t2, c3, e, c3);
    let l2 = seq![t2] + e;
    lemma_reads_cons(c1, t1, c2, l2, c3);
    let l1 = seq![t1] + l2;
    lemma_reads_cons(s, t0, c1, l1, c3);
    let ts = seq![t0] + l1;
    assert(ts =~= seq![t0, t1, t2]);
    assert(reads(s, ts, spec_print(s)->Ok_0.0));
}

/// The identifier `id` names a circle or a square whose point is defined.
pub open spec fn names_placed_shape(defs: Map<Seq<char>, DefView>, id: Seq<char>) -> bool {
    &&& defs.dom().contains(id)
    &&& (defs[id].def_type == DefinitionType::CIRCLE || defs[id].def_type == DefinitionType::SQUARE)
    &&& defs.dom().contains(defs[id].param1)
}

/// `contained(a, b)` and `intersects(a, b)` in Scheme: the operation, the
/// two shapes' types, then each shape written at its own point (the
/// coordinates of the definition its point names) with its own size, the
/// first shape first.
pub proof fn lemma_scheme_pair_meaning(defs: Map<Seq<char>, DefView>, o: OpView)
    requires
        o.op_type == OperationType::CONTAINED || o.op_type == OperationType::INTERSECTS,
        names_placed_shape(defs, o.param1),
        names_placed_shape(defs, o.param2),
    ensures
        ({
            let a = defs[o.param1];
            let b = defs[o.param2];
            let pa = defs[a.param1];
            let pb = defs[b.param1];
            scheme_op(defs, o) == (
                (if o.op_type == OperationType::CONTAINED { "(contained"@ } else { "(intersects"@ })
                    + (if a.def_type == DefinitionType::CIRCLE { "-circle"@ } else { "-square"@ })
                    + (if b.def_type == DefinitionType::CIRCLE { "-circle "@ } else { "-square "@ })
                    + ("(makepoint "@ + pa.param1 + " "@ + pa.param2 + ") "@ + a.param2) + " "@
                    + ("(makepoint "@ + pb.param1 + " "@ + pb.param2 + ") "@ + b.param2) + ")\n"@,
                None::<crate::output::SemanticError>,
            )
        }),
{
}

/// `print(a)` in Scheme: the shape's type, then the shape written at its own
/// point with its own size.
pub proof fn lemma_scheme_print_meaning(defs: Map<Seq<char>, DefView>, o: OpView)
    requires
        o.op_type == OperationType::PRINT,
        names_placed_shape(defs, o.param1),
    ensures
        ({
            let a = defs[o.param1];
            let pa = defs[a.param1];
            scheme_op(defs, o) == (
                "(print"@ + (if a.def_type == DefinitionType::CIRCLE { "-circle "@ } else { "-square "@ })
                    + ("(makepoint "@ + pa.param1 + " "@ + pa.param2 + ") "@ + a.param2) + ")\n"@,
                None::<crate::output::SemanticError>,
            )
        }),
{
}

/// `contained(a, b)` and `intersects(a, b)` in Prolog: each shape written as
/// its type with its own point's coordinates and its own size, the first
/// shape first.
pub proof fn lemma_prolog_pair_meaning(defs: Map<Seq<char>, DefView>, o: OpView)
    requires
        o.op_type == OperationType::CONTAINED || o.op_type == OperationType::INTERSECTS,
        names_placed_shape(defs, o.param1),
        names_placed_shape(defs, o.param2),
    ensures
        ({
            let a = defs[o.param1];
            let b = defs[o.param2];
            let pa = defs[a.param1];
            let pb = defs[b.param1];
            prolog_op(defs, o) == (
                (if o.op_type == OperationType::CONTAINED { "query(contained("@ } else { "query(intersects("@ })
                    + (if a.def_type == DefinitionType::CIRCLE { "circle("@ } else { "square("@ })
                    + ("point2d("@ + pa.param1 + ","@ + pa.param2 + "), "@ + a.param2) + "), "@
                    + (if b.def_type == DefinitionType::CIRCLE { "circle("@ } else { "square("@ })
                    + ("point2d("@ + pb.param1 + ","@ + pb.param2 + "), "@ + b.param2) + "))).\n"@,
                None::<crate::output::SemanticError>,
            )
        }),
{
}

/// `print(a)` in Prolog: the shape written as its type with its own point's
/// coordinates and its own size.
pub proof fn lemma_prolog_print_meaning(defs: Map<Seq<char>, DefView>, o: OpView)
    requires
        o.op_type == OperationType::PRINT,
        names_placed_shape(defs, o.param1),
    ensures
        ({
            let a = defs[o.param1];
            let pa = defs[a.param1];
            prolog_op(defs, o) == (
                "query("@ + (if a.def_type == DefinitionType::CIRCLE { "circle("@ } else { "square("@ })
                    + ("point2d("@ + pa.param1 + ","@ + pa.param2 + "), "@ + a.param2) + ")).\n"@,
                None::<crate::output::SemanticError>,
            )
        }),
{
}

/// Rendering one operation alone gives that operation's text.
pub proof fn lemma_render_single(defs: Map<Seq<char>, DefView>, o: OpView)
    ensures
        spec_scheme(defs, seq![o]) == scheme_op(defs, o),
        prolog_queries(defs, seq![o]) == prolog_op(defs, o),
{
    let s = seq![o];
    assert(s.len() == 1);
    assert(s[0] == o);
    assert(s.drop_first() =~= Seq::<OpView>::empty());
    assert(spec_scheme(defs, s.drop_first()) == (Seq::<char>::empty(), None::<SemanticError>));
    assert(prolog_queries(defs, s.drop_first()) == (Seq::<char>::empty(), None::<SemanticError>));
    assert(scheme_op(defs, o).0 + Seq::<char>::empty() =~= scheme_op(defs, o).0);
    assert(prolog_op(defs, o).0 + Seq::<char>::empty() =~= prolog_op(defs, o).0);
    if scheme_op(defs, o).1 is None {
        assert(spec_scheme(defs, s) == (scheme_op(defs, o).0 + Seq::<char>::empty(), None::<SemanticError>));
    }
    if prolog_op(defs, o).1 is None {
        assert(prolog_queries(defs, s) == (prolog_op(defs, o).0 + Seq::<char>::empty(), None::<SemanticError>));
    }
}

/// Rendering a list of operations whose first part renders gives the first
/// part's text followed by the rest's, with the rest's error, if any: the
/// lines come in the order of the operations.
pub proof fn lemma_render_concat(defs: Map<Seq<char>, DefView>, a: Seq<OpView>, b: Seq<OpView>)
    ensures
        spec_scheme(defs, a).1 is None ==> spec_scheme(defs, a + b) == (spec_scheme(defs, a).0 + spec_scheme(defs, b).0, spec_scheme(defs, b).1),
        prolog_queries(defs, a).1 is None ==> prolog_queries(defs, a + b) == (prolog_queries(defs, a).0 + prolog_queries(defs, b).0, prolog_queries(defs, b).1),
    decreases a.len(),
{
    if a.len() == 0 {
        assert(a + b =~= b);
        assert(Seq::<char>::empty() + spec_scheme(defs, b).0 =~= spec_scheme(defs, b).0);
        assert(Seq::<char>::empty() + prolog_queries(defs, b).0 =~= prolog_queries(defs, b).0);
    } else {
        assert((a + b)[0] == a[0]);
        assert((a + b).drop_first() =~= a.drop_first() + b);
        lemma_render_concat(defs, a.drop_first(), b);
        if spec_scheme(defs, a).1 is None {
            assert(scheme_op(defs, a[0]).0 + (spec_scheme(defs, a.drop_first()).0 + spec_scheme(defs, b).0)
                =~= scheme_op(defs, a[0]).0 + spec_scheme(defs, a.drop_first()).0 + spec_scheme(defs, b).0);
        }
        if prolog_queries(defs, a).1 is None {
            assert(prolog_op(defs, a[0]).0 + (prolog_queries(defs, a.drop_first()).0 + prolog_queries(defs, b).0)
                =~= prolog_op(defs, a[0]).0 + prolog_queries(defs, a.drop_first()).0 + prolog_queries(defs, b).0);
        }
    }
}

/// The Prolog program is the queries followed, when every operation
/// rendered, by the clauses that run them; an error leaves the clauses out.
pub proof fn lemma_prolog_program(defs: Map<Seq<char>, DefView>, ops: Seq<OpView>)
    ensures
        prolog_queries(defs, ops).1 is None ==> spec_prolog(defs, ops) == (prolog_queries(defs, ops).0 + prolog_main(), None::<crate::output::SemanticError>),
        prolog_queries(defs, ops).1 is Some ==> spec_prolog(defs, ops) == prolog_queries(defs, ops),
{
}

proof fn lemma_reads_eight(s: Seq<char>) -> (ts: Seq<SpecToken>)
    requires
        spec_lex(s) is Ok,
        spec_lex(spec_lex(s)->Ok_0.0) is Ok,
        spec_lex(spec_lex(spec_lex(s)->Ok_0.0)->Ok_0.0) is Ok,
        ({
            let c3 = spec_lex(spec_lex(spec_lex(s)->Ok_0.0)->Ok_0.0)->Ok_0.0;
            &&& spec_lex(c3) is Ok
            &&& spec_lex(spec_lex(c3)->Ok_0.0) is Ok
            &&& spec_lex(spec_lex(spec_lex(c3)->Ok_0.0)->Ok_0.0) is Ok
            &&& spec_lex(spec_lex(spec_lex(spec_lex(c3)->Ok_0.0)->Ok_0.0)->Ok_0.0) is Ok
            &&& spec_lex(spec_lex(spec_lex(spec_lex(spec_lex(c3)->Ok_0.0)->Ok_0.0)->Ok_0.0)->Ok_0.0) is Ok
        }),
    ensures
        ({
            let (c1, t0) = spec_lex(s)->Ok_0;
            let (c2, t1) = spec_lex(c1)->Ok_0;
            let (c3, t2) = spec_lex(c2)->Ok_0;
            let (c4, t3) = spec_lex(c3)->Ok_0;
            let (c5, t4) = spec_lex(c4)->Ok_0;
            let (c6, t5) = spec_lex(c5)->Ok_0;
            let (c7, t6) = spec_lex(c6)->Ok_0;
            let (c8, t7) = spec_lex(c7)->Ok_0;
            &&& reads(s, ts, c8)
            &&& ts == seq![t0, t1, t2, t3, t4, t5, t6, t7]
        }),
{
    let (c1, t0) = spec_lex(s)->Ok_0;
    let (c2, t1) = spec_lex(c1)->Ok_0;
    let (c3, t2) = spec_lex(c2)->Ok_0;
    let tail = lemma_reads_five(c3);
    let (c4, t3) = spec_lex(c3)->Ok_0;
    let (c5, t4) = spec_lex(c4)->Ok_0;
    let (c6, t5) = spec_lex(c5)->Ok_0;
    let (c7, t6) = spec_lex(c6)->Ok_0;
    let (c8, t7) = spec_lex(c7)->Ok_0;
    lemma_reads_cons(c2, t2, c3, tail, c8);
    let l2 = seq![t2] + tail;
    lemma_reads_cons(c1, t1, c2, l2, c8);
    let l1 = seq![t1] + l2;
    lemma_reads_cons(s, t0, c1, l1, c8);
    let ts = seq![t0] + l1;
    assert(ts =~= seq![t0, t1, t2, t3, t4, t5, t6, t7]);
    ts
}

/// A definition `ID = point(NUM, NUM)`, `ID = circle(ID, NUM)` or
/// `ID = square(ID, NUM)` is read as those eight tokens: it defines the
/// lexeme of its first identifier, as the shape that the word names, with
/// the lexemes of the tokens inside the parentheses as its two parameters,
/// first to first, and the tree shows each of them in the order read.
pub proof fn lemma_def_meaning(s: Seq<char>)
    requires
        spec_def(s) is Ok,
    ensures
        exists|ts: Seq<SpecToken>| #[trigger] reads(s, ts, spec_def(s)->Ok_0.0) && {
            let (_, tree, id, d) = spec_def(s)->Ok_0;
            let word = ts[2].kind;
            &&& ts.len() == 8
            &&& ts[0].kind == TokenKind::Id && ts[1].kind == TokenKind::Assign && ts[3].kind == TokenKind::LParen
            &&& ts[5].kind == TokenKind::Comma && ts[6].kind == TokenKind::Num && ts[7].kind == TokenKind::RParen
            &&& (word == TokenKind::Point || word == TokenKind::Circle || word == TokenKind::Square)
            &&& ts[4].kind == (if word == TokenKind::Point { TokenKind::Num } else { TokenKind::Id })
            &&& id == ts[0].lexeme
            &&& d == DefView {
                def_type: if word == TokenKind::Point {
                    DefinitionType::POINT
                } else if word == TokenKind::Circle {
                    DefinitionType::CIRCLE
                } else {
                    DefinitionType::SQUARE
                },
                param1: ts[4].lexeme,
                param2: ts[6].lexeme,
            }
            &&& tree == "\t\t<def>\n"@ + ("\t\t\t<id>\n\t\t\t\t-"@ + ts[0].lexeme + "\n\t\t\t</id>\n"@) + "\t\t\t-assign\n"@
                + (if word == TokenKind::Point {
                    "\t\t\t-point\n"@
                } else if word == TokenKind::Circle {
                    "\t\t\t-circle\n"@
                } else {
                    "\t\t\t-square\n"@
                }) + "\t\t\t-lparen\n"@
                + (if word == TokenKind::Point {
                    "\t\t\t<num>\n\t\t\t\t-"@ + ts[4].lexeme + "\n\t\t\t</num>\n"@
                } else {
                    "\t\t\t<id>\n\t\t\t\t-"@ + ts[4].lexeme + "\n\t\t\t</id>\n"@
                }) + "\t\t\t-comma\n"@ + ("\t\t\t<num>\n\t\t\t\t-"@ + ts[6].lexeme + "\n\t\t\t</num>\n"@)
                + "\t\t\t-rparen\n"@ + "\t\t</def>\n"@
        },
{
    reveal(spec_def);
    reveal(spec_point);
    reveal(spec_circle_square);
    let ts = lemma_reads_eight(s);
    assert(reads(s, ts, spec_def(s)->Ok_0.0));
}

/// An operation `print(ID)`, `contained(ID, ID)` or `intersects(ID, ID)` is
/// read as those tokens: it is the operation that the word names, on the
/// lexemes of the identifiers inside the parentheses, first to first (a
/// print has no second), and the tree shows each of them in the order read.
pub proof fn lemma_op_meaning(s: Seq<char>)
    requires
        spec_op(s) is Ok,
    ensures
        exists|ts: Seq<SpecToken>| #[trigger] reads(s, ts, spec_op(s)->Ok_0.0) && {
            let (_, tree, o) = spec_op(s)->Ok_0;
            let word = ts[0].kind;
            &&& ts[1].kind == TokenKind::LParen && ts[2].kind == TokenKind::Id
            &&& if word == TokenKind::Print {
                &&& ts.len() == 4 && ts[3].kind == TokenKind::RParen
                &&& o == OpView { op_type: OperationType::PRINT, param1: ts[2].lexeme, param2: Seq::empty() }
                &&& tree == "\t\t<op>\n"@ + "\t\t\t-print\n"@ + "\t\t\t-lparen\n"@
                    + ("\t\t\t<id>\n\t\t\t\t-"@ + ts[2].lexeme + "\n\t\t\t</id>\n"@) + "\t\t\t-rparen\n"@ + "\t\t</op>\n"@
            } else {
                &&& word == TokenKind::Contained || word == TokenKind::Intersects
                &&& ts.len() == 6 && ts[3].kind == TokenKind::Comma && ts[4].kind == TokenKind::Id
                &&& ts[5].kind == TokenKind::RParen
                &&& o == OpView {
                    op_type: if word == TokenKind::Contained { OperationType::CONTAINED } else { OperationType::INTERSECTS },
                    param1: ts[2].lexeme,
                    param2: ts[4].lexeme,
                }
                &&& tree == "\t\t<op>\n"@ + (if word == TokenKind::Contained {
                    "\t\t\t-contained\n"@
                } else {
                    "\t\t\t-intersects\n"@
                }) + "\t\t\t-lparen\n"@ + ("\t\t\t<id>\n\t\t\t\t-"@ + ts[2].lexeme + "\n\t\t\t</id>\n"@)
                    + "\t\t\t-comma\n"@ + ("\t\t\t<id>\n\t\t\t\t-"@ + ts[4].lexeme + "\n\t\t\t</id>\n"@)
                    + "\t\t\t-rparen\n"@ + "\t\t</op>\n"@
            }
        },
{
    reveal(spec_op);
    reveal(spec_print);
    reveal(spec_contain_inter);
    let (c1, t0) = spec_lex(s)->Ok_0;
    if t0.kind == TokenKind::Print {
        let (c2, t1) = spec_lex(c1)->Ok_0;
        let (c3, t2) = spec_lex(c2)->Ok_0;
        let (c4, t3) = spec_lex(c3)->Ok_0;
        let e = Seq::<SpecToken>::empty();
        lemma_reads_cons(c3, t3, c4, e, c4);
        let l3 = seq![t3] + e;
        lemma_reads_cons(c2, t2, c3, l3, c4);
        let l2 = seq![t2] + l3;
        lemma_reads_cons(c1, t1, c2, l2, c4);
        let l1 = seq![t1] + l2;
        lemma_reads_cons(s, t0, c1, l1, c4);
        let ts = seq![t0] + l1;
        assert(ts =~= seq![t0, t1, t2, t3]);
        assert(reads(s, ts, spec_op(s)->Ok_0.0));
    } else {
        let tail = lemma_reads_five(c1);
        let c6 = spec_contain_inter(t0.kind, c1)->Ok_0.0;
        lemma_reads_cons(s, t0, c1, tail, c6);
        let ts = seq![t0] + tail;
        assert(ts[1] == tail[0] && ts[2] == tail[1] && ts[3] == tail[2] && ts[4] == tail[3] && ts[5] == tail[4]);
        assert(reads(s, ts, spec_op(s)->Ok_0.0));
    }
}

} // verus!
