//! The grammar of the language over tokens, and the law that the parser
//! accepts a source exactly when its leading tokens form a program of the
//! grammar:
//!
//! ```text
//! PROGRAM    --> definitions: DEFS operations: OPERATIONS end.
//! DEFS       --> DEF | DEF; DEFS
//! DEF        --> ID = point(NUM, NUM) | ID = circle(ID, NUM) | ID = square(ID, NUM)
//! OPERATIONS --> OPERATION | OPERATION; OPERATIONS
//! OPERATION  --> print(ID) | contained(ID, ID) | intersects(ID, ID)
//! ```
//!
//! A program takes up the whole source: only whitespace may follow the
//! final period.

use vstd::prelude::*;
use crate::error::ParseErrorView;
use crate::lexer::{is_blank, lemma_lex_eof_iff_blank, spec_lex};
use crate::parser::{lemma_def_progress, lemma_op_progress, spec_circle_square, spec_contain_inter, spec_def, spec_def_list, spec_defs_section, spec_op, spec_op_list, spec_ops_section, spec_point, spec_print, spec_program};
use crate::program_model::{DefView, OpView};
use crate::token::{SpecToken, TokenKind};

verus! {

broadcast use crate::lexer::lemma_lex_progress;

/// Lexing `s` token by token yields exactly the tokens `ts` and leaves `r`.
pub open spec fn reads(s: Seq<char>, ts: Seq<SpecToken>, r: Seq<char>) -> bool
    decreases ts.len(),
{
    if ts.len() == 0 {
        r == s
    } else {
        match spec_lex(s) {
            Ok((s1, t)) => t == ts[0] && reads(s1, ts.drop_first(), r),
            Err(_) => false,
        }
    }
}

/// The kinds of a sequence of tokens.
pub open spec fn kinds(ts: Seq<SpecToken>) -> Seq<TokenKind> {
    ts.map_values(|t: SpecToken| t.kind)
}

/// DEF: `ID = point(NUM, NUM)`, `ID = circle(ID, NUM)` or `ID = square(ID, NUM)`.
pub open spec fn is_def(ks: Seq<TokenKind>) -> bool {
    &&& ks.len() == 8
    &&& ks[0] == TokenKind::Id
    &&& ks[1] == TokenKind::Assign
    &&& ks[3] == TokenKind::LParen
    &&& ks[5] == TokenKind::Comma
    &&& ks[6] == TokenKind::Num
    &&& ks[7] == TokenKind::RParen
    &&& {
        ||| ks[2] == TokenKind::Point && ks[4] == TokenKind::Num
        ||| (ks[2] == TokenKind::Circle || ks[2] == TokenKind::Square) && ks[4] == TokenKind::Id
    }
}

/// DEFS: one or more DEF separated by semicolons.
pub open spec fn is_defs(ks: Seq<TokenKind>) -> bool
    decreases ks.len(),
{
    ||| is_def(ks)
    ||| ks.len() > 9 && is_def(ks.take(8)) && ks[8] == TokenKind::Semicolon && is_defs(ks.skip(9))
}

/// The number of tokens of the OPERATION that starts with `k`.
pub open spec fn op_len(k: TokenKind) -> int {
    if k == TokenKind::Print { 4 } else { 6 }
}

/// OPERATION: `print(ID)`, `contained(ID, ID)` or `intersects(ID, ID)`.
pub open spec fn is_op(ks: Seq<TokenKind>) -> bool {
    ||| {
        &&& ks.len() == 4
        &&& ks[0] == TokenKind::Print
        &&& ks[1] == TokenKind::LParen
        &&& ks[2] == TokenKind::Id
        &&& ks[3] == TokenKind::RParen
    }
    ||| {
        &&& ks.len() == 6
        &&& (ks[0] == TokenKind::Contained || ks[0] == TokenKind::Intersects)
        &&& ks[1] == TokenKind::LParen
        &&& ks[2] == TokenKind::Id
        &&& ks[3] == TokenKind::Comma
        &&& ks[4] == TokenKind::Id
        &&& ks[5] == TokenKind::RParen
    }
}

/// OPERATIONS: one or more OPERATION separated by semicolons.
pub open spec fn is_ops(ks: Seq<TokenKind>) -> bool
    decreases ks.len(),
{
    ||| is_op(ks)
    ||| {
        &&& ks.len() > 0
        &&& op_len(ks[0]) < ks.len()
        &&& is_op(ks.take(op_len(ks[0])))
        &&& ks[op_len(ks[0])] == TokenKind::Semicolon
        &&& is_ops(ks.skip(op_len(ks[0]) + 1))
    }
}

/// PROGRAM: `definitions: DEFS operations: OPERATIONS end.`
pub open spec fn is_program(ks: Seq<TokenKind>) -> bool {
    &&& ks.len() >= 6
    &&& ks[0] == TokenKind::Definitions
    &&& ks[1] == TokenKind::Colon
    &&& ks[ks.len() - 2] == TokenKind::End
    &&& ks[ks.len() - 1] == TokenKind::Period
    &&& exists|i: int|
        #![trigger ks[i]]
        {
            &&& 2 < i && i + 2 < ks.len() - 2
            &&& ks[i] == TokenKind::Operations
            &&& ks[i + 1] == TokenKind::Colon
            &&& is_defs(ks.subrange(2, i))
            &&& is_ops(ks.subrange(i + 2, ks.len() - 2))
        }
}

proof fn lemma_reads_append(s: Seq<char>, a: Seq<SpecToken>, m: Seq<char>, b: Seq<SpecToken>, r: Seq<char>)
    requires
        reads(s, a, m),
        reads(m, b, r),
    ensures
        reads(s, a + b, r),
    decreases a.len(),
{
    if a.len() == 0 {
        assert(a + b =~= b);
    } else {
        let (s1, t) = spec_lex(s)->Ok_0;
        lemma_reads_append(s1, a.drop_first(), m, b, r);
        assert((a + b).drop_first() =~= a.drop_first() + b);
    }
}

proof fn lemma_reads_split(s: Seq<char>, a: Seq<SpecToken>, b: Seq<SpecToken>, r: Seq<char>) -> (m: Seq<char>)
    requires
        reads(s, a + b, r),
    ensures
        reads(s, a, m),
        reads(m, b, r),
    decreases a.len(),
{
    if a.len() == 0 {
        assert(a + b =~= b);
        s
    } else {
        let (s1, t) = spec_lex(s)->Ok_0;
        assert((a + b).drop_first() =~= a.drop_first() + b);
        assert((a + b)[0] == a[0]);
        lemma_reads_split(s1, a.drop_first(), b, r)
    }
}

/// Reading one token and then the tokens `rest` reads them all.
pub proof fn lemma_reads_cons(s: Seq<char>, t: SpecToken, s1: Seq<char>, rest: Seq<SpecToken>, r: Seq<char>)
    requires
        spec_lex(s) == Ok::<(Seq<char>, SpecToken), ParseErrorView>((s1, t)),
        reads(s1, rest, r),
    ensures
        reads(s, seq![t] + rest, r),
{
    assert((seq![t] + rest).drop_first() =~= rest);
}

proof fn lemma_reads_step(s: Seq<char>, ts: Seq<SpecToken>, r: Seq<char>) -> (s1: Seq<char>)
    requires
        reads(s, ts, r),
        ts.len() > 0,
    ensures
        spec_lex(s) == Ok::<(Seq<char>, SpecToken), ParseErrorView>((s1, ts[0])),
        reads(s1, ts.drop_first(), r),
{
    spec_lex(s)->Ok_0.0
}

/// The tokens of a definition that parses.
proof fn lemma_def_sound(s: Seq<char>) -> (ts: Seq<SpecToken>)
    requires
        spec_def(s) is Ok,
    ensures
        reads(s, ts, spec_def(s)->Ok_0.0),
        is_def(kinds(ts)),
{
    reveal(spec_def);
    reveal(spec_point);
    reveal(spec_circle_square);
    let (c1, t0) = spec_lex(s)->Ok_0;
    let (c2, t1) = spec_lex(c1)->Ok_0;
    let (c3, t2) = spec_lex(c2)->Ok_0;
    let (c4, t3) = spec_lex(c3)->Ok_0;
    let (c5, t4) = spec_lex(c4)->Ok_0;
    let (c6, t5) = spec_lex(c5)->Ok_0;
    let (c7, t6) = spec_lex(c6)->Ok_0;
    let (c8, t7) = spec_lex(c7)->Ok_0;
    assert(spec_def(s)->Ok_0.0 == c8);
    let e = Seq::<SpecToken>::empty();
    lemma_reads_cons(c7, t7, c8, e, c8);
    lemma_reads_cons(c6, t6, c7, seq![t7] + e, c8);
    lemma_reads_cons(c5, t5, c6, seq![t6] + (seq![t7] + e), c8);
    let l5 = seq![t5] + (seq![t6] + (seq![t7] + e));
    lemma_reads_cons(c4, t4, c5, l5, c8);
    let l4 = seq![t4] + l5;
    lemma_reads_cons(c3, t3, c4, l4, c8);
    let l3 = seq![t3] + l4;
    lemma_reads_cons(c2, t2, c3, l3, c8);
    let l2 = seq![t2] + l3;
    lemma_reads_cons(c1, t1, c2, l2, c8);
    let l1 = seq![t1] + l2;
    lemma_reads_cons(s, t0, c1, l1, c8);
    let ts = seq![t0] + l1;
    assert(ts =~= seq![t0, t1, t2, t3, t4, t5, t6, t7]);
    ts
}

/// A definition parses when the source starts with its tokens.
proof fn lemma_def_complete(s: Seq<char>, ts: Seq<SpecToken>, r: Seq<char>)
    requires
        reads(s, ts, r),
        is_def(kinds(ts)),
    ensures
        spec_def(s) is Ok,
        spec_def(s)->Ok_0.0 == r,
{
    reveal(spec_def);
    reveal(spec_point);
    reveal(spec_circle_square);
    let l0 = ts;
    let c1 = lemma_reads_step(s, l0, r);
    let l1 = l0.drop_first();
    let c2 = lemma_reads_step(c1, l1, r);
    let l2 = l1.drop_first();
    let c3 = lemma_reads_step(c2, l2, r);
    let l3 = l2.drop_first();
    let c4 = lemma_reads_step(c3, l3, r);
    let l4 = l3.drop_first();
    let c5 = lemma_reads_step(c4, l4, r);
    let l5 = l4.drop_first();
    let c6 = lemma_reads_step(c5, l5, r);
    let l6 = l5.drop_first();
    let c7 = lemma_reads_step(c6, l6, r);
    let l7 = l6.drop_first();
    let c8 = lemma_reads_step(c7, l7, r);
    assert(l7.drop_first().len() == 0);
    assert(c8 == r);
    let ks = kinds(ts);
    assert(ks[0] == ts[0].kind && ks[1] == ts[1].kind && ks[2] == ts[2].kind && ks[3] == ts[3].kind);
    assert(ks[4] == ts[4].kind && ks[5] == ts[5].kind && ks[6] == ts[6].kind && ks[7] == ts[7].kind);
    assert(l1[0] == ts[1] && l2[0] == ts[2] && l3[0] == ts[3] && l4[0] == ts[4]);
    assert(l5[0] == ts[5] && l6[0] == ts[6] && l7[0] == ts[7]);
}

/// The tokens of an operation that parses.
proof fn lemma_op_sound(s: Seq<char>) -> (ts: Seq<SpecToken>)
    requires
        spec_op(s) is Ok,
    ensures
        reads(s, ts, spec_op(s)->Ok_0.0),
        is_op(kinds(ts)),
{
    reveal(spec_op);
    reveal(spec_print);
    reveal(spec_contain_inter);
    let e = Seq::<SpecToken>::empty();
    let (c1, t0) = spec_lex(s)->Ok_0;
    let (c2, t1) = spec_lex(c1)->Ok_0;
    let (c3, t2) = spec_lex(c2)->Ok_0;
    let (c4, t3) = spec_lex(c3)->Ok_0;
    if t0.kind == TokenKind::Print {
        assert(spec_op(s)->Ok_0.0 == c4);
        lemma_reads_cons(c3, t3, c4, e, c4);
        let l3 = seq![t3] + e;
        lemma_reads_cons(c2, t2, c3, l3, c4);
        let l2 = seq![t2] + l3;
        lemma_reads_cons(c1, t1, c2, l2, c4);
        let l1 = seq![t1] + l2;
        lemma_reads_cons(s, t0, c1, l1, c4);
        let ts = seq![t0] + l1;
        assert(ts =~= seq![t0, t1, t2, t3]);
        ts
    } else {
        let (c5, t4) = spec_lex(c4)->Ok_0;
        let (c6, t5) = spec_lex(c5)->Ok_0;
        assert(spec_op(s)->Ok_0.0 == c6);
        lemma_reads_cons(c5, t5, c6, e, c6);
        let l5 = seq![t5] + e;
        lemma_reads_cons(c4, t4, c5, l5, c6);
        let l4 = seq![t4] + l5;
        lemma_reads_cons(c3, t3, c4, l4, c6);
        let l3 = seq![t3] + l4;
        lemma_reads_cons(c2, t2, c3, l3, c6);
        let l2 = seq![t2] + l3;
        lemma_reads_cons(c1, t1, c2, l2, c6);
        let l1 = seq![t1] + l2;
        lemma_reads_cons(s, t0, c1, l1, c6);
        let ts = seq![t0] + l1;
        assert(ts =~= seq![t0, t1, t2, t3, t4, t5]);
        ts
    }
}

/// An operation parses when the source starts with its tokens.
proof fn lemma_op_complete(s: Seq<char>, ts: Seq<SpecToken>, r: Seq<char>)
    requires
        reads(s, ts, r),
        is_op(kinds(ts)),
    ensures
        spec_op(s) is Ok,
        spec_op(s)->Ok_0.0 == r,
{
    reveal(spec_op);
    reveal(spec_print);
    reveal(spec_contain_inter);
    let ks = kinds(ts);
    let l0 = ts;
    let c1 = lemma_reads_step(s, l0, r);
    let l1 = l0.drop_first();
    let c2 = lemma_reads_step(c1, l1, r);
    let l2 = l1.drop_first();
    let c3 = lemma_reads_step(c2, l2, r);
    let l3 = l2.drop_first();
    let c4 = lemma_reads_step(c3, l3, r);
    let l4 = l3.drop_first();
    assert(ks[0] == ts[0].kind && ks[1] == ts[1].kind && ks[2] == ts[2].kind && ks[3] == ts[3].kind);
    assert(l1[0] == ts[1] && l2[0] == ts[2] && l3[0] == ts[3]);
    if ts.len() == 4 {
        assert(l4.len() == 0);
        assert(c4 == r);
    } else {
        let c5 = lemma_reads_step(c4, l4, r);
        let l5 = l4.drop_first();
        let c6 = lemma_reads_step(c5, l5, r);
        assert(l5.drop_first().len() == 0);
        assert(c6 == r);
        assert(ks[4] == ts[4].kind && ks[5] == ts[5].kind);
        assert(l4[0] == ts[4] && l5[0] == ts[5]);
    }
}

proof fn lemma_def_list_sound(s: Seq<char>, defs: Map<Seq<char>, DefView>, html: Seq<char>) -> (ts: Seq<SpecToken>)
    requires
        spec_def_list(s, defs, html).0 is Ok,
    ensures
        reads(s, ts, spec_def_list(s, defs, html).0->Ok_0.0),
        ts.len() >= 1,
        ts.last() == spec_def_list(s, defs, html).0->Ok_0.2,
        ts.last().kind != TokenKind::Semicolon,
        is_defs(kinds(ts.drop_last())),
    decreases s.len(),
{
    lemma_def_progress(s);
    let (c1, h, id, d) = spec_def(s)->Ok_0;
    let dts = lemma_def_sound(s);
    let (c2, t) = spec_lex(c1)->Ok_0;
    let e = Seq::<SpecToken>::empty();
    if t.kind == TokenKind::Semicolon {
        let defs1 = defs.insert(id, d);
        let html1 = html + h + "\t\t-semicolon\n"@;
        let r = spec_def_list(c2, defs1, html1).0->Ok_0.0;
        let rest = lemma_def_list_sound(c2, defs1, html1);
        lemma_reads_cons(c1, t, c2, rest, r);
        lemma_reads_append(s, dts, c1, seq![t] + rest, r);
        let ts = dts + (seq![t] + rest);
        let ks = kinds(ts.drop_last());
        assert(ks.take(8) =~= kinds(dts));
        assert(ks.skip(9) =~= kinds(rest.drop_last()));
        assert(ks[8] == t.kind);
        ts
    } else {
        lemma_reads_cons(c1, t, c2, e, c2);
        assert(seq![t] + e =~= seq![t]);
        lemma_reads_append(s, dts, c1, seq![t], c2);
        let ts = dts + seq![t];
        assert(ts.drop_last() =~= dts);
        ts
    }
}

proof fn lemma_def_list_complete(s: Seq<char>, ts: Seq<SpecToken>, r: Seq<char>, defs: Map<Seq<char>, DefView>, html: Seq<char>)
    requires
        reads(s, ts, r),
        ts.len() >= 1,
        ts.last().kind != TokenKind::Semicolon,
        is_defs(kinds(ts.drop_last())),
    ensures
        spec_def_list(s, defs, html).0 is Ok,
        spec_def_list(s, defs, html).0->Ok_0.0 == r,
        spec_def_list(s, defs, html).0->Ok_0.2 == ts.last(),
    decreases ts.len(),
{
    let ks = kinds(ts.drop_last());
    lemma_def_progress(s);
    assert(ts =~= ts.take(8) + ts.skip(8));
    let m = lemma_reads_split(s, ts.take(8), ts.skip(8), r);
    assert(kinds(ts.take(8)) =~= ks.take(8));
    if ks.len() == 8 {
        assert(ks.take(8) =~= ks);
    }
    lemma_def_complete(s, ts.take(8), m);
    let m2 = lemma_reads_step(m, ts.skip(8), r);
    assert(ts.skip(8)[0] == ts[8]);
    let (c1, h, id, d) = spec_def(s)->Ok_0;
    if ks.len() == 8 {
        assert(ts.skip(8).drop_first().len() == 0);
        assert(ts[8] == ts.last());
    } else {
        assert(ks[8] == ts[8].kind);
        assert(ts.skip(8).drop_first() =~= ts.skip(9));
        assert(kinds(ts.skip(9).drop_last()) =~= ks.skip(9));
        assert(ts.skip(9).last() == ts.last());
        lemma_def_list_complete(m2, ts.skip(9), r, defs.insert(id, d), html + h + "\t\t-semicolon\n"@);
    }
}

proof fn lemma_op_list_sound(s: Seq<char>, op_list: Seq<OpView>, html: Seq<char>) -> (ts: Seq<SpecToken>)
    requires
        spec_op_list(s, op_list, html).0 is Ok,
    ensures
        reads(s, ts, spec_op_list(s, op_list, html).0->Ok_0.0),
        ts.len() >= 1,
        ts.last() == spec_op_list(s, op_list, html).0->Ok_0.2,
        ts.last().kind != TokenKind::Semicolon,
        is_ops(kinds(ts.drop_last())),
    decreases s.len(),
{
    lemma_op_progress(s);
    let (c1, h, o) = spec_op(s)->Ok_0;
    let ots = lemma_op_sound(s);
    let (c2, t) = spec_lex(c1)->Ok_0;
    let e = Seq::<SpecToken>::empty();
    let n = ots.len() as int;
    assert(kinds(ots)[0] == ots[0].kind);
    if t.kind == TokenKind::Semicolon {
        let ops1 = op_list.push(o);
        let html1 = html + h + "\t\t-semicolon\n"@;
        let r = spec_op_list(c2, ops1, html1).0->Ok_0.0;
        let rest = lemma_op_list_sound(c2, ops1, html1);
        lemma_reads_cons(c1, t, c2, rest, r);
        lemma_reads_append(s, ots, c1, seq![t] + rest, r);
        let ts = ots + (seq![t] + rest);
        let ks = kinds(ts.drop_last());
        assert(ks[0] == kinds(ots)[0]);
        assert(op_len(ks[0]) == n);
        assert(ks.take(n) =~= kinds(ots));
        assert(ks.skip(n + 1) =~= kinds(rest.drop_last()));
        assert(ks[n] == t.kind);
        ts
    } else {
        lemma_reads_cons(c1, t, c2, e, c2);
        assert(seq![t] + e =~= seq![t]);
        lemma_reads_append(s, ots, c1, seq![t], c2);
        let ts = ots + seq![t];
        assert(ts.drop_last() =~= ots);
        ts
    }
}

proof fn lemma_op_list_complete(s: Seq<char>, ts: Seq<SpecToken>, r: Seq<char>, op_list: Seq<OpView>, html: Seq<char>)
    requires
        reads(s, ts, r),
        ts.len() >= 1,
        ts.last().kind != TokenKind::Semicolon,
        is_ops(kinds(ts.drop_last())),
    ensures
        spec_op_list(s, op_list, html).0 is Ok,
        spec_op_list(s, op_list, html).0->Ok_0.0 == r,
        spec_op_list(s, op_list, html).0->Ok_0.2 == ts.last(),
    decreases ts.len(),
{
    let ks = kinds(ts.drop_last());
    lemma_op_progress(s);
    let n = op_len(ks[0]);
    assert(n == 4 || n == 6);
    if is_op(ks) {
        assert(ks.len() == n);
    }
    assert(ts =~= ts.take(n) + ts.skip(n));
    let m = lemma_reads_split(s, ts.take(n), ts.skip(n), r);
    assert(kinds(ts.take(n)) =~= ks.take(n));
    if is_op(ks) {
        assert(ks.take(n) =~= ks);
    }
    lemma_op_complete(s, ts.take(n), m);
    let m2 = lemma_reads_step(m, ts.skip(n), r);
    assert(ts.skip(n)[0] == ts[n]);
    let (c1, h, o) = spec_op(s)->Ok_0;
    if is_op(ks) {
        assert(ts.skip(n).drop_first().len() == 0);
        assert(ts[n] == ts.last());
    } else {
        assert(ks[n] == ts[n].kind);
        assert(ts.skip(n).drop_first() =~= ts.skip(n + 1));
        assert(kinds(ts.skip(n + 1).drop_last()) =~= ks.skip(n + 1));
        assert(ts.skip(n + 1).last() == ts.last());
        lemma_op_list_complete(m2, ts.skip(n + 1), r, op_list.push(o), html + h + "\t\t-semicolon\n"@);
    }
}

proof fn lemma_defs_start(ks: Seq<TokenKind>)
    requires
        is_defs(ks),
    ensures
        ks.len() >= 8,
        ks[0] == TokenKind::Id,
{
    if !is_def(ks) {
        assert(ks.take(8)[0] == ks[0]);
    }
}

proof fn lemma_ops_start(ks: Seq<TokenKind>)
    requires
        is_ops(ks),
    ensures
        ks.len() >= 4,
        ks[0] == TokenKind::Print || ks[0] == TokenKind::Contained || ks[0] == TokenKind::Intersects,
{
    if !is_op(ks) {
        assert(ks.take(op_len(ks[0]))[0] == ks[0]);
    }
}

proof fn lemma_defs_section_sound(s: Seq<char>, defs: Map<Seq<char>, DefView>, html: Seq<char>) -> (ts: Seq<SpecToken>)
    requires
        spec_defs_section(s, defs, html).0 is Ok,
    ensures
        reads(s, ts, spec_defs_section(s, defs, html).0->Ok_0.0),
        ts.len() >= 1,
        ts.last().kind == TokenKind::Operations,
        is_defs(kinds(ts.drop_last())),
{
    lemma_def_list_sound(s, defs, html)
}

proof fn lemma_defs_section_complete(s: Seq<char>, ts: Seq<SpecToken>, r: Seq<char>, defs: Map<Seq<char>, DefView>, html: Seq<char>)
    requires
        reads(s, ts, r),
        ts.len() >= 1,
        ts.last().kind == TokenKind::Operations,
        is_defs(kinds(ts.drop_last())),
    ensures
        spec_defs_section(s, defs, html).0 is Ok,
        spec_defs_section(s, defs, html).0->Ok_0.0 == r,
{
    lemma_def_list_complete(s, ts, r, defs, html);
}

proof fn lemma_ops_section_sound(s: Seq<char>, op_list: Seq<OpView>, html: Seq<char>) -> (ts: Seq<SpecToken>)
    requires
        spec_ops_section(s, op_list, html).0 is Ok,
    ensures
        reads(s, ts, spec_ops_section(s, op_list, html).0->Ok_0.0),
        ts.len() >= 1,
        ts.last().kind == TokenKind::End,
        is_ops(kinds(ts.drop_last())),
{
    lemma_op_list_sound(s, op_list, html)
}

proof fn lemma_ops_section_complete(s: Seq<char>, ts: Seq<SpecToken>, r: Seq<char>, op_list: Seq<OpView>, html: Seq<char>)
    requires
        reads(s, ts, r),
        ts.len() >= 1,
        ts.last().kind == TokenKind::End,
        is_ops(kinds(ts.drop_last())),
    ensures
        spec_ops_section(s, op_list, html).0 is Ok,
        spec_ops_section(s, op_list, html).0->Ok_0.0 == r,
{
    lemma_op_list_complete(s, ts, r, op_list, html);
}

proof fn lemma_program_sound(s: Seq<char>, defs: Map<Seq<char>, DefView>, op_list: Seq<OpView>) -> (res: (Seq<SpecToken>, Seq<char>))
    requires
        spec_program(s, defs, op_list).0 is Ok,
    ensures
        reads(s, res.0, res.1),
        is_program(kinds(res.0)),
        is_blank(res.1),
{
    let e = Seq::<SpecToken>::empty();
    let h1 = "<program>\n"@ + "\t-definitions\n"@ + "\t-colon\n\t<defs>\n"@;
    let (c1, t0) = spec_lex(s)->Ok_0;
    let (c2, t1) = spec_lex(c1)->Ok_0;
    let (r1, defs2) = spec_defs_section(c2, defs, h1);
    let (c3, h3) = r1->Ok_0;
    let sec1 = lemma_defs_section_sound(c2, defs, h1);
    let (c4, t2) = spec_lex(c3)->Ok_0;
    let h4 = h3 + "\t-operations\n"@ + "\t-colon\n\t<ops>\n"@;
    let (r2, ops2) = spec_ops_section(c4, op_list, h4);
    let (c5, h5) = r2->Ok_0;
    let sec2 = lemma_ops_section_sound(c4, op_list, h4);
    let (c6, t3) = spec_lex(c5)->Ok_0;
    lemma_lex_eof_iff_blank(c6);
    lemma_defs_start(kinds(sec1.drop_last()));
    lemma_ops_start(kinds(sec2.drop_last()));
    // the period, the operations section and the colon before it
    lemma_reads_cons(c5, t3, c6, e, c6);
    let p5 = seq![t3] + e;
    lemma_reads_append(c4, sec2, c5, p5, c6);
    let p4 = sec2 + p5;
    lemma_reads_cons(c3, t2, c4, p4, c6);
    let p3 = seq![t2] + p4;
    lemma_reads_append(c2, sec1, c3, p3, c6);
    let p2 = sec1 + p3;
    lemma_reads_cons(c1, t1, c2, p2, c6);
    let p1 = seq![t1] + p2;
    lemma_reads_cons(s, t0, c1, p1, c6);
    let ts = seq![t0] + p1;
    let ks = kinds(ts);
    let i = 1 + sec1.len() as int;
    assert(ts =~= seq![t0, t1] + sec1 + seq![t2] + sec2 + seq![t3]);
    assert(ks[0] == t0.kind && ks[1] == t1.kind);
    assert(ks[i] == sec1.last().kind);
    assert(ks[i + 1] == t2.kind);
    assert(ks[ks.len() - 1] == t3.kind);
    assert(ks[ks.len() - 2] == sec2.last().kind);
    assert(ks.subrange(2, i) =~= kinds(sec1.drop_last()));
    assert(ks.subrange(i + 2, ks.len() - 2) =~= kinds(sec2.drop_last()));
    (ts, c6)
}

proof fn lemma_program_complete(s: Seq<char>, ts: Seq<SpecToken>, r: Seq<char>, defs: Map<Seq<char>, DefView>, op_list: Seq<OpView>)
    requires
        reads(s, ts, r),
        is_program(kinds(ts)),
        is_blank(r),
    ensures
        spec_program(s, defs, op_list).0 is Ok,
{
    let ks = kinds(ts);
    let n = ts.len() as int;
    let i = choose|i: int|
        #![trigger ks[i]]
        {
            &&& 2 < i && i + 2 < ks.len() - 2
            &&& ks[i] == TokenKind::Operations
            &&& ks[i + 1] == TokenKind::Colon
            &&& is_defs(ks.subrange(2, i))
            &&& is_ops(ks.subrange(i + 2, ks.len() - 2))
        };
    let a = ts.subrange(0, 2);
    let b = ts.subrange(2, i + 1);
    let c = ts.subrange(i + 1, i + 2);
    let d = ts.subrange(i + 2, n - 1);
    let f = ts.subrange(n - 1, n);
    assert(ts =~= a + (b + (c + (d + f))));
    let m1 = lemma_reads_split(s, a, b + (c + (d + f)), r);
    let m2 = lemma_reads_split(m1, b, c + (d + f), r);
    let m3 = lemma_reads_split(m2, c, d + f, r);
    let m4 = lemma_reads_split(m3, d, f, r);
    // definitions :
    let x = lemma_reads_step(s, a, m1);
    let y = lemma_reads_step(x, a.drop_first(), m1);
    assert(a.drop_first().drop_first().len() == 0);
    assert(a[0] == ts[0] && a.drop_first()[0] == ts[1]);
    assert(ks[0] == ts[0].kind && ks[1] == ts[1].kind);
    // the definitions section
    assert(b.last() == ts[i]);
    assert(ks[i] == ts[i].kind);
    assert(kinds(b.drop_last()) =~= ks.subrange(2, i));
    let h1 = "<program>\n"@ + "\t-definitions\n"@ + "\t-colon\n\t<defs>\n"@;
    lemma_defs_section_complete(m1, b, m2, defs, h1);
    let (r1, defs2) = spec_defs_section(m1, defs, h1);
    let (c3, h3) = r1->Ok_0;
    // the colon
    let z = lemma_reads_step(m2, c, m3);
    assert(c.drop_first().len() == 0);
    assert(c[0] == ts[i + 1]);
    assert(ks[i + 1] == ts[i + 1].kind);
    // the operations section
    assert(d.last() == ts[n - 2]);
    assert(ks[n - 2] == ts[n - 2].kind);
    assert(kinds(d.drop_last()) =~= ks.subrange(i + 2, ks.len() - 2));
    let h4 = h3 + "\t-operations\n"@ + "\t-colon\n\t<ops>\n"@;
    lemma_ops_section_complete(m3, d, m4, op_list, h4);
    // the period
    let w = lemma_reads_step(m4, f, r);
    assert(f[0] == ts[n - 1]);
    assert(ks[n - 1] == ts[n - 1].kind);
    assert(f.drop_first().len() == 0);
    lemma_lex_eof_iff_blank(r);
}

/// The parser accepts a source exactly when the source is the tokens of a
/// program of the grammar, followed by nothing but whitespace.
pub proof fn lemma_program_accepts_grammar(s: Seq<char>, defs: Map<Seq<char>, DefView>, op_list: Seq<OpView>)
    ensures
        (spec_program(s, defs, op_list).0 is Ok) <==> (exists|ts: Seq<SpecToken>, r: Seq<char>|
            #[trigger] reads(s, ts, r) && is_program(kinds(ts)) && is_blank(r)),
{
    if spec_program(s, defs, op_list).0 is Ok {
        let (ts, r) = lemma_program_sound(s, defs, op_list);
        assert(reads(s, ts, r) && is_program(kinds(ts)) && is_blank(r));
    }
    if exists|ts: Seq<SpecToken>, r: Seq<char>| #[trigger] reads(s, ts, r) && is_program(kinds(ts)) && is_blank(r) {
        let (ts, r) = choose|ts: Seq<SpecToken>, r: Seq<char>| #[trigger] reads(s, ts, r) && is_program(kinds(ts)) && is_blank(r);
        lemma_program_complete(s, ts, r, defs, op_list);
    }
}

} // verus!
