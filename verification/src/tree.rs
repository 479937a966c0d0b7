//! The shape of the parse tree of a program: the definition trees joined
//! by semicolon lines, and the operation trees likewise, between the
//! fixed opening and closing lines.

use vstd::prelude::*;
use crate::error::ErrorKind;
use crate::error::ParseErrorView;
use crate::lexer::{is_blank, is_symbol_kind, lemma_lex_eof_iff_blank, lemma_lex_extend, lemma_lex_leading_whitespace, lemma_lex_progress, lemma_literal_lexing, spec_lex};
use crate::token::SpecToken;
use crate::parser::{
    def_head, lemma_def_progress, lemma_op_progress, spec_def, spec_def_list, spec_defs_section,
    spec_circle_square, spec_contain_inter, spec_expect, spec_op, spec_op_list, spec_point, spec_print, spec_program, starts_with,
};
use crate::program_model::{DefView, OpView};
use crate::token::TokenKind;

verus! {

broadcast use lemma_lex_progress;

/// The parts joined by the separator `sep`.
pub open spec fn join(parts: Seq<Seq<char>>, sep: Seq<char>) -> Seq<char>
    decreases parts.len(),
{
    if parts.len() == 0 {
        Seq::empty()
    } else if parts.len() == 1 {
        parts[0]
    } else {
        parts[0] + sep + join(parts.drop_first(), sep)
    }
}

/// `suf` is a suffix of `s`.
pub open spec fn ends_with(s: Seq<char>, suf: Seq<char>) -> bool {
    suf.len() <= s.len() && s.subrange(s.len() - suf.len(), s.len() as int) =~= suf
}

/// The line that separates two items of a list in the tree.
pub open spec fn semicolon_line() -> Seq<char> {
    "\t\t-semicolon\n"@
}

/// A `<def>` element.
pub open spec fn is_def_tree(t: Seq<char>) -> bool {
    starts_with(t, "\t\t<def>\n"@) && ends_with(t, "\t\t</def>\n"@)
}

/// An `<op>` element.
pub open spec fn is_op_tree(t: Seq<char>) -> bool {
    starts_with(t, "\t\t<op>\n"@) && ends_with(t, "\t\t</op>\n"@)
}

/// The trees of the definitions of the list that starts at `code`, in order.
pub open spec fn def_trees(code: Seq<char>) -> Seq<Seq<char>>
    decreases code.len(),
{
    match spec_def(code) {
        Err(_) => Seq::empty(),
        Ok((c1, h, _, _)) => match spec_lex(c1) {
            Ok((c2, t)) => if t.kind == TokenKind::Semicolon {
                proof {
                    lemma_def_progress(code);
                }
                seq![h] + def_trees(c2)
            } else {
                seq![h]
            },
            Err(_) => seq![h],
        },
    }
}

/// The trees of the operations of the list that starts at `code`, in order.
pub open spec fn op_trees(code: Seq<char>) -> Seq<Seq<char>>
    decreases code.len(),
{
    match spec_op(code) {
        Err(_) => Seq::empty(),
        Ok((c1, h, _)) => match spec_lex(c1) {
            Ok((c2, t)) => if t.kind == TokenKind::Semicolon {
                proof {
                    lemma_op_progress(code);
                }
                seq![h] + op_trees(c2)
            } else {
                seq![h]
            },
            Err(_) => seq![h],
        },
    }
}

proof fn lemma_bracketed(t: Seq<char>, open: Seq<char>, mid: Seq<char>, close: Seq<char>)
    requires
        t =~= open + mid + close,
    ensures
        starts_with(t, open),
        ends_with(t, close),
{
    assert(t.subrange(0, open.len() as int) =~= open);
    assert(t.subrange(t.len() - close.len(), t.len() as int) =~= close);
}

proof fn lemma_def_tree(code: Seq<char>)
    ensures
        spec_def(code) matches Ok((_, h, _, _)) ==> is_def_tree(h),
{
    reveal(spec_def);
    if let Ok((_, h, id, _)) = spec_def(code) {
        let rest = h.subrange("\t\t<def>\n"@.len() as int, h.len() - "\t\t</def>\n"@.len());
        assert(def_head(id) =~= "\t\t<def>\n"@ + (def_head(id).subrange("\t\t<def>\n"@.len() as int, def_head(id).len() as int)));
        lemma_bracketed(h, "\t\t<def>\n"@, rest, "\t\t</def>\n"@);
    }
}

proof fn lemma_op_tree(code: Seq<char>)
    ensures
        spec_op(code) matches Ok((_, h, _)) ==> is_op_tree(h),
{
    reveal(spec_op);
    if let Ok((_, h, _)) = spec_op(code) {
        let rest = h.subrange("\t\t<op>\n"@.len() as int, h.len() - "\t\t</op>\n"@.len());
        lemma_bracketed(h, "\t\t<op>\n"@, rest, "\t\t</op>\n"@);
    }
}

proof fn lemma_join_cons(h: Seq<char>, rest: Seq<Seq<char>>, sep: Seq<char>)
    requires
        rest.len() >= 1,
    ensures
        join(seq![h] + rest, sep) == h + sep + join(rest, sep),
{
    assert((seq![h] + rest).drop_first() =~= rest);
}

proof fn lemma_def_list_tree(code: Seq<char>, defs: Map<Seq<char>, DefView>, html: Seq<char>)
    ensures
        spec_def_list(code, defs, html).0 matches Ok((_, h, _)) ==> {
            &&& def_trees(code).len() >= 1
            &&& h =~= html + join(def_trees(code), semicolon_line())
            &&& forall|i: int| 0 <= i < def_trees(code).len() ==> is_def_tree(#[trigger] def_trees(code)[i])
        },
    decreases code.len(),
{
    lemma_def_progress(code);
    lemma_def_tree(code);
    if let Ok((c1, h0, id, d)) = spec_def(code) {
        if let Ok((c2, t)) = spec_lex(c1) {
            if t.kind == TokenKind::Semicolon {
                let html1 = html + h0 + semicolon_line();
                lemma_def_list_tree(c2, defs.insert(id, d), html1);
                if spec_def_list(c2, defs.insert(id, d), html1).0 is Ok {
                    let rest = def_trees(c2);
                    lemma_join_cons(h0, rest, semicolon_line());
                    assert(def_trees(code) == seq![h0] + rest);
                    assert forall|i: int| 0 <= i < def_trees(code).len() implies is_def_tree(#[trigger] def_trees(code)[i]) by {
                        if i > 0 {
                            assert(def_trees(code)[i] == rest[i - 1]);
                        }
                    }
                }
            } else {
                assert(def_trees(code) == seq![h0]);
            }
        }
    }
}

proof fn lemma_op_list_tree(code: Seq<char>, op_list: Seq<OpView>, html: Seq<char>)
    ensures
        spec_op_list(code, op_list, html).0 matches Ok((_, h, _)) ==> {
            &&& op_trees(code).len() >= 1
            &&& h =~= html + join(op_trees(code), semicolon_line())
            &&& forall|i: int| 0 <= i < op_trees(code).len() ==> is_op_tree(#[trigger] op_trees(code)[i])
        },
    decreases code.len(),
{
    lemma_op_progress(code);
    lemma_op_tree(code);
    if let Ok((c1, h0, o)) = spec_op(code) {
        if let Ok((c2, t)) = spec_lex(c1) {
            if t.kind == TokenKind::Semicolon {
                let html1 = html + h0 + semicolon_line();
                lemma_op_list_tree(c2, op_list.push(o), html1);
                if spec_op_list(c2, op_list.push(o), html1).0 is Ok {
                    let rest = op_trees(c2);
                    lemma_join_cons(h0, rest, semicolon_line());
                    assert(op_trees(code) == seq![h0] + rest);
                    assert forall|i: int| 0 <= i < op_trees(code).len() implies is_op_tree(#[trigger] op_trees(code)[i]) by {
                        if i > 0 {
                            assert(op_trees(code)[i] == rest[i - 1]);
                        }
                    }
                }
            } else {
                assert(op_trees(code) == seq![h0]);
            }
        }
    }
}

/// The source of the definitions of a program: what follows `definitions :`.
pub open spec fn defs_source(code: Seq<char>) -> Seq<char> {
    spec_expect(spec_expect(code, TokenKind::Definitions, ErrorKind::DefinitionsExpected)->Ok_0, TokenKind::Colon, ErrorKind::ColonAfterDefinitions)->Ok_0
}

/// The opening lines of a program's tree, up to `<defs>`.
pub open spec fn tree_head() -> Seq<char> {
    "<program>\n"@ + "\t-definitions\n"@ + "\t-colon\n\t<defs>\n"@
}

/// The source of the operations of a program: what follows `operations :`.
pub open spec fn ops_source(code: Seq<char>, defs: Map<Seq<char>, DefView>) -> Seq<char> {
    let c3 = spec_defs_section(defs_source(code), defs, tree_head()).0->Ok_0.0;
    spec_expect(c3, TokenKind::Colon, ErrorKind::ColonAfterOperations)->Ok_0
}

/// The parse tree of a program is the opening lines, the trees of its
/// definitions (at least one) joined by semicolon lines, the lines that
/// close the definitions and open the operations, the trees of its
/// operations (at least one) joined likewise, and the closing lines; each
/// definition tree is a `<def>` element and each operation tree an `<op>`
/// element.
pub proof fn lemma_program_tree(code: Seq<char>, defs: Map<Seq<char>, DefView>, op_list: Seq<OpView>)
    ensures
        spec_program(code, defs, op_list).0 matches Ok(h) ==> {
            let dts = def_trees(defs_source(code));
            let ots = op_trees(ops_source(code, defs));
            &&& h =~= tree_head() + join(dts, semicolon_line()) + "\t</defs>\n"@ + "\t-operations\n"@
                + "\t-colon\n\t<ops>\n"@ + join(ots, semicolon_line()) + "\t</ops>\n"@ + "\t-end\n"@
                + "\t-period\n</program>"@
            &&& dts.len() >= 1
            &&& ots.len() >= 1
            &&& forall|i: int| 0 <= i < dts.len() ==> is_def_tree(#[trigger] dts[i])
            &&& forall|i: int| 0 <= i < ots.len() ==> is_op_tree(#[trigger] ots[i])
        },
{
    if spec_program(code, defs, op_list).0 is Ok {
        let c2 = defs_source(code);
        lemma_def_list_tree(c2, defs, tree_head());
        let c3 = spec_defs_section(c2, defs, tree_head()).0->Ok_0.0;
        let h3 = spec_defs_section(c2, defs, tree_head()).0->Ok_0.1;
        let c4 = ops_source(code, defs);
        let h4 = h3 + "\t-operations\n"@ + "\t-colon\n\t<ops>\n"@;
        lemma_op_list_tree(c4, op_list, h4);
    }
}

proof fn lemma_step_extend(c: Seq<char>, y: Seq<char>)
    requires
        spec_lex(c) matches Ok((r, t)) && t.kind != TokenKind::Eof && (is_symbol_kind(t.kind) || (spec_lex(r) matches Ok((_, t2)) && t2.kind != TokenKind::Eof)),
    ensures
        spec_lex(c + y) == Ok::<(Seq<char>, SpecToken), ParseErrorView>((spec_lex(c)->Ok_0.0 + y, spec_lex(c)->Ok_0.1)),
{
    let (r, t) = spec_lex(c)->Ok_0;
    lemma_lex_eof_iff_blank(r);
    if r.len() == 0 {
        assert(is_blank(r));
    }
    lemma_lex_extend(c, y);
}

/// A definition that parses on its own parses alike when more source
/// follows it, with that source left after it.
proof fn lemma_def_extend(x: Seq<char>, y: Seq<char>)
    requires
        spec_def(x) is Ok,
    ensures
        ({
            let (r, h, id, d) = spec_def(x)->Ok_0;
            spec_def(x + y) == Ok::<(Seq<char>, Seq<char>, Seq<char>, DefView), ParseErrorView>((r + y, h, id, d))
        }),
{
    reveal(spec_def);
    reveal(spec_point);
    reveal(spec_circle_square);
    let (c1, t0) = spec_lex(x)->Ok_0;
    let (c2, t1) = spec_lex(c1)->Ok_0;
    let (c3, t2) = spec_lex(c2)->Ok_0;
    let (c4, t3) = spec_lex(c3)->Ok_0;
    let (c5, t4) = spec_lex(c4)->Ok_0;
    let (c6, t5) = spec_lex(c5)->Ok_0;
    let (c7, t6) = spec_lex(c6)->Ok_0;
    let (c8, t7) = spec_lex(c7)->Ok_0;
    lemma_step_extend(x, y);
    lemma_step_extend(c1, y);
    lemma_step_extend(c2, y);
    lemma_step_extend(c3, y);
    lemma_step_extend(c4, y);
    lemma_step_extend(c5, y);
    lemma_step_extend(c6, y);
    lemma_step_extend(c7, y);
}

/// An operation that parses on its own parses alike when more source
/// follows it, with that source left after it.
proof fn lemma_op_extend(x: Seq<char>, y: Seq<char>)
    requires
        spec_op(x) is Ok,
    ensures
        ({
            let (r, h, o) = spec_op(x)->Ok_0;
            spec_op(x + y) == Ok::<(Seq<char>, Seq<char>, OpView), ParseErrorView>((r + y, h, o))
        }),
{
    reveal(spec_op);
    reveal(spec_print);
    reveal(spec_contain_inter);
    let (c1, t0) = spec_lex(x)->Ok_0;
    let (c2, t1) = spec_lex(c1)->Ok_0;
    let (c3, t2) = spec_lex(c2)->Ok_0;
    let (c4, t3) = spec_lex(c3)->Ok_0;
    lemma_step_extend(x, y);
    lemma_step_extend(c1, y);
    lemma_step_extend(c2, y);
    lemma_step_extend(c3, y);
    if t0.kind != TokenKind::Print {
        let (c5, t4) = spec_lex(c4)->Ok_0;
        lemma_step_extend(c4, y);
        lemma_step_extend(c5, y);
    }
}

/// `x` is the source of one definition, with nothing but whitespace after
/// it.
pub open spec fn is_def_source(x: Seq<char>) -> bool {
    spec_def(x) is Ok && is_blank(spec_def(x)->Ok_0.0)
}

/// `x` is the source of one operation, with nothing but whitespace after
/// it.
pub open spec fn is_op_source(x: Seq<char>) -> bool {
    spec_op(x) is Ok && is_blank(spec_op(x)->Ok_0.0)
}

/// The identifiers and definitions of definitions, each parsed on its own.
pub open spec fn own_defs(ds: Seq<Seq<char>>) -> Seq<(Seq<char>, DefView)> {
    ds.map_values(|x: Seq<char>| (spec_def(x)->Ok_0.2, spec_def(x)->Ok_0.3))
}

/// The operations, each parsed on its own.
pub open spec fn own_ops(us: Seq<Seq<char>>) -> Seq<OpView> {
    us.map_values(|x: Seq<char>| spec_op(x)->Ok_0.2)
}

/// `defs` with each entry recorded in turn, a later entry replacing an
/// earlier one of the same identifier.
pub open spec fn insert_all(defs: Map<Seq<char>, DefView>, entries: Seq<(Seq<char>, DefView)>) -> Map<Seq<char>, DefView>
    decreases entries.len(),
{
    if entries.len() == 0 {
        defs
    } else {
        insert_all(defs.insert(entries[0].0, entries[0].1), entries.drop_first())
    }
}

/// The trees of definitions, each parsed on its own.
pub open spec fn own_def_trees(ds: Seq<Seq<char>>) -> Seq<Seq<char>> {
    ds.map_values(|x: Seq<char>| spec_def(x)->Ok_0.1)
}

/// The trees of operations, each parsed on its own.
pub open spec fn own_op_trees(us: Seq<Seq<char>>) -> Seq<Seq<char>> {
    us.map_values(|x: Seq<char>| spec_op(x)->Ok_0.1)
}

proof fn lemma_def_list_parts(ds: Seq<Seq<char>>, z: Seq<char>, defs: Map<Seq<char>, DefView>, html: Seq<char>)
    requires
        ds.len() >= 1,
        forall|i: int| 0 <= i < ds.len() ==> is_def_source(#[trigger] ds[i]),
        spec_lex(z) matches Ok((_, t)) && t.kind != TokenKind::Semicolon,
    ensures
        spec_def_list(join(ds, ";"@) + z, defs, html).0 == Ok::<(Seq<char>, Seq<char>, SpecToken), ParseErrorView>((
            spec_lex(z)->Ok_0.0,
            html + join(own_def_trees(ds), semicolon_line()),
            spec_lex(z)->Ok_0.1,
        )),
        spec_def_list(join(ds, ";"@) + z, defs, html).1 == insert_all(defs, own_defs(ds)),
    decreases ds.len(),
{
    let x0 = ds[0];
    assert(is_def_source(x0));
    let (r0, h0, id, d) = spec_def(x0)->Ok_0;
    if ds.len() == 1 {
        assert(join(ds, ";"@) == x0);
        lemma_def_extend(x0, z);
        lemma_lex_leading_whitespace(r0, z);
        assert(own_def_trees(ds) =~= seq![h0]);
        assert(join(own_def_trees(ds), semicolon_line()) == h0);
        assert(join(ds, ";"@) + z == x0 + z);
        assert(spec_def(x0 + z) == Ok::<(Seq<char>, Seq<char>, Seq<char>, DefView), ParseErrorView>((r0 + z, h0, id, d)));
        assert(spec_lex(r0 + z) == spec_lex(z));
        assert(own_defs(ds) =~= seq![(id, d)]);
        assert(own_defs(ds).drop_first() =~= Seq::<(Seq<char>, DefView)>::empty());
        assert(insert_all(defs, own_defs(ds)) == insert_all(defs.insert(id, d), Seq::<(Seq<char>, DefView)>::empty()));
    } else {
        let tail = ds.drop_first();
        let rest = join(tail, ";"@) + z;
        assert(join(ds, ";"@) + z =~= x0 + (";"@ + rest));
        lemma_def_extend(x0, ";"@ + rest);
        lemma_lex_leading_whitespace(r0, ";"@ + rest);
        lemma_literal_lexing();
        lemma_lex_extend(";"@, rest);
        assert(Seq::<char>::empty() + rest =~= rest);
        assert forall|i: int| 0 <= i < tail.len() implies is_def_source(#[trigger] tail[i]) by {
            assert(tail[i] == ds[i + 1]);
        }
        lemma_def_list_parts(tail, z, defs.insert(id, d), html + h0 + semicolon_line());
        assert(own_defs(ds).drop_first() =~= own_defs(tail));
        assert(own_defs(ds)[0] == (id, d));
        assert(insert_all(defs, own_defs(ds)) == insert_all(defs.insert(id, d), own_defs(tail)));
        assert(own_def_trees(ds) =~= seq![h0] + own_def_trees(tail));
        lemma_join_cons(h0, own_def_trees(tail), semicolon_line());
        assert(html + h0 + semicolon_line() + join(own_def_trees(tail), semicolon_line()) =~= html + join(own_def_trees(ds), semicolon_line()));
    }
}

proof fn lemma_op_list_parts(us: Seq<Seq<char>>, z: Seq<char>, op_list: Seq<OpView>, html: Seq<char>)
    requires
        us.len() >= 1,
        forall|i: int| 0 <= i < us.len() ==> is_op_source(#[trigger] us[i]),
        spec_lex(z) matches Ok((_, t)) && t.kind != TokenKind::Semicolon,
    ensures
        spec_op_list(join(us, ";"@) + z, op_list, html).0 == Ok::<(Seq<char>, Seq<char>, SpecToken), ParseErrorView>((
            spec_lex(z)->Ok_0.0,
            html + join(own_op_trees(us), semicolon_line()),
            spec_lex(z)->Ok_0.1,
        )),
        spec_op_list(join(us, ";"@) + z, op_list, html).1 == op_list + own_ops(us),
    decreases us.len(),
{
    let x0 = us[0];
    assert(is_op_source(x0));
    let (r0, h0, o) = spec_op(x0)->Ok_0;
    if us.len() == 1 {
        assert(join(us, ";"@) == x0);
        lemma_op_extend(x0, z);
        lemma_lex_leading_whitespace(r0, z);
        assert(own_op_trees(us) =~= seq![h0]);
        assert(join(own_op_trees(us), semicolon_line()) == h0);
        assert(join(us, ";"@) + z == x0 + z);
        assert(spec_op(x0 + z) == Ok::<(Seq<char>, Seq<char>, OpView), ParseErrorView>((r0 + z, h0, o)));
        assert(spec_lex(r0 + z) == spec_lex(z));
        assert(op_list + own_ops(us) =~= op_list.push(o));
    } else {
        let tail = us.drop_first();
        let rest = join(tail, ";"@) + z;
        assert(join(us, ";"@) + z =~= x0 + (";"@ + rest));
        lemma_op_extend(x0, ";"@ + rest);
        lemma_lex_leading_whitespace(r0, ";"@ + rest);
        lemma_literal_lexing();
        lemma_lex_extend(";"@, rest);
        assert(Seq::<char>::empty() + rest =~= rest);
        assert forall|i: int| 0 <= i < tail.len() implies is_op_source(#[trigger] tail[i]) by {
            assert(tail[i] == us[i + 1]);
        }
        lemma_op_list_parts(tail, z, op_list.push(o), html + h0 + semicolon_line());
        assert(op_list.push(o) + own_ops(tail) =~= op_list + own_ops(us));
        assert(own_op_trees(us) =~= seq![h0] + own_op_trees(tail));
        lemma_join_cons(h0, own_op_trees(tail), semicolon_line());
        assert(html + h0 + semicolon_line() + join(own_op_trees(tail), semicolon_line()) =~= html + join(own_op_trees(us), semicolon_line()));
    }
}

/// The program made of the definitions `ds` and the operations `us`, each
/// list joined by semicolons.
pub open spec fn program_source(ds: Seq<Seq<char>>, us: Seq<Seq<char>>) -> Seq<char> {
    "definitions:"@ + join(ds, ";"@) + "operations:"@ + join(us, ";"@) + "end."@
}

/// The parse tree of `definitions: s_1; ...; s_n operations: u_1; ...; u_m end.`,
/// where each `s_i` is one definition and each `u_j` one operation (with
/// whitespace around them allowed), is the opening lines, the trees of the
/// `s_i` each parsed on its own joined by semicolon lines, the lines
/// between the sections, the trees of the `u_j` each parsed on its own
/// joined likewise, and the closing lines. The symbol table gets each
/// `s_i`'s definition in turn, a later one of an identifier replacing an
/// earlier one, and the operations of the `u_j` are appended in order.
pub proof fn lemma_program_of_parts(ds: Seq<Seq<char>>, us: Seq<Seq<char>>, defs: Map<Seq<char>, DefView>, op_list: Seq<OpView>)
    requires
        ds.len() >= 1,
        us.len() >= 1,
        forall|i: int| 0 <= i < ds.len() ==> is_def_source(#[trigger] ds[i]),
        forall|j: int| 0 <= j < us.len() ==> is_op_source(#[trigger] us[j]),
    ensures
        spec_program(program_source(ds, us), defs, op_list).0 == Ok::<Seq<char>, ParseErrorView>(
            tree_head() + join(own_def_trees(ds), semicolon_line()) + "\t</defs>\n"@ + "\t-operations\n"@
                + "\t-colon\n\t<ops>\n"@ + join(own_op_trees(us), semicolon_line()) + "\t</ops>\n"@
                + "\t-end\n"@ + "\t-period\n</program>"@,
        ),
        spec_program(program_source(ds, us), defs, op_list).1 == insert_all(defs, own_defs(ds)),
        spec_program(program_source(ds, us), defs, op_list).2 == op_list + own_ops(us),
{
    lemma_literal_lexing();
    let j1 = join(ds, ";"@);
    let j2 = join(us, ";"@);
    let src = program_source(ds, us);
    let b = j2 + "end."@;
    let a = j1 + ("operations:"@ + b);
    assert(src =~= "definitions:"@ + a);
    lemma_lex_extend("definitions:"@, a);
    lemma_lex_extend(":"@, a);
    assert(Seq::<char>::empty() + a =~= a);
    lemma_lex_extend("operations:"@, b);
    lemma_def_list_parts(ds, "operations:"@ + b, defs, tree_head());
    lemma_lex_extend(":"@, b);
    assert(Seq::<char>::empty() + b =~= b);
    let h3 = tree_head() + join(own_def_trees(ds), semicolon_line()) + "\t</defs>\n"@;
    let h4 = h3 + "\t-operations\n"@ + "\t-colon\n\t<ops>\n"@;
    lemma_op_list_parts(us, "end."@, op_list, h4);
    lemma_lex_eof_iff_blank("."@.subrange(1, 1));
    assert(spec_lex("."@) matches Ok((r, _)) && r == Seq::<char>::empty());
    lemma_lex_eof_iff_blank(Seq::<char>::empty());
}

} // verus!
