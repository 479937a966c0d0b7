//! Line counts of the rendered text: one Scheme line per operation, and
//! one Prolog query per operation followed by three lines of clauses.

use vstd::prelude::*;
use crate::output::{
    prolog_main, prolog_op, prolog_queries, prolog_shape, prolog_shape_args, scheme_op,
    scheme_shape, scheme_shape_args, scheme_shape_last, spec_prolog, spec_scheme,
};
use crate::program_model::{DefView, OpView, OperationType};

verus! {

/// The number of line feeds in `s`.
pub open spec fn count_nl(s: Seq<char>) -> nat
    decreases s.len(),
{
    if s.len() == 0 {
        0
    } else {
        count_nl(s.drop_last()) + if s.last() == '\n' { 1nat } else { 0nat }
    }
}

/// `s` holds no line feed.
pub open spec fn no_nl(s: Seq<char>) -> bool {
    forall|i: int| 0 <= i < s.len() ==> s[i] != '\n'
}

/// The parameters written when the shape `id` is rendered hold no line
/// feed: the shape's size and the coordinates of its point.
pub open spec fn shape_params_without_nl(defs: Map<Seq<char>, DefView>, id: Seq<char>) -> bool {
    defs.dom().contains(id) ==> {
        &&& no_nl(defs[id].param2)
        &&& defs.dom().contains(defs[id].param1) ==> no_nl(defs[defs[id].param1].param1) && no_nl(defs[defs[id].param1].param2)
    }
}

/// The parameters written when the operation `o` is rendered hold no line
/// feed.
pub open spec fn rendered_without_nl(defs: Map<Seq<char>, DefView>, o: OpView) -> bool {
    &&& shape_params_without_nl(defs, o.param1)
    &&& o.op_type != OperationType::PRINT ==> shape_params_without_nl(defs, o.param2)
}

proof fn lemma_count_append(a: Seq<char>, b: Seq<char>)
    ensures
        count_nl(a + b) == count_nl(a) + count_nl(b),
    decreases b.len(),
{
    if b.len() == 0 {
        assert(a + b =~= a);
    } else {
        assert((a + b).drop_last() =~= a + b.drop_last());
        lemma_count_append(a, b.drop_last());
    }
}

proof fn lemma_count_no_nl(s: Seq<char>)
    requires
        no_nl(s),
    ensures
        count_nl(s) == 0,
    decreases s.len(),
{
    if s.len() > 0 {
        lemma_count_no_nl(s.drop_last());
    }
}

proof fn lemma_count_line(s: Seq<char>)
    requires
        s.len() > 0,
        no_nl(s.drop_last()),
        s.last() == '\n',
    ensures
        count_nl(s) == 1,
{
    lemma_count_no_nl(s.drop_last());
}

proof fn lemma_scheme_literals()
    ensures
        count_nl("(print"@) == 0,
        count_nl("(contained"@) == 0,
        count_nl("(intersects"@) == 0,
        count_nl("-circle"@) == 0,
        count_nl("-square"@) == 0,
        count_nl("-circle "@) == 0,
        count_nl("-square "@) == 0,
        count_nl("(makepoint "@) == 0,
        count_nl(" "@) == 0,
        count_nl(") "@) == 0,
        count_nl(")\n"@) == 1,
{
    reveal_strlit("(print");
    lemma_count_no_nl("(print"@);
    reveal_strlit("(contained");
    lemma_count_no_nl("(contained"@);
    reveal_strlit("(intersects");
    lemma_count_no_nl("(intersects"@);
    reveal_strlit("-circle");
    lemma_count_no_nl("-circle"@);
    reveal_strlit("-square");
    lemma_count_no_nl("-square"@);
    reveal_strlit("-circle ");
    lemma_count_no_nl("-circle "@);
    reveal_strlit("-square ");
    lemma_count_no_nl("-square "@);
    reveal_strlit("(makepoint ");
    lemma_count_no_nl("(makepoint "@);
    reveal_strlit(" ");
    lemma_count_no_nl(" "@);
    reveal_strlit(") ");
    lemma_count_no_nl(") "@);
    reveal_strlit(")\n");
    lemma_count_line(")\n"@);
}

proof fn lemma_prolog_literals()
    ensures
        count_nl("query("@) == 0,
        count_nl("query(contained("@) == 0,
        count_nl("query(intersects("@) == 0,
        count_nl("circle("@) == 0,
        count_nl("square("@) == 0,
        count_nl("point2d("@) == 0,
        count_nl(","@) == 0,
        count_nl("), "@) == 0,
        count_nl(")).\n"@) == 1,
        count_nl("))).\n"@) == 1,
        count_nl(prolog_main()) == 3,
{
    reveal_strlit("query(");
    lemma_count_no_nl("query("@);
    reveal_strlit("query(contained(");
    lemma_count_no_nl("query(contained("@);
    reveal_strlit("query(intersects(");
    lemma_count_no_nl("query(intersects("@);
    reveal_strlit("circle(");
    lemma_count_no_nl("circle("@);
    reveal_strlit("square(");
    lemma_count_no_nl("square("@);
    reveal_strlit("point2d(");
    lemma_count_no_nl("point2d("@);
    reveal_strlit(",");
    lemma_count_no_nl(","@);
    reveal_strlit("), ");
    lemma_count_no_nl("), "@);
    reveal_strlit(")).\n");
    lemma_count_line(")).\n"@);
    reveal_strlit("))).\n");
    lemma_count_line("))).\n"@);
    let m = prolog_main();
    reveal_strlit("writeln(T) :- write(T), nl.\nmain:- forall(query(Q), Q-> (writeln(\u{2018}yes\u{2019})) ; (writeln(\u{2018}no\u{2019}))),\n\thalt.\n");
    assert(m.len() == 100);
    let a = m.subrange(0, 28);
    let b = m.subrange(28, 93);
    let c = m.subrange(93, 100);
    assert(m =~= a + b + c);
    lemma_count_line(a);
    lemma_count_line(b);
    lemma_count_line(c);
    lemma_count_append(a, b);
    lemma_count_append(a + b, c);
}

proof fn lemma_shape_literals(t: crate::program_model::DefinitionType)
    ensures
        count_nl(scheme_shape(t)) == 0,
        count_nl(scheme_shape_last(t)) == 0,
        count_nl(prolog_shape(t)) == 0,
{
    lemma_scheme_literals();
    lemma_prolog_literals();
}

proof fn lemma_scheme_args(pt: DefView, size: Seq<char>)
    requires
        no_nl(pt.param1),
        no_nl(pt.param2),
        no_nl(size),
    ensures
        count_nl(scheme_shape_args(pt, size)) == 0,
{
    lemma_scheme_literals();
    lemma_count_no_nl(pt.param1);
    lemma_count_no_nl(pt.param2);
    lemma_count_no_nl(size);
    lemma_count_append("(makepoint "@, pt.param1);
    lemma_count_append("(makepoint "@ + pt.param1, " "@);
    lemma_count_append("(makepoint "@ + pt.param1 + " "@, pt.param2);
    lemma_count_append("(makepoint "@ + pt.param1 + " "@ + pt.param2, ") "@);
    lemma_count_append("(makepoint "@ + pt.param1 + " "@ + pt.param2 + ") "@, size);
}

proof fn lemma_prolog_args(pt: DefView, size: Seq<char>)
    requires
        no_nl(pt.param1),
        no_nl(pt.param2),
        no_nl(size),
    ensures
        count_nl(prolog_shape_args(pt, size)) == 0,
{
    lemma_prolog_literals();
    lemma_count_no_nl(pt.param1);
    lemma_count_no_nl(pt.param2);
    lemma_count_no_nl(size);
    lemma_count_append("point2d("@, pt.param1);
    lemma_count_append("point2d("@ + pt.param1, ","@);
    lemma_count_append("point2d("@ + pt.param1 + ","@, pt.param2);
    lemma_count_append("point2d("@ + pt.param1 + ","@ + pt.param2, "), "@);
    lemma_count_append("point2d("@ + pt.param1 + ","@ + pt.param2 + "), "@, size);
}

proof fn lemma_scheme_op_line(defs: Map<Seq<char>, DefView>, o: OpView)
    requires
        rendered_without_nl(defs, o),
        scheme_op(defs, o).1 is None,
    ensures
        count_nl(scheme_op(defs, o).0) == 1,
{
    lemma_scheme_literals();
    if o.op_type == OperationType::PRINT {
        let p = defs[o.param1];
        assert(defs.dom().contains(o.param1));
        assert(defs.dom().contains(p.param1));
        lemma_shape_literals(p.def_type);
        lemma_scheme_args(defs[p.param1], p.param2);
        let t1 = "(print"@ + scheme_shape_last(p.def_type);
        lemma_count_append("(print"@, scheme_shape_last(p.def_type));
        lemma_count_append(t1, scheme_shape_args(defs[p.param1], p.param2));
        lemma_count_append(t1 + scheme_shape_args(defs[p.param1], p.param2), ")\n"@);
    } else {
        let t0 = if o.op_type == OperationType::CONTAINED { "(contained"@ } else { "(intersects"@ };
        let p1 = defs[o.param1];
        let p2 = defs[o.param2];
        assert(defs.dom().contains(o.param1));
        assert(defs.dom().contains(o.param2));
        assert(defs.dom().contains(p1.param1));
        assert(defs.dom().contains(p2.param1));
        lemma_shape_literals(p1.def_type);
        lemma_shape_literals(p2.def_type);
        lemma_scheme_args(defs[p1.param1], p1.param2);
        lemma_scheme_args(defs[p2.param1], p2.param2);
        let t1 = t0 + scheme_shape(p1.def_type);
        let t2 = t1 + scheme_shape_last(p2.def_type);
        let a1 = scheme_shape_args(defs[p1.param1], p1.param2);
        let a2 = scheme_shape_args(defs[p2.param1], p2.param2);
        let t3 = t2 + a1 + " "@;
        lemma_count_append(t0, scheme_shape(p1.def_type));
        lemma_count_append(t1, scheme_shape_last(p2.def_type));
        lemma_count_append(t2, a1);
        lemma_count_append(t2 + a1, " "@);
        lemma_count_append(t3, a2);
        lemma_count_append(t3 + a2, ")\n"@);
    }
}

proof fn lemma_prolog_op_line(defs: Map<Seq<char>, DefView>, o: OpView)
    requires
        rendered_without_nl(defs, o),
        prolog_op(defs, o).1 is None,
    ensures
        count_nl(prolog_op(defs, o).0) == 1,
{
    lemma_prolog_literals();
    if o.op_type == OperationType::PRINT {
        let p = defs[o.param1];
        assert(defs.dom().contains(o.param1));
        assert(defs.dom().contains(p.param1));
        lemma_shape_literals(p.def_type);
        lemma_prolog_args(defs[p.param1], p.param2);
        let t1 = "query("@ + prolog_shape(p.def_type);
        lemma_count_append("query("@, prolog_shape(p.def_type));
        lemma_count_append(t1, prolog_shape_args(defs[p.param1], p.param2));
        lemma_count_append(t1 + prolog_shape_args(defs[p.param1], p.param2), ")).\n"@);
    } else {
        let t0 = if o.op_type == OperationType::CONTAINED { "query(contained("@ } else { "query(intersects("@ };
        let p1 = defs[o.param1];
        let p2 = defs[o.param2];
        assert(defs.dom().contains(o.param1));
        assert(defs.dom().contains(o.param2));
        assert(defs.dom().contains(p1.param1));
        assert(defs.dom().contains(p2.param1));
        lemma_shape_literals(p1.def_type);
        lemma_shape_literals(p2.def_type);
        lemma_prolog_args(defs[p1.param1], p1.param2);
        lemma_prolog_args(defs[p2.param1], p2.param2);
        let a1 = prolog_shape_args(defs[p1.param1], p1.param2);
        let a2 = prolog_shape_args(defs[p2.param1], p2.param2);
        let t1 = t0 + prolog_shape(p1.def_type);
        let t2 = t1 + a1 + "), "@;
        let t3 = t2 + prolog_shape(p2.def_type);
        lemma_count_append(t0, prolog_shape(p1.def_type));
        lemma_count_append(t1, a1);
        lemma_count_append(t1 + a1, "), "@);
        lemma_count_append(t2, prolog_shape(p2.def_type));
        lemma_count_append(t3, a2);
        lemma_count_append(t3 + a2, "))).\n"@);
    }
}

proof fn lemma_scheme_lines(defs: Map<Seq<char>, DefView>, ops: Seq<OpView>)
    requires
        forall|i: int| 0 <= i < ops.len() ==> rendered_without_nl(defs, #[trigger] ops[i]),
        spec_scheme(defs, ops).1 is None,
    ensures
        count_nl(spec_scheme(defs, ops).0) == ops.len(),
    decreases ops.len(),
{
    if ops.len() > 0 {
        lemma_scheme_op_line(defs, ops[0]);
        assert(forall|i: int| 0 <= i < ops.drop_first().len() ==> #[trigger] ops.drop_first()[i] == ops[i + 1]);
        lemma_scheme_lines(defs, ops.drop_first());
        lemma_count_append(scheme_op(defs, ops[0]).0, spec_scheme(defs, ops.drop_first()).0);
    }
}

proof fn lemma_prolog_lines(defs: Map<Seq<char>, DefView>, ops: Seq<OpView>)
    requires
        forall|i: int| 0 <= i < ops.len() ==> rendered_without_nl(defs, #[trigger] ops[i]),
        prolog_queries(defs, ops).1 is None,
    ensures
        count_nl(prolog_queries(defs, ops).0) == ops.len(),
    decreases ops.len(),
{
    if ops.len() > 0 {
        lemma_prolog_op_line(defs, ops[0]);
        assert(forall|i: int| 0 <= i < ops.drop_first().len() ==> #[trigger] ops.drop_first()[i] == ops[i + 1]);
        lemma_prolog_lines(defs, ops.drop_first());
        lemma_count_append(prolog_op(defs, ops[0]).0, prolog_queries(defs, ops.drop_first()).0);
    }
}

/// When rendering succeeds and no parameter that it writes holds a line
/// feed, the Scheme text has one line per operation, and the Prolog text
/// one line per operation followed by three lines of clauses.
pub proof fn lemma_rendering_lines(defs: Map<Seq<char>, DefView>, ops: Seq<OpView>)
    requires
        forall|i: int| 0 <= i < ops.len() ==> rendered_without_nl(defs, #[trigger] ops[i]),
    ensures
        spec_scheme(defs, ops).1 is None ==> count_nl(spec_scheme(defs, ops).0) == ops.len(),
        spec_prolog(defs, ops).1 is None ==> count_nl(spec_prolog(defs, ops).0) == ops.len() + 3,
{
    if spec_scheme(defs, ops).1 is None {
        lemma_scheme_lines(defs, ops);
    }
    if spec_prolog(defs, ops).1 is None {
        lemma_prolog_lines(defs, ops);
        lemma_prolog_literals();
        lemma_count_append(prolog_queries(defs, ops).0, prolog_main());
    }
}

} // verus!
