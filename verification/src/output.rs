//! Renders the operations of a parsed program as Scheme or Prolog queries.
//!
//! Each operation names circles or squares; a circle or a square is
//! written with the coordinates of its point and its size. A point cannot
//! be printed, contained or intersected.

use vstd::prelude::*;
use crate::program_model::{DefView, DefinitionType, OpView, Operation, OperationType, SymbolTable, ops_view};

verus! {

/// Why an operation cannot be rendered.
#[derive(Clone, Copy, Debug, PartialEq, Eq, Structural)]
pub enum SemanticError {
    /// An identifier that the operation (or one of its shapes) names has no definition.
    MissingDefinition,
    /// The operation names a point instead of a circle or a square.
    PointAsParam,
    /// The operation names a shape whose type was never set.
    TypeNotSpecified,
    /// The operation's kind was never set.
    UndefinedOperation,
}

/// The message that reports a semantic error.
pub open spec fn semantic_message(e: SemanticError) -> Seq<char> {
    match e {
        SemanticError::MissingDefinition => "called `Option::unwrap()` on a `None` value"@,
        SemanticError::PointAsParam => "Error: point cannot not be passed as param"@,
        SemanticError::TypeNotSpecified => "Error: type not specified"@,
        SemanticError::UndefinedOperation => "Error: undefined operation"@,
    }
}

impl SemanticError {
    /// The message that reports this error.
    pub fn message(&self) -> (m: String)
        ensures
            m@ == semantic_message(*self),
    {
        match self {
            SemanticError::MissingDefinition => String::from_str("called `Option::unwrap()` on a `None` value"),
            SemanticError::PointAsParam => String::from_str("Error: point cannot not be passed as param"),
            SemanticError::TypeNotSpecified => String::from_str("Error: type not specified"),
            SemanticError::UndefinedOperation => String::from_str("Error: undefined operation"),
        }
    }
}

/// A circle or a square: the types that an operation may name.
pub open spec fn is_shape(t: DefinitionType) -> bool {
    t == DefinitionType::CIRCLE || t == DefinitionType::SQUARE
}

/// The error for an operation that names something other than a shape.
pub open spec fn shape_error(t: DefinitionType) -> SemanticError {
    if t == DefinitionType::POINT {
        SemanticError::PointAsParam
    } else {
        SemanticError::TypeNotSpecified
    }
}

/// The Scheme suffix of the first shape of an operation.
pub open spec fn scheme_shape(t: DefinitionType) -> Seq<char> {
    if t == DefinitionType::CIRCLE { "-circle"@ } else { "-square"@ }
}

/// The Scheme suffix of the last shape of an operation.
pub open spec fn scheme_shape_last(t: DefinitionType) -> Seq<char> {
    if t == DefinitionType::CIRCLE { "-circle "@ } else { "-square "@ }
}

/// A shape in Scheme: its point, then its size.
pub open spec fn scheme_shape_args(pt: DefView, size: Seq<char>) -> Seq<char> {
    "(makepoint "@ + pt.param1 + " "@ + pt.param2 + ") "@ + size
}

/// The Scheme text of one operation: the text written, and the error that
/// stops it, if any (the text is then what was written before the error).
pub open spec fn scheme_op(defs: Map<Seq<char>, DefView>, o: OpView) -> (Seq<char>, Option<SemanticError>) {
    if o.op_type == OperationType::PRINT {
        let t0 = "(print"@;
        if !defs.dom().contains(o.param1) {
            (t0, Some(SemanticError::MissingDefinition))
        } else {
            let p = defs[o.param1];
            if !is_shape(p.def_type) {
                (t0, Some(shape_error(p.def_type)))
            } else {
                let t1 = t0 + scheme_shape_last(p.def_type);
                if !defs.dom().contains(p.param1) {
                    (t1, Some(SemanticError::MissingDefinition))
                } else {
                    (t1 + scheme_shape_args(defs[p.param1], p.param2) + ")\n"@, None)
                }
            }
        }
    } else if o.op_type == OperationType::UNDEFINED {
        (Seq::empty(), Some(SemanticError::UndefinedOperation))
    } else {
        let t0 = if o.op_type == OperationType::CONTAINED { "(contained"@ } else { "(intersects"@ };
        if !defs.dom().contains(o.param1) {
            (t0, Some(SemanticError::MissingDefinition))
        } else {
            let p1 = defs[o.param1];
            if !is_shape(p1.def_type) {
                (t0, Some(shape_error(p1.def_type)))
            } else {
                let t1 = t0 + scheme_shape(p1.def_type);
                if !defs.dom().contains(o.param2) {
                    (t1, Some(SemanticError::MissingDefinition))
                } else {
                    let p2 = defs[o.param2];
                    if !is_shape(p2.def_type) {
                        (t1, Some(shape_error(p2.def_type)))
                    } else {
                        let t2 = t1 + scheme_shape_last(p2.def_type);
                        if !defs.dom().contains(p1.param1) {
                            (t2, Some(SemanticError::MissingDefinition))
                        } else {
                            let t3 = t2 + scheme_shape_args(defs[p1.param1], p1.param2) + " "@;
                            if !defs.dom().contains(p2.param1) {
                                (t3, Some(SemanticError::MissingDefinition))
                            } else {
                                (t3 + scheme_shape_args(defs[p2.param1], p2.param2) + ")\n"@, None)
                            }
                        }
                    }
                }
            }
        }
    }
}

/// The Scheme text of a list of operations, one line each, up to the first
/// operation that cannot be rendered; that operation's error, if any.
pub open spec fn spec_scheme(defs: Map<Seq<char>, DefView>, ops: Seq<OpView>) -> (Seq<char>, Option<SemanticError>)
    decreases ops.len(),
{
    if ops.len() == 0 {
        (Seq::empty(), None)
    } else {
        let (t, e) = scheme_op(defs, ops[0]);
        if e is Some {
            (t, e)
        } else {
            let (t2, e2) = spec_scheme(defs, ops.drop_first());
            (t + t2, e2)
        }
    }
}

/// The Prolog name of a shape, with the opening parenthesis.
pub open spec fn prolog_shape(t: DefinitionType) -> Seq<char> {
    if t == DefinitionType::CIRCLE { "circle("@ } else { "square("@ }
}

/// A shape's arguments in Prolog: its point, then its size.
pub open spec fn prolog_shape_args(pt: DefView, size: Seq<char>) -> Seq<char> {
    "point2d("@ + pt.param1 + ","@ + pt.param2 + "), "@ + size
}

/// The Prolog text of one operation: the text written, and the error that
/// stops it, if any (the text is then what was written before the error).
pub open spec fn prolog_op(defs: Map<Seq<char>, DefView>, o: OpView) -> (Seq<char>, Option<SemanticError>) {
    if o.op_type == OperationType::PRINT {
        let t0 = "query("@;
        if !defs.dom().contains(o.param1) {
            (t0, Some(SemanticError::MissingDefinition))
        } else {
            let p = defs[o.param1];
            if !is_shape(p.def_type) {
                (t0, Some(shape_error(p.def_type)))
            } else {
                let t1 = t0 + prolog_shape(p.def_type);
                if !defs.dom().contains(p.param1) {
                    (t1, Some(SemanticError::MissingDefinition))
                } else {
                    (t1 + prolog_shape_args(defs[p.param1], p.param2) + ")).\n"@, None)
                }
            }
        }
    } else if o.op_type == OperationType::UNDEFINED {
        (Seq::empty(), Some(SemanticError::UndefinedOperation))
    } else {
        let t0 = if o.op_type == OperationType::CONTAINED { "query(contained("@ } else { "query(intersects("@ };
        if !defs.dom().contains(o.param1) {
            (t0, Some(SemanticError::MissingDefinition))
        } else {
            let p1 = defs[o.param1];
            if !is_shape(p1.def_type) {
                (t0, Some(shape_error(p1.def_type)))
            } else {
                let t1 = t0 + prolog_shape(p1.def_type);
                if !defs.dom().contains(p1.param1) {
                    (t1, Some(SemanticError::MissingDefinition))
                } else {
                    let t2 = t1 + prolog_shape_args(defs[p1.param1], p1.param2) + "), "@;
                    if !defs.dom().contains(o.param2) {
                        (t2, Some(SemanticError::MissingDefinition))
                    } else {
                        let p2 = defs[o.param2];
                        if !is_shape(p2.def_type) {
                            (t2, Some(shape_error(p2.def_type)))
                        } else {
                            let t3 = t2 + prolog_shape(p2.def_type);
                            if !defs.dom().contains(p2.param1) {
                                (t3, Some(SemanticError::MissingDefinition))
                            } else {
                                (t3 + prolog_shape_args(defs[p2.param1], p2.param2) + "))).\n"@, None)
                            }
                        }
                    }
                }
            }
        }
    }
}

/// The Prolog queries of a list of operations, up to the first operation
/// that cannot be rendered; that operation's error, if any.
pub open spec fn prolog_queries(defs: Map<Seq<char>, DefView>, ops: Seq<OpView>) -> (Seq<char>, Option<SemanticError>)
    decreases ops.len(),
{
    if ops.len() == 0 {
        (Seq::empty(), None)
    } else {
        let (t, e) = prolog_op(defs, ops[0]);
        if e is Some {
            (t, e)
        } else {
            let (t2, e2) = prolog_queries(defs, ops.drop_first());
            (t + t2, e2)
        }
    }
}

/// The Prolog clauses that run the queries.
pub open spec fn prolog_main() -> Seq<char> {
    "writeln(T) :- write(T), nl.\nmain:- forall(query(Q), Q-> (writeln(\u{2018}yes\u{2019})) ; (writeln(\u{2018}no\u{2019}))),\n\thalt.\n"@
}

/// The Prolog program of a list of operations: the queries, followed by
/// the main clauses when every operation could be rendered.
pub open spec fn spec_prolog(defs: Map<Seq<char>, DefView>, ops: Seq<OpView>) -> (Seq<char>, Option<SemanticError>) {
    let (t, e) = prolog_queries(defs, ops);
    if e is Some {
        (t, e)
    } else {
        (t + prolog_main(), None)
    }
}

fn push_str(s: &mut String, t: &str)
    ensures
        final(s)@ == old(s)@ + t@,
{
    s.append(t);
}

fn scheme_shape_text(t: DefinitionType) -> (s: &'static str)
    ensures
        s@ == scheme_shape(t),
{
    if t == DefinitionType::CIRCLE { "-circle" } else { "-square" }
}

fn scheme_shape_last_text(t: DefinitionType) -> (s: &'static str)
    ensures
        s@ == scheme_shape_last(t),
{
    if t == DefinitionType::CIRCLE { "-circle " } else { "-square " }
}

fn prolog_shape_text(t: DefinitionType) -> (s: &'static str)
    ensures
        s@ == prolog_shape(t),
{
    if t == DefinitionType::CIRCLE { "circle(" } else { "square(" }
}

/// The definition of a shape that an operation names, or the error for it.
fn lookup_shape<'a>(defs: &'a SymbolTable, name: &String) -> (r: Result<&'a crate::program_model::Definition, SemanticError>)
    ensures
        !defs@.dom().contains(name@) ==> r == Err::<&crate::program_model::Definition, SemanticError>(SemanticError::MissingDefinition),
        defs@.dom().contains(name@) && !is_shape(defs@[name@].def_type) ==> r == Err::<&crate::program_model::Definition, SemanticError>(shape_error(defs@[name@].def_type)),
        defs@.dom().contains(name@) && is_shape(defs@[name@].def_type) ==> (r matches Ok(d) && d@ == defs@[name@]),
{
    match defs.get(name) {
        None => Err(SemanticError::MissingDefinition),
        Some(d) => {
            if d.def_type == DefinitionType::CIRCLE || d.def_type == DefinitionType::SQUARE {
                Ok(d)
            } else if d.def_type == DefinitionType::POINT {
                Err(SemanticError::PointAsParam)
            } else {
                Err(SemanticError::TypeNotSpecified)
            }
        },
    }
}

fn push_scheme_args(s: &mut String, pt: &crate::program_model::Definition, size: &String)
    ensures
        final(s)@ == old(s)@ + scheme_shape_args(pt@, size@),
{
    push_str(s, "(makepoint ");
    push_str(s, pt.param1.as_str());
    push_str(s, " ");
    push_str(s, pt.param2.as_str());
    push_str(s, ") ");
    push_str(s, size.as_str());
}

fn push_prolog_args(s: &mut String, pt: &crate::program_model::Definition, size: &String)
    ensures
        final(s)@ == old(s)@ + prolog_shape_args(pt@, size@),
{
    push_str(s, "point2d(");
    push_str(s, pt.param1.as_str());
    push_str(s, ",");
    push_str(s, pt.param2.as_str());
    push_str(s, "), ");
    push_str(s, size.as_str());
}

/// Appends the Scheme text of one operation to `out`; returns the error
/// that stops it, if any.
fn scheme_one(defs: &SymbolTable, o: &Operation, out: &mut String) -> (e: Option<SemanticError>)
    ensures
        final(out)@ == old(out)@ + scheme_op(defs@, o@).0,
        e == scheme_op(defs@, o@).1,
{
    if o.op_type == OperationType::PRINT {
        push_str(out, "(print");
        let p = match lookup_shape(defs, &o.param1) {
            Ok(p) => p,
            Err(e) => { return Some(e); },
        };
        push_str(out, scheme_shape_last_text(p.def_type));
        let pt = match defs.get(&p.param1) {
            Some(pt) => pt,
            None => { return Some(SemanticError::MissingDefinition); },
        };
        push_scheme_args(out, pt, &p.param2);
        push_str(out, ")\n");
        None
    } else if o.op_type == OperationType::UNDEFINED {
        assert(out@ =~= old(out)@ + Seq::<char>::empty());
        Some(SemanticError::UndefinedOperation)
    } else {
        if o.op_type == OperationType::CONTAINED {
            push_str(out, "(contained");
        } else {
            push_str(out, "(intersects");
        }
        let p1 = match lookup_shape(defs, &o.param1) {
            Ok(p) => p,
            Err(e) => { return Some(e); },
        };
        push_str(out, scheme_shape_text(p1.def_type));
        let p2 = match lookup_shape(defs, &o.param2) {
            Ok(p) => p,
            Err(e) => { return Some(e); },
        };
        push_str(out, scheme_shape_last_text(p2.def_type));
        let pt1 = match defs.get(&p1.param1) {
            Some(pt) => pt,
            None => { return Some(SemanticError::MissingDefinition); },
        };
        push_scheme_args(out, pt1, &p1.param2);
        push_str(out, " ");
        let pt2 = match defs.get(&p2.param1) {
            Some(pt) => pt,
            None => { return Some(SemanticError::MissingDefinition); },
        };
        push_scheme_args(out, pt2, &p2.param2);
        push_str(out, ")\n");
        None
    }
}

/// Appends the Prolog query of one operation to `out`; returns the error
/// that stops it, if any.
#[verifier::rlimit(40)]
fn prolog_one(defs: &SymbolTable, o: &Operation, out: &mut String) -> (e: Option<SemanticError>)
    ensures
        final(out)@ == old(out)@ + prolog_op(defs@, o@).0,
        e == prolog_op(defs@, o@).1,
{
    if o.op_type == OperationType::PRINT {
        push_str(out, "query(");
        let p = match lookup_shape(defs, &o.param1) {
            Ok(p) => p,
            Err(e) => { return Some(e); },
        };
        push_str(out, prolog_shape_text(p.def_type));
        let pt = match defs.get(&p.param1) {
            Some(pt) => pt,
            None => { return Some(SemanticError::MissingDefinition); },
        };
        push_prolog_args(out, pt, &p.param2);
        push_str(out, ")).\n");
        None
    } else if o.op_type == OperationType::UNDEFINED {
        assert(out@ =~= old(out)@ + Seq::<char>::empty());
        Some(SemanticError::UndefinedOperation)
    } else {
        if o.op_type == OperationType::CONTAINED {
            push_str(out, "query(contained(");
        } else {
            push_str(out, "query(intersects(");
        }
        let p1 = match lookup_shape(defs, &o.param1) {
            Ok(p) => p,
            Err(e) => { return Some(e); },
        };
        push_str(out, prolog_shape_text(p1.def_type));
        let pt1 = match defs.get(&p1.param1) {
            Some(pt) => pt,
            None => { return Some(SemanticError::MissingDefinition); },
        };
        push_prolog_args(out, pt1, &p1.param2);
        push_str(out, "), ");
        let p2 = match lookup_shape(defs, &o.param2) {
            Ok(p) => p,
            Err(e) => { return Some(e); },
        };
        push_str(out, prolog_shape_text(p2.def_type));
        let pt2 = match defs.get(&p2.param1) {
            Some(pt) => pt,
            None => { return Some(SemanticError::MissingDefinition); },
        };
        push_prolog_args(out, pt2, &p2.param2);
        push_str(out, "))).\n");
        None
    }
}

/// The Scheme rendering of the operations: one line per operation, up to
/// the first one that cannot be rendered. Returns the text and that
/// operation's error, if any; the text then ends with what was written of
/// that operation before the error.
pub fn output_scheme(defs: &SymbolTable, ops: &Vec<Operation>) -> (r: (String, Option<SemanticError>))
    ensures
        r.0@ == spec_scheme(defs@, ops_view(ops@)).0,
        r.1 == spec_scheme(defs@, ops_view(ops@)).1,
{
    let ghost all = ops_view(ops@);
    let mut out = String::new();
    let mut i: usize = 0;
    assert(all.skip(0) =~= all);
    assert(spec_scheme(defs@, all).0 =~= out@ + spec_scheme(defs@, all).0);
    while i < ops.len()
        invariant
            i <= ops@.len(),
            all == ops_view(ops@),
            spec_scheme(defs@, all) == (out@ + spec_scheme(defs@, all.skip(i as int)).0, spec_scheme(defs@, all.skip(i as int)).1),
        decreases ops@.len() - i,
    {
        let ghost before = out@;
        assert(all.skip(i as int)[0] == ops@[i as int]@);
        assert(all.skip(i as int).drop_first() =~= all.skip(i + 1));
        let e = scheme_one(defs, &ops[i], &mut out);
        if e.is_some() {
            return (out, e);
        }
        assert(spec_scheme(defs@, all.skip(i as int)).0 == scheme_op(defs@, ops@[i as int]@).0 + spec_scheme(defs@, all.skip(i + 1)).0);
        assert(before + spec_scheme(defs@, all.skip(i as int)).0 =~= out@ + spec_scheme(defs@, all.skip(i + 1)).0);
        i = i + 1;
    }
    assert(all.skip(i as int) =~= Seq::<OpView>::empty());
    assert(out@ =~= out@ + Seq::<char>::empty());
    (out, None)
}

/// The Prolog rendering of the operations: one query per operation, up to
/// the first one that cannot be rendered, then the clauses that run the
/// queries. Returns the text and the error that stopped it, if any; the
/// text then ends with what was written of that operation before the
/// error, and the closing clauses are left out.
pub fn output_prolog(defs: &SymbolTable, ops: &Vec<Operation>) -> (r: (String, Option<SemanticError>))
    ensures
        r.0@ == spec_prolog(defs@, ops_view(ops@)).0,
        r.1 == spec_prolog(defs@, ops_view(ops@)).1,
{
    let ghost all = ops_view(ops@);
    let mut out = String::new();
    let mut i: usize = 0;
    assert(all.skip(0) =~= all);
    assert(prolog_queries(defs@, all).0 =~= out@ + prolog_queries(defs@, all).0);
    while i < ops.len()
        invariant
            i <= ops@.len(),
            all == ops_view(ops@),
            prolog_queries(defs@, all) == (out@ + prolog_queries(defs@, all.skip(i as int)).0, prolog_queries(defs@, all.skip(i as int)).1),
        decreases ops@.len() - i,
    {
        let ghost before = out@;
        assert(all.skip(i as int)[0] == ops@[i as int]@);
        assert(all.skip(i as int).drop_first() =~= all.skip(i + 1));
        let e = prolog_one(defs, &ops[i], &mut out);
        if e.is_some() {
            return (out, e);
        }
        assert(prolog_queries(defs@, all.skip(i as int)).0 == prolog_op(defs@, ops@[i as int]@).0 + prolog_queries(defs@, all.skip(i + 1)).0);
        assert(before + prolog_queries(defs@, all.skip(i as int)).0 =~= out@ + prolog_queries(defs@, all.skip(i + 1)).0);
        i = i + 1;
    }
    assert(all.skip(i as int) =~= Seq::<OpView>::empty());
    assert(out@ =~= out@ + Seq::<char>::empty());
    push_str(&mut out, "writeln(T) :- write(T), nl.\nmain:- forall(query(Q), Q-> (writeln(\u{2018}yes\u{2019})) ; (writeln(\u{2018}no\u{2019}))),\n\thalt.\n");
    (out, None)
}

/// `id` names a circle or a square whose point is defined.
pub open spec fn names_shape(defs: Map<Seq<char>, DefView>, id: Seq<char>) -> bool {
    &&& defs.dom().contains(id)
    &&& is_shape(defs[id].def_type)
    &&& defs.dom().contains(defs[id].param1)
}

/// An operation can be rendered: its kind is set, and each identifier it
/// names is a circle or a square whose point is defined.
pub open spec fn op_renders(defs: Map<Seq<char>, DefView>, o: OpView) -> bool {
    &&& o.op_type != OperationType::UNDEFINED
    &&& names_shape(defs, o.param1)
    &&& o.op_type != OperationType::PRINT ==> names_shape(defs, o.param2)
}

proof fn lemma_op_renders(defs: Map<Seq<char>, DefView>, o: OpView)
    ensures
        (scheme_op(defs, o).1 is None) == op_renders(defs, o),
        (prolog_op(defs, o).1 is None) == op_renders(defs, o),
{
}

proof fn lemma_scheme_renders(defs: Map<Seq<char>, DefView>, ops: Seq<OpView>)
    ensures
        (spec_scheme(defs, ops).1 is None) == (forall|i: int| 0 <= i < ops.len() ==> op_renders(defs, #[trigger] ops[i])),
    decreases ops.len(),
{
    if ops.len() > 0 {
        lemma_op_renders(defs, ops[0]);
        lemma_scheme_renders(defs, ops.drop_first());
        if forall|i: int| 0 <= i < ops.drop_first().len() ==> op_renders(defs, #[trigger] ops.drop_first()[i]) {
            if op_renders(defs, ops[0]) {
                assert forall|i: int| 0 <= i < ops.len() implies op_renders(defs, #[trigger] ops[i]) by {
                    if i > 0 {
                        assert(ops[i] == ops.drop_first()[i - 1]);
                    }
                }
            }
        } else {
            let k = choose|i: int| 0 <= i < ops.drop_first().len() && !op_renders(defs, #[trigger] ops.drop_first()[i]);
            assert(ops[k + 1] == ops.drop_first()[k]);
        }
    }
}

proof fn lemma_prolog_renders(defs: Map<Seq<char>, DefView>, ops: Seq<OpView>)
    ensures
        (prolog_queries(defs, ops).1 is None) == (forall|i: int| 0 <= i < ops.len() ==> op_renders(defs, #[trigger] ops[i])),
    decreases ops.len(),
{
    if ops.len() > 0 {
        lemma_op_renders(defs, ops[0]);
        lemma_prolog_renders(defs, ops.drop_first());
        if forall|i: int| 0 <= i < ops.drop_first().len() ==> op_renders(defs, #[trigger] ops.drop_first()[i]) {
            if op_renders(defs, ops[0]) {
                assert forall|i: int| 0 <= i < ops.len() implies op_renders(defs, #[trigger] ops[i]) by {
                    if i > 0 {
                        assert(ops[i] == ops.drop_first()[i - 1]);
                    }
                }
            }
        } else {
            let k = choose|i: int| 0 <= i < ops.drop_first().len() && !op_renders(defs, #[trigger] ops.drop_first()[i]);
            assert(ops[k + 1] == ops.drop_first()[k]);
        }
    }
}

/// Rendering succeeds exactly when every operation is set and names only
/// circles and squares whose points are defined: in particular a point is
/// never printed, contained or intersected. This holds of the Scheme and
/// of the Prolog rendering alike, so the two succeed on the same inputs.
pub proof fn lemma_rendering_succeeds_iff(defs: Map<Seq<char>, DefView>, ops: Seq<OpView>)
    ensures
        (spec_scheme(defs, ops).1 is None) == (forall|i: int| 0 <= i < ops.len() ==> op_renders(defs, #[trigger] ops[i])),
        (spec_prolog(defs, ops).1 is None) == (forall|i: int| 0 <= i < ops.len() ==> op_renders(defs, #[trigger] ops[i])),
        (spec_scheme(defs, ops).1 is None) == (spec_prolog(defs, ops).1 is None),
{
    lemma_scheme_renders(defs, ops);
    lemma_prolog_renders(defs, ops);
}

/// An operation that names a point fails with the point error when it is
/// the first operation rendered, in Scheme and in Prolog alike.
pub proof fn lemma_point_refused(defs: Map<Seq<char>, DefView>, ops: Seq<OpView>)
    requires
        ops.len() > 0,
        ops[0].op_type != OperationType::UNDEFINED,
        defs.dom().contains(ops[0].param1),
        defs[ops[0].param1].def_type == DefinitionType::POINT,
    ensures
        spec_scheme(defs, ops).1 == Some(SemanticError::PointAsParam),
        spec_prolog(defs, ops).1 == Some(SemanticError::PointAsParam),
{
    reveal_with_fuel(prolog_queries, 2);
}

} // verus!
