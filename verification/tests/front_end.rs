use square_circle::error::{ErrorKind, ParseError};
use square_circle::lexer::lex;
use square_circle::output::{output_prolog, output_scheme, SemanticError};
use square_circle::parser::{circle_square, contain_inter, def, ops, point, print, program};
use square_circle::program_model::{DefinitionType, Operation, OperationType, SymbolTable};
use square_circle::token::{token, Token, TokenKind};

fn lex_ok(src: &str) -> (String, String) {
    let (rest, t) = lex(src).unwrap();
    (rest, t.text())
}

fn err_message(e: ParseError) -> String {
    e.message()
}

const SAMPLE: &str = "definitions:\n    p = point(2, 3);\n    c = circle(p, 5);\n    s = square(p, 4)\noperations:\n    print(c);\n    contained(c, s);\n    intersects(s, c)\nend.\n";

fn id_node(id: &str) -> String {
    format!("\t\t\t<id>\n\t\t\t\t-{}\n\t\t\t</id>\n", id)
}

fn num_node(n: &str) -> String {
    format!("\t\t\t<num>\n\t\t\t\t-{}\n\t\t\t</num>\n", n)
}

fn parse(src: &str) -> (Result<String, ParseError>, SymbolTable, Vec<Operation>) {
    let mut defs = SymbolTable::new();
    let mut op_v = Vec::new();
    let r = program(src, &mut defs, &mut op_v);
    (r, defs, op_v)
}

fn parse_err(src: &str) -> String {
    err_message(parse(src).0.unwrap_err())
}

#[test]
fn lex_reads_keywords_and_symbols() {
    assert_eq!(lex_ok("definitions: x"), (": x".to_string(), "DEFINITIONS".to_string()));
    assert_eq!(lex_ok(": x"), (" x".to_string(), "COLON".to_string()));
    assert_eq!(lex_ok("  ;rest"), ("rest".to_string(), "SEMICOLON".to_string()));
    assert_eq!(lex_ok("(a"), ("a".to_string(), "LPAREN".to_string()));
    assert_eq!(lex_ok(")"), ("".to_string(), "RPAREN".to_string()));
    assert_eq!(lex_ok("=1"), ("1".to_string(), "ASSIGN".to_string()));
    assert_eq!(lex_ok(". "), (" ".to_string(), "PERIOD".to_string()));
    assert_eq!(lex_ok(", b"), (" b".to_string(), "COMMA".to_string()));
    assert_eq!(lex_ok("end."), (".".to_string(), "END".to_string()));
    assert_eq!(lex_ok("intersects("), ("(".to_string(), "INTERSECTS".to_string()));
}

#[test]
fn lex_reads_identifiers_and_numbers() {
    assert_eq!(lex_ok("alpha = 1"), (" = 1".to_string(), "ID alpha".to_string()));
    assert_eq!(lex_ok("256, 3"), (", 3".to_string(), "NUM 256".to_string()));
    assert_eq!(lex_ok("12x"), ("x".to_string(), "NUM 12".to_string()));
    assert_eq!(lex_ok("ab12"), ("12".to_string(), "ID ab".to_string()));
    let (_, t) = lex("points;").unwrap();
    assert_eq!(t.kind, TokenKind::Id);
    assert_eq!(t.lexeme, "points");
}

#[test]
fn lex_whitespace_ends_lexemes() {
    assert_eq!(lex_ok("ab cd;"), (" cd;".to_string(), "ID ab".to_string()));
    assert_eq!(lex_ok("1 2\t3)"), (" 2\t3)".to_string(), "NUM 1".to_string()));
    assert_eq!(lex_ok("def initions:"), (" initions:".to_string(), "ID def".to_string()));
    assert_eq!(lex_ok("end\n."), ("\n.".to_string(), "END".to_string()));
}

#[test]
fn lex_at_end_of_source() {
    assert_eq!(lex_ok(""), ("No Code Left".to_string(), "None".to_string()));
    assert_eq!(lex_ok(" \n\t "), ("No Code Left".to_string(), "None".to_string()));
    assert_eq!(lex_ok("abc"), ("".to_string(), "ID abc".to_string()));
    assert_eq!(lex_ok("42"), ("".to_string(), "NUM 42".to_string()));
    assert_eq!(lex_ok("  end"), ("".to_string(), "END".to_string()));
}

#[test]
fn lex_rejects_uppercase_and_unknown_symbols() {
    let e = lex("Abc").unwrap_err();
    assert_eq!(e.kind, ErrorKind::Lexical);
    assert_eq!(e.message(), "Lexical Error: A");
    assert_eq!(lex("abC").unwrap_err().message(), "Lexical Error: C");
    assert_eq!(lex_ok("ab C"), (" C".to_string(), "ID ab".to_string()));
    assert_eq!(lex("+").unwrap_err().message(), "Lexical Error: +");
    assert_eq!(lex("  # x").unwrap_err().message(), "Lexical Error: #");
}

#[test]
fn lex_leading_whitespace_changes_nothing() {
    let a = lex_ok("circle(p, 1)");
    let b = lex_ok(" \t\r\n circle(p, 1)");
    assert_eq!(a, b);
}

#[test]
fn token_table() {
    let t = token(&"square".to_string(), false).unwrap();
    assert_eq!(t.kind, TokenKind::Square);
    assert_eq!(t.text(), "SQUARE");
    let t = token(&"zz".to_string(), false).unwrap();
    assert_eq!(t.kind, TokenKind::Id);
    assert_eq!(t.text(), "ID zz");
    let t = token(&":".to_string(), true).unwrap();
    assert_eq!(t.text(), "COLON");
    assert_eq!(token(&"@".to_string(), true).unwrap_err().message(), "Lexical Error: @");
    assert_eq!(token(&"print".to_string(), false).unwrap().text(), "PRINT");
    assert_eq!(token(&"contained".to_string(), false).unwrap().text(), "CONTAINED");
    assert_eq!(token(&"operations".to_string(), false).unwrap().text(), "OPERATIONS");
    assert_eq!(token(&"point".to_string(), false).unwrap().text(), "POINT");
    assert_eq!(token(&"circle".to_string(), false).unwrap().text(), "CIRCLE");
    let eof = Token { kind: TokenKind::Eof, lexeme: String::new() };
    assert_eq!(eof.text(), "None");
    let num = Token { kind: TokenKind::Num, lexeme: "7".to_string() };
    assert_eq!(num.text(), "NUM 7");
}

#[test]
fn point_rule() {
    let (rest, html, d) = point("(10, 20); x").unwrap();
    assert_eq!(rest, "; x");
    let expected = format!(
        "\t\t\t-point\n\t\t\t-lparen\n{}\t\t\t-comma\n{}\t\t\t-rparen\n",
        num_node("10"),
        num_node("20")
    );
    assert_eq!(html, expected);
    assert_eq!(d.def_type, DefinitionType::POINT);
    assert_eq!(d.param1, "10");
    assert_eq!(d.param2, "20");
    assert_eq!(err_message(point("10, 20)").unwrap_err()), "Syntax Error: left parentheses expected");
    assert_eq!(err_message(point("(a, 20)").unwrap_err()), "Syntax Error: NUM expected");
    assert_eq!(err_message(point("(1 20)").unwrap_err()), "Syntax Error: comma expected");
    assert_eq!(err_message(point("(1,2;").unwrap_err()), "Syntax Error: right parentheses expected");
    assert_eq!(err_message(point("(1; 20)").unwrap_err()), "Syntax Error: comma expected");
}

#[test]
fn circle_square_rule() {
    let circle = Token { kind: TokenKind::Circle, lexeme: "circle".to_string() };
    let (rest, html, d) = circle_square(&circle, "(p, 5)").unwrap();
    assert_eq!(rest, "");
    let expected = format!(
        "\t\t\t-circle\n\t\t\t-lparen\n{}\t\t\t-comma\n{}\t\t\t-rparen\n",
        id_node("p"),
        num_node("5")
    );
    assert_eq!(html, expected);
    assert_eq!(d.def_type, DefinitionType::CIRCLE);
    assert_eq!(d.param1, "p");
    assert_eq!(d.param2, "5");
    let square = Token { kind: TokenKind::Square, lexeme: "square".to_string() };
    let (_, html, d) = circle_square(&square, "(q,1)").unwrap();
    assert!(html.starts_with("\t\t\t-square\n"));
    assert_eq!(d.def_type, DefinitionType::SQUARE);
    let other = Token { kind: TokenKind::Print, lexeme: "print".to_string() };
    let (_, html, d) = circle_square(&other, "(q,1)").unwrap();
    assert!(html.starts_with("\t\t\t-lparen\n"));
    assert_eq!(d.def_type, DefinitionType::NONE);
    assert_eq!(err_message(circle_square(&circle, "(5, 5)").unwrap_err()), "Syntax Error: ID expected");
}

#[test]
fn def_rule_records_definitions() {
    let mut defs = SymbolTable::new();
    let (rest, html) = def("p = point(1, 2); rest", &mut defs).unwrap();
    assert_eq!(rest, "; rest");
    assert!(html.starts_with(&format!("\t\t<def>\n{}\t\t\t-assign\n\t\t\t-point\n", id_node("p"))));
    assert!(html.ends_with("\t\t\t-rparen\n\t\t</def>\n"));
    let p = defs.get(&"p".to_string()).unwrap();
    assert_eq!(p.def_type, DefinitionType::POINT);
    assert_eq!(p.param1, "1");
    // a later definition replaces an earlier one
    def("p = circle(q, 9)", &mut defs).unwrap();
    let p = defs.get(&"p".to_string()).unwrap();
    assert_eq!(p.def_type, DefinitionType::CIRCLE);
    assert_eq!(p.param2, "9");
    assert!(defs.get(&"q".to_string()).is_none());
    assert_eq!(err_message(def("= point(1,2)", &mut defs).unwrap_err()), "Syntax Error: ID expected");
    assert_eq!(err_message(def("x point(1,2)", &mut defs).unwrap_err()), "Syntax Error: assign sign expected after ID");
    assert_eq!(err_message(def("x = line(1,2)", &mut defs).unwrap_err()), "Syntax Error: point, circle, or square expected");
    assert!(defs.get(&"x".to_string()).is_none());
}

#[test]
fn operation_rules_record_operations() {
    let mut op_v = Vec::new();
    let (rest, html) = print("(c); x", &mut op_v).unwrap();
    assert_eq!(rest, "; x");
    assert_eq!(html, format!("\t\t\t-print\n\t\t\t-lparen\n{}\t\t\t-rparen\n", id_node("c")));
    let contained = Token { kind: TokenKind::Contained, lexeme: "contained".to_string() };
    let (_, html) = contain_inter(&contained, "(a, b)", &mut op_v).unwrap();
    assert_eq!(
        html,
        format!("\t\t\t-contained\n\t\t\t-lparen\n{}\t\t\t-comma\n{}\t\t\t-rparen\n", id_node("a"), id_node("b"))
    );
    let (_, html) = ops("intersects(b, a)", &mut op_v).unwrap();
    assert!(html.starts_with("\t\t<op>\n\t\t\t-intersects\n"));
    assert!(html.ends_with("\t\t</op>\n"));
    assert_eq!(op_v.len(), 3);
    assert_eq!(op_v[0].op_type, OperationType::PRINT);
    assert_eq!(op_v[0].param1, "c");
    assert_eq!(op_v[0].param2, "");
    assert_eq!(op_v[1].op_type, OperationType::CONTAINED);
    assert_eq!(op_v[2].op_type, OperationType::INTERSECTS);
    assert_eq!(op_v[2].param1, "b");
    assert_eq!(op_v[2].param2, "a");
    assert_eq!(err_message(ops("draw(a)", &mut op_v).unwrap_err()), "Syntax Error: print, contained, or intersects expected");
    assert_eq!(err_message(ops("print(a;", &mut op_v).unwrap_err()), "Syntax Error: right parentheses expected");
    assert_eq!(op_v.len(), 3);
}

fn sample_tree() -> String {
    let mut h = String::from("<program>\n\t-definitions\n\t-colon\n\t<defs>\n");
    h += &format!(
        "\t\t<def>\n{}\t\t\t-assign\n\t\t\t-point\n\t\t\t-lparen\n{}\t\t\t-comma\n{}\t\t\t-rparen\n\t\t</def>\n",
        id_node("p"),
        num_node("2"),
        num_node("3")
    );
    h += "\t\t-semicolon\n";
    h += &format!(
        "\t\t<def>\n{}\t\t\t-assign\n\t\t\t-circle\n\t\t\t-lparen\n{}\t\t\t-comma\n{}\t\t\t-rparen\n\t\t</def>\n",
        id_node("c"),
        id_node("p"),
        num_node("5")
    );
    h += "\t\t-semicolon\n";
    h += &format!(
        "\t\t<def>\n{}\t\t\t-assign\n\t\t\t-square\n\t\t\t-lparen\n{}\t\t\t-comma\n{}\t\t\t-rparen\n\t\t</def>\n",
        id_node("s"),
        id_node("p"),
        num_node("4")
    );
    h += "\t</defs>\n\t-operations\n\t-colon\n\t<ops>\n";
    h += &format!("\t\t<op>\n\t\t\t-print\n\t\t\t-lparen\n{}\t\t\t-rparen\n\t\t</op>\n", id_node("c"));
    h += "\t\t-semicolon\n";
    h += &format!(
        "\t\t<op>\n\t\t\t-contained\n\t\t\t-lparen\n{}\t\t\t-comma\n{}\t\t\t-rparen\n\t\t</op>\n",
        id_node("c"),
        id_node("s")
    );
    h += "\t\t-semicolon\n";
    h += &format!(
        "\t\t<op>\n\t\t\t-intersects\n\t\t\t-lparen\n{}\t\t\t-comma\n{}\t\t\t-rparen\n\t\t</op>\n",
        id_node("s"),
        id_node("c")
    );
    h += "\t</ops>\n\t-end\n\t-period\n</program>";
    h
}

#[test]
fn program_parses_sample() {
    let (r, defs, op_v) = parse(SAMPLE);
    let html = r.unwrap();
    assert_eq!(html, sample_tree());
    assert!(html.starts_with("<program>\n"));
    assert!(html.ends_with("\t-period\n</program>"));
    assert_eq!(op_v.len(), 3);
    let c = defs.get(&"c".to_string()).unwrap();
    assert_eq!(c.def_type, DefinitionType::CIRCLE);
    assert_eq!(c.param1, "p");
    assert_eq!(c.param2, "5");
    let s = defs.get(&"s".to_string()).unwrap();
    assert_eq!(s.def_type, DefinitionType::SQUARE);
}

#[test]
fn program_rejects_empty_sections() {
    assert_eq!(parse_err("definitions: operations: end."), "Syntax Error: ID expected");
    assert_eq!(parse_err("definitions: operations: print(p) end."), "Syntax Error: ID expected");
    assert_eq!(
        parse_err("definitions: p = point(1,2) operations: end."),
        "Syntax Error: print, contained, or intersects expected"
    );
}

#[test]
fn program_takes_up_the_whole_source() {
    let base = "definitions: p = point(1,2) operations: print(p) end.";
    assert!(parse(base).0.is_ok());
    assert!(parse(&format!("{} \n\t ", base)).0.is_ok());
    assert_eq!(parse_err(&format!("{} x", base)), "Syntax Error: nothing expected after period");
    assert_eq!(parse_err(&format!("{};", base)), "Syntax Error: nothing expected after period");
    assert_eq!(parse_err(&format!("{} ANYTHING", base)), "Lexical Error: A");
}

#[test]
fn program_syntax_errors() {
    assert_eq!(parse_err("operations: print(p) end."), "Syntax Error: definitions or colon expected");
    assert_eq!(parse_err("definitions; p = point(1,2) operations: print(p) end."), "Syntax Error: colon expected after definitions");
    // whitespace ends a word, so "definitions operations" is two words
    assert_eq!(parse_err("definitions operations: end."), "Syntax Error: colon expected after definitions");
    assert_eq!(parse_err("definitions: p = point(1,2) print(p) end."), "Syntax Error: operations, colon, or semicolon expected");
    assert_eq!(parse_err("definitions: p = point(1,2) operations; print(p) end."), "Error: colon expected after operations");
    assert_eq!(parse_err("definitions: p = point(1,2) operations: print(a) print(b) end."), "Syntax Error: end, period, or semicolon expected");
    assert_eq!(parse_err("definitions: p = point(1,2) operations: print(p) end"), "Syntax Error: period expected after end");
    assert_eq!(parse_err("definitions: p = point(1,2) operations: print(p) end;"), "Syntax Error: period expected after end");
    assert_eq!(parse_err("definitions:"), "Syntax Error: ID expected");
    assert_eq!(parse_err("definitions: p = point(1,2) operations: draw(a) end."), "Syntax Error: print, contained, or intersects expected");
    assert_eq!(parse_err("Definitions: p = point(1,2) operations: print(p) end."), "Lexical Error: D");
    assert_eq!(parse_err("definitions: p = point(1,2); q = point(3$4) operations: print(p) end."), "Lexical Error: $");
    assert_eq!(parse_err("definitions: p = point(1 2, 3) operations: print(p) end."), "Syntax Error: comma expected");
}

#[test]
fn program_keeps_what_was_read_before_an_error() {
    let (r, defs, op_v) = parse("definitions: p = point(1,2); c = circle(p, 3) operations: print(c); print(");
    assert!(r.is_err());
    assert!(defs.get(&"p".to_string()).is_some());
    assert!(defs.get(&"c".to_string()).is_some());
    assert_eq!(op_v.len(), 1);
}

#[test]
fn scheme_rendering() {
    let (_, defs, op_v) = parse(SAMPLE);
    let (text, e) = output_scheme(&defs, &op_v);
    assert!(e.is_none());
    assert_eq!(
        text,
        "(print-circle (makepoint 2 3) 5)\n(contained-circle-square (makepoint 2 3) 5 (makepoint 2 3) 4)\n(intersects-square-circle (makepoint 2 3) 4 (makepoint 2 3) 5)\n"
    );
}

#[test]
fn prolog_rendering() {
    let (_, defs, op_v) = parse(SAMPLE);
    let (text, e) = output_prolog(&defs, &op_v);
    assert!(e.is_none());
    let expected = String::from(
        "query(circle(point2d(2,3), 5)).\nquery(contained(circle(point2d(2,3), 5), square(point2d(2,3), 4))).\nquery(intersects(square(point2d(2,3), 4), circle(point2d(2,3), 5))).\n",
    ) + "writeln(T) :- write(T), nl.\nmain:- forall(query(Q), Q-> (writeln(\u{2018}yes\u{2019})) ; (writeln(\u{2018}no\u{2019}))),\n\thalt.\n";
    assert_eq!(text, expected);
}

#[test]
fn rendering_refuses_points() {
    let (r, defs, op_v) = parse("definitions: p = point(1,2); c = circle(p, 3) operations: print(c); print(p) end.");
    assert!(r.is_ok());
    let (text, e) = output_scheme(&defs, &op_v);
    assert_eq!(e, Some(SemanticError::PointAsParam));
    assert_eq!(text, "(print-circle (makepoint 1 2) 3)\n(print");
    assert_eq!(e.unwrap().message(), "Error: point cannot not be passed as param");
    let (text, e) = output_prolog(&defs, &op_v);
    assert_eq!(e, Some(SemanticError::PointAsParam));
    assert_eq!(text, "query(circle(point2d(1,2), 3)).\nquery(");
}

#[test]
fn rendering_undefined_identifiers() {
    let (_, defs, op_v) = parse("definitions: c = circle(p, 3) operations: contained(c, x) end.");
    let (text, e) = output_scheme(&defs, &op_v);
    assert_eq!(e, Some(SemanticError::MissingDefinition));
    assert_eq!(text, "(contained-circle");
    // Prolog looks up the point of the first shape before the second shape
    let (text, e) = output_prolog(&defs, &op_v);
    assert_eq!(e, Some(SemanticError::MissingDefinition));
    assert_eq!(text, "query(contained(circle(");
    assert_eq!(e.unwrap().message(), "called `Option::unwrap()` on a `None` value");
}

#[test]
fn rendering_scheme_and_prolog_fail_alike() {
    let (_, defs, op_v) = parse("definitions: p = point(1,2); c = circle(p, 3); s = square(c, 2) operations: intersects(c, s); contained(s, p) end.");
    let (_, e1) = output_scheme(&defs, &op_v);
    let (_, e2) = output_prolog(&defs, &op_v);
    assert_eq!(e1.is_none(), e2.is_none());
    assert!(e1.is_some());
}

#[test]
fn rendering_undefined_operation_and_type() {
    let mut defs = SymbolTable::new();
    def("p = point(1,2)", &mut defs).unwrap();
    let other = Token { kind: TokenKind::End, lexeme: "end".to_string() };
    let (_, _, d) = circle_square(&other, "(p, 1)").unwrap();
    defs.insert("n".to_string(), d);
    let op_v = vec![Operation { op_type: OperationType::PRINT, param1: "n".to_string(), param2: String::new() }];
    let (_, e) = output_scheme(&defs, &op_v);
    assert_eq!(e, Some(SemanticError::TypeNotSpecified));
    assert_eq!(e.unwrap().message(), "Error: type not specified");
    let mut op_v = Vec::new();
    contain_inter(&other, "(n, n)", &mut op_v).unwrap();
    assert_eq!(op_v[0].op_type, OperationType::UNDEFINED);
    let (text, e) = output_prolog(&defs, &op_v);
    assert_eq!(e, Some(SemanticError::UndefinedOperation));
    assert_eq!(text, "");
    assert_eq!(e.unwrap().message(), "Error: undefined operation");
}

#[test]
fn nested_shape_points_are_rendered_as_written() {
    // a circle whose "point" is itself a circle is rendered with that circle's fields
    let (_, defs, op_v) = parse("definitions: p = point(1,2); c = circle(p, 3); d = circle(c, 4) operations: print(d) end.");
    let (text, e) = output_scheme(&defs, &op_v);
    assert!(e.is_none());
    assert_eq!(text, "(print-circle (makepoint p 3) 4)\n");
}

#[test]
fn whitespace_between_tokens_changes_nothing() {
    let tight = "definitions:p=point(1,2);c=circle(p,3)operations:print(c);intersects(c,c)end.";
    let spaced = "definitions :\n p = point ( 1 , 2 ) ;\n\tc = circle ( p , 3 )\noperations : print ( c ) ; intersects ( c , c ) end .";
    let (r1, d1, o1) = parse(tight);
    let (r2, d2, o2) = parse(spaced);
    assert_eq!(r1.unwrap(), r2.unwrap());
    assert_eq!(o1.len(), o2.len());
    let (s1, _) = output_scheme(&d1, &o1);
    let (s2, _) = output_scheme(&d2, &o2);
    assert_eq!(s1, s2);
}

#[test]
fn rendering_line_counts() {
    let (_, defs, op_v) = parse(SAMPLE);
    let (scheme, _) = output_scheme(&defs, &op_v);
    let (prolog, _) = output_prolog(&defs, &op_v);
    assert_eq!(scheme.matches('\n').count(), op_v.len());
    assert_eq!(prolog.matches('\n').count(), op_v.len() + 3);
}

#[test]
fn tree_is_defs_and_ops_joined() {
    let (r, _, _) = parse(SAMPLE);
    let html = r.unwrap();
    assert_eq!(html.matches("\t\t<def>\n").count(), 3);
    assert_eq!(html.matches("\t\t</def>\n").count(), 3);
    assert_eq!(html.matches("\t\t<op>\n").count(), 3);
    assert_eq!(html.matches("\t\t</op>\n").count(), 3);
    assert_eq!(html.matches("\t\t-semicolon\n").count(), 4);
    assert!(html.contains("\t</defs>\n\t-operations\n\t-colon\n\t<ops>\n"));
}

#[test]
fn tree_of_separately_parsed_parts() {
    let ds = ["p = point(1, 2) ", " c=circle(p,3)", "\ts = square(p, 4)\n"];
    let us = ["print(c)", " contained(c, s) ", "intersects(s,c)"];
    let source = format!("definitions:{}operations:{}end.", ds.join(";"), us.join(";"));
    let mut def_trees = Vec::new();
    for d in ds.iter() {
        let mut scratch = SymbolTable::new();
        def_trees.push(def(d, &mut scratch).unwrap().1);
    }
    let mut op_trees = Vec::new();
    for u in us.iter() {
        let mut scratch = Vec::new();
        op_trees.push(ops(u, &mut scratch).unwrap().1);
    }
    let expected = format!(
        "<program>\n\t-definitions\n\t-colon\n\t<defs>\n{}\t</defs>\n\t-operations\n\t-colon\n\t<ops>\n{}\t</ops>\n\t-end\n\t-period\n</program>",
        def_trees.join("\t\t-semicolon\n"),
        op_trees.join("\t\t-semicolon\n")
    );
    assert_eq!(parse(&source).0.unwrap(), expected);
}

#[test]
fn line_counts_ignore_unrendered_parameters() {
    let (_, mut defs, op_v) = parse(SAMPLE);
    let odd = Token { kind: TokenKind::Circle, lexeme: "circle".to_string() };
    let (_, _, mut d) = circle_square(&odd, "(p, 1)").unwrap();
    d.param2 = "line\nfeed".to_string();
    defs.insert("unused".to_string(), d);
    let (scheme, e1) = output_scheme(&defs, &op_v);
    let (prolog, e2) = output_prolog(&defs, &op_v);
    assert!(e1.is_none() && e2.is_none());
    assert_eq!(scheme.matches('\n').count(), op_v.len());
    assert_eq!(prolog.matches('\n').count(), op_v.len() + 3);
}
