# square_circle

The front end of a compiler for the small "square-circle" language:

```text
definitions:
    p = point(2, 3);
    c = circle(p, 5)
operations:
    print(c)
end.
```

- `src/chars.rs`, `src/token.rs`, `src/lexer.rs`: the lexer, specified by
  `spec_lex` (one token from the front of the source).
- `src/parser.rs`: one function per grammar rule, each specified by a spec
  function over the remaining source; it fills a `SymbolTable` and a list of
  `Operation`s and builds an HTML view of the parse tree.
- `src/grammar.rs`: the grammar over tokens and the proof that `program`
  accepts exactly the sources that are the tokens of a program, followed by
  nothing but whitespace.
- `src/tree.rs`: the shape of the parse tree: the trees of the definitions
  and operations, each parsed on its own, joined by semicolon lines.
- `src/tokens.rs`: the token stream, and the proofs that the parser's
  results depend on it alone, so whitespace inserted between tokens, at any
  number of places, changes nothing.
- `src/lines.rs`: line counts of the Scheme and Prolog renderings.
- `src/output.rs`: renders the operations as Scheme or Prolog queries.
- `app/main.rs`: the command line (`<file> -s` or `<file> -p`); it prints the
  queries and writes the parse tree to a `.pt` file.
