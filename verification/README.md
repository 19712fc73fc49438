# compiler_project

A compiler front end for the Teh Tarik language, verified with Verus: a
lexer that turns source text into tokens, and a single-pass
recursive-descent parser that checks a program and emits its intermediate
representation (IR) as text.

Layout:

- `src/text.rs`: decimal rendering, string comparison and joining.
- `src/lexer/`: the tokens (`token.rs`) and the lexer (`scanner.rs`), with
  `lex_spec` stating the outcome of lexing a byte sequence.
- `src/parser/model.rs`: one spec function per parsing function, giving its
  outcome (IR or error, position, symbol table, code generation state).
- `src/parser/{program,function,statement,declaration,expression}.rs`: the
  parser, each function proved to compute its spec function.
- `src/parser/laws.rs`: properties over all inputs (symbol table read-back,
  names kept apart, loop stack balance, fresh temporaries and labels, the
  semantic checks).
- `src/parser/ir_text.rs`: the IR of a program read as lines (no label
  line and no temporary declaration occurs twice; every jump names a
  label line of its own function).
- `app/main.rs`: the command-line driver (file reading and printing).
- `tests/`: lexer, parser and symbol table tests.

Within each parse, temporaries (`_tempN`) and loop labels (`:loopbeginN`,
`:endloopN`) are numbered from 1, and `if` labels (`iftrueN`, `elseN`,
`endifN`) from 0.
