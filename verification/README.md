# alic

A transpiler from Ali (an improved, JavaScript-like syntax for the Microsoft AL
language) to AL, written in Verus. Tree-sitter parses the source; the library
walks the syntax tree and writes the AL code.

Layout:

- `src/compiler/tree.rs` — syntax trees in preorder, a builder, and a cursor.
- `src/compiler/syntax.rs` — parsing with tree-sitter and the conversion of its
  trees.
- `src/compiler/reader.rs`, `writer.rs`, `chunk.rs` — reading the source and
  writing the output, with indentation and pending text.
- `src/compiler/walker.rs` — the walk over the tree and the context stack.
- `src/compiler/output_model.rs` — what a walk writes, stated node kind by
  node kind over the tree; the walker's and the customizer's contracts say
  that they write exactly this on every well-shaped tree. It also proves that
  on a tree whose only rewritten nodes are tokens this is the source with the
  tokens translated, and on a tree with nothing to rewrite the source itself.
- `src/compiler/customizer.rs` — the rewriting rules: blocks, operators,
  control flow, `return`, `switch` and local variables.
- `src/compiler/constants/` — the kinds of nodes and the text of the target
  language.
- `app/main.rs` — the command line: `alic <input-file> <output-file>`, both
  optional (the input defaults to `input`, the output to standard output).
