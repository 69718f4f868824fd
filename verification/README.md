# lopa

The front end of the Lopa language (a small typed language with embedded Lua blocks), with its
behaviour stated in contracts and proved with Verus.

- `src/parsing/lexer.rs`: the lexer, as a function from bytes to tokens; the tokens tile the
  input and each is the longest match.
- `src/parsing/parser.rs`, `grammar.rs`, `lua.rs`: the parser, one routine per kind of node,
  recording open/token/close events; every routine leaves the events balanced, and most
  state the node they record. An item is the node of the token after its attributes (a
  token that begins no item is taken as an error and reported); a module is its items one
  after the other to the end of the input. What lies inside an item's node is stated as
  balanced events, not node by node.
- `src/parsing/tree.rs`: the syntax tree built from the events with `syntree`; its nodes
  nest and are all closed, and it is left empty only where `syntree`'s limits (node
  numbers, a `u32` byte count) would be passed. A tree holds the first tokens of the
  input, each once and in order; the whole file's tree leaves out only trailing
  whitespace, and is the module node of the file's items (unless the parser ran out of
  work, which it then reports). `parse` and `parse_rule` are the entry points.
- `src/parsing/token_set.rs`: sets of token kinds as bit sets.
- `src/lexer.rs`: the earlier, smaller lexer.
- `src/vfs.rs`, `src/ide/mod.rs`, `src/lsp/`: file contents with line and column lookup,
  edits, and conversion to editor ranges.
- `src/ty.rs`: types and the collapsing of nested nil-ability.
- `src/def.rs`, `src/def/scope.rs`: symbols and paths; a module's scope (its items, then
  the names that its import trees bind, each import bound as a value and as a type, a
  name bound twice reported), stated as a function of the items and trees.
- `src/ide/scope.rs`: the scopes of a function body: which scope each expression is in,
  and the names that closures' parameters, `let`s and `is` patterns bind there.
- `src/lsp/queries.rs`: the revisions that the query database records.
- `src/common.rs`, `src/ide/`: operator and literal kinds, diagnostics, the formatter's
  output buffer.
- `app/main.rs`: the command line.
