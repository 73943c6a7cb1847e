# luck

The verified core of the `luck` Lua toolchain's bundler and command line:
the dependency graph and its load order, the single-file bundle with its
line map, the loader preamble, the string-literal quoting the bundle and
the synthesizer use, the command-line grammar, and the decisions the
commands take (exit codes, format ranges, minifier pass toggles, lint
categories, scaffolded config, watch filtering).

Every function under `src/` is checked by Verus against its contract,
except the few thin wrappers that call `petgraph` and `String::push`
(and the `Range::clone` specification it relies on):
Verus takes their contracts on trust, and their doc comments say what
each one claims of the call it makes.

## Layout

- `src/graph.rs`: the graph builder's state machine, the topological load
  order and cycle report (through `petgraph`), module naming.
- `src/bundle.rs`, `src/emitter.rs`, `src/splice.rs`, `src/loader.rs`,
  `src/prefix.rs`, `src/require.rs`: bundle assembly and its line map,
  per-module body rewriting, byte-range splicing, the loader text, the
  collision-free identifier prefix, and how `require` calls are classified.
- `src/ast.rs`, `src/transform.rs`, `src/visitor.rs`, `src/query.rs`: the
  syntax tree, the walkers that rewrite it (`AstTransform`) or visit it
  (`Visitor`) one node's children at a time, in source order, and the
  printers' structural queries. The walkers' contracts speak of a ghost
  record that each trait's methods keep: each visit, bracketed by the
  node it opens with and a closing mark, or each node handed to a
  transform with the one handed back. A walker's contract says exactly
  which calls it makes, each child once, in source order. An implementation
  outside this crate is trusted to keep that record as the trait states.
- `src/synth.rs`: building syntax-tree nodes without source text, with
  fresh increasing spans, operator-precedence and prefix-position
  parenthesization, and escaped literals.
- `src/literal.rs`, `src/ident.rs`: Lua string literals and identifiers.
- `src/args.rs`, `src/cli.rs`: the command-line grammar and the command
  decisions.
- `src/node.rs`, `src/punctuated.rs`, `src/module.rs`,
  `src/version.rs`, `src/text.rs`, `src/corpus.rs`: supporting data and
  helpers.
- `tests/`: executable tests of the library.
- `app/`: the `luck` program around the library (argument reading, files,
  printing).
