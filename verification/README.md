# Covalent compiler core, verified

The front end and C back end of Covalent, a small language in which every
function is generic: a function is compiled once for each list of argument
types it is called with, under a mangled name such as `factorial$int`.

`src/` is verified with Verus:

- `lexer`, `token`: source text to tokens.
- `parser`: tokens to a program of expression nodes and function definitions.
- `types`, `typeeq`, `typestr`, `builtins`, `convert`, `mangle`: the type
  model, type equality, written types, the built-in compound types, implicit
  conversions and overload names.
- `enviroment`, `scope`: nested scopes of symbols.
- `analysis`: typed nodes to instructions (`ir`).
- `backend::c`: instructions to C text.
- `source`, `ast`, and the settings in `lib.rs`: the constant types, scopes
  and settings of the constant-type front end and the WASM pipeline.
- `compiler`: the settings of a compilation.
- `laws`: properties that span several operations.

The generic parameters of a compound type live in an `indexmap::IndexMap`,
reached only through the few trusted wrappers of `types::Generics`; their
contracts state what the crate documents of `new`, `insert`, `len`,
`get_index` and `get_index_mut`.

What the library leaves out, and why: the project's sources also hold an
IR generator and a correction pass for nodes (`ir/gen.rs`,
`analysis/correct.rs`), a WASM back end and driver (`backend/wasm`, the `run`
of the WASM pipeline) and an LLVM code generator (`codegen/`, `runtime/`,
`cova_std/`, `vm/`). None of them is reached by a `mod` item of the compiled
program, and each names items that exist nowhere in the sources (a `Codegen`
in `ir`, a `source::Source`, an `ir::Const`, a four-field `IROp::Import`), so
there is no behaviour of theirs to state. The environment's scopes, the
fields of a compound type, the members of a constant object and the C back
end's variable table keep their entries in vectors of named pairs, looked up
by first entry and compared as maps: vstd gives a `HashMap` keyed by `String`
no usable model (its key model covers integer keys only).

`app/main.rs` is the command-line program: it reads the source file, runs the
library, writes the C file and calls the C compiler. `tests/` exercises the
library on concrete programs.
