# clorus_runtime

The runtime and REPL support of Clorus, a Clojure-inspired systems language,
written in Verus: every function under `src/` carries a contract that Verus
proves.

## Layout

- `src/` — the verified library.
  - Values and collections: `value`, `key`, `hamt` (persistent hash trie),
    `set`, `list`, `equality`, `hash`, `value_hash`, `collections`,
    `map_ops`, `transducer`.
  - Numbers and text: `arithmetic`, `text`, `strings`, `regex`, `printer`,
    `output`.
  - State and concurrency decisions: `transaction`, `refs`, `atom`, `var`,
    `agent`, `channel`, `hierarchy`, `protocols`, `intern`, `function`,
    `debug`, `net`.
  - REPL support: `repl`, `forms`, `project`, `ffi_interface`, `loading`, `manifest`,
    `namespace`, `session`, `detector`, `strategy`, `adaptive`.
- `tests/` — tests of the library, run against the compiled crate.
- `app/` — the REPL program: terminal and file I/O, configuration files,
  dynamic library loading, `.clip` packages, TCP sockets, and the evaluation
  engine, which compiles forms with the Clorus compiler and runs them through
  LLVM's JIT.

Public proof functions named `law_*` state properties that hold across
operations, such as what `get` gives back after `assoc`, that `isa?` is
transitive, and that structurally equal values hash alike.
