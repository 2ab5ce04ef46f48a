# waveguide

Waveguide is a small language for number-crunching kernels. This crate is
the verified core of its compiler: the data model of each phase and the
transformations between them, each stated with a contract and proved with
Verus.

## Layout

- `src/` — the verified library.
  - `shared/` — native scalar and array types, proxy modes, labels.
  - `resolved/` — resolved data types, operators, constant folding
    (`compute_binary_operation`) and type unification (`biggest_type`).
  - `simple/` — variables and identifiers of the simple phase.
  - `concrete.rs` — the vectorised value graph and how array literals,
    casts, inputs and element-wise operations are lowered into it.
  - `specialized/` — generic instruction programs with liveness analysis,
    and the x86-64 instruction set.
  - `native/x86_64/` — register allocation and machine-code assembly
    (`ingest`), little-endian encoding.
  - `parser/`, `ast/` — literal and operator conversion, grammar rule names.
  - `problem/` — positions, problem remarks, text wrapping and the
    terminal report (`CompileProblem::format`).
  - `high_level/` — the compiler's source table and performance counters.
- `tests/` — tests of the library on concrete values.
- `app/` — what runs on the machine: executable memory, running assembled
  programs, reading sources, the terminal's width, the parser's positions,
  and folding of float constants.
