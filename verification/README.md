# lisp_bytecode_vm

A small Lisp that compiles to bytecode and runs on a stack machine, written
in Verus: the library under `src/` is verified, and the command-line tools
under `app/` drive it.

## Layout

- `src/parser.rs`, `src/ast.rs`, `src/literals.rs`, `src/input.rs` — the
  reader: tokens, expressions with their source locations, and whether an
  input's parentheses are closed.
- `src/compiler.rs`, `src/analysis.rs`, `src/names.rs` — the compiler:
  special forms, closures, loops, pattern-matching `defun`, macros and
  modules, with the emitted code's jumps proved to stay inside what was
  emitted.
- `src/instructions.rs`, `src/value.rs` — instructions and values, with
  their mathematical views.
- `src/machine.rs`, `src/strings.rs`, `src/requests.rs`, `src/nested.rs` —
  the machine: one step at a time, each step specified; printing, floating
  point, files, time and parallel collections are handed to the host as
  effects and requests.
- `src/optimizer.rs` — constant folding, peephole rules, jump threading and
  dead-code removal.
- `src/bytecode.rs`, `src/roundtrip.rs` — the bytecode file format, and the
  proof that reading gives back what writing wrote.
- `src/disassembler.rs`, `src/display.rs`, `src/errors.rs` — text for
  people: listings, values, error reports.
- `src/ffi.rs` — foreign type names and sizes, and the value conversions of
  foreign calls; `src/text.rs` — characters, strings and decimal numbers.
- `app/` — `bytecomp`, `lisp-vm`, `disasm` and `repl`, and the host that
  serves the machine's requests.
- `tests/` — tests of the library.
