# atto8

Verified tools for Atto-8, a minimalist 8-bit microcomputer with a stack-based
microprocessor: its instruction set, an instruction-level emulator, the microcode and a
cycle-accurate simulator that runs it, parts of the assembler and disassembler, and parts of
the C compiler (comment removal, literals, parser combinators, how types are written,
integer promotion and the usual arithmetic conversions, the behavior analysis of typed code,
linking, constant folding, and the code of expressions). Every function under `src/` has a
contract; all are verified with Verus except four small wrappers of standard-library calls that vstd does
not specify (`String::push`, the `Debug` quoting of strings and characters, and
`char::is_alphabetic`), whose contracts are trusted.

Not here yet: the assembler's peephole optimizer beyond its first passes (so the pieces of the
assembler are not composed into a whole), and of the C compiler the directives of the
preprocessor, the grammar, the type rules of expressions and statements, and the code of
statements; with them the `asm` and `cc` commands.

## Layout

- `src/common.rs` — control words, traps, the instruction set and its encodings.
- `src/token.rs`, `src/text.rs` — assembly tokens and mnemonics; text helpers.
- `src/emu.rs` — the instruction-level emulator.
- `src/mic.rs` — the microcode builder; `src/sim.rs` — the simulator that runs it;
  `src/bf.rs` — the microcode of a Brainfuck frontend for the same microprocessor.
- `src/expansion.rs`, `src/assembler.rs`, `src/layout.rs` — macro collection and expansion,
  tokenizing, node evaluation, the layout of roots at addresses with label resolution, and code
  generation; `src/disassembler.rs`.
- `src/source.rs` — a line of assembly source: its comment and its include;
  `src/peephole.rs` — the first passes of the optimizer: stack effects of roots, arguments of
  directives, padding, and dropping roots that do nothing.
- `src/graph.rs` — reflexive transitive closure of integer graphs.
- `src/render.rs`, `src/terminal.rs` — rendering of memory, display, controller, emulator and
  simulator state, and the decisions of the execution loop: its schedule, what keys and traps
  do to it.
- `src/cc/` — comment removal, C literals, the parse result and parser combinators, the typed
  tree, how types are written, promotions and conversions, the behavior analysis, linking, and
  the constant folding and code of typed expressions.
- `src/wp_emu.rs` — an emulator for the work-pointer variant of the instruction set, and its
  rendering of memory and the display; `src/wp_asm.rs` — the work-pointer assembler: its
  tokenizer, macros, constant folding, label assignment and code generation.
- `app/` — the command line (`emu`, `sim`, `mic`, `bf-mic`, `wp-emu`, `wp-asm`, `dasm`) and
  the terminal loop.
- `tests/` — tests of the library on concrete values.
