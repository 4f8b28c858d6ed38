# bf_rs

A Brainfuck toolchain whose library is verified with Verus.

The pipeline: source text is lexed into tokens, parsed into an AST of runs and
loops, lowered to IR1 (coalesced pointer moves and cell additions, with the
text form BF1), lowered again to IR2 (a control-flow graph of basic blocks with
terminators, with the text form BF2), and run on a virtual machine with a tape
of 30 000 wrapping `i64` cells.

## Layout

- `src/` — the verified library.
  - `text.rs`: character-level helpers (trimming, words, lines, decimal
    numbers) with their specifications, and facts about text read back.
  - `bferror.rs`: the error types of each stage and their messages.
  - `logging.rs`: log levels, stages, records, their rendering, the logger
    that queues rendered lines, and source positions for diagnostics.
  - `linked_list.rs`, `lexer.rs`, `parser.rs`: tokens and the AST.
  - `ir1.rs`, `ir2.rs`: the two intermediate representations, their
    lowering, and their text forms.
  - `bfvm.rs`: the virtual machine, stepped one instruction at a time.
  - `roundtrip.rs`: the BF1 and BF2 texts read back as what was written.
  - `semantics.rs`: what a source program and an IR1 program mean, and the
    proof that lowering a program that runs to its end to IR1 keeps it.
  - `pipeline.rs`: lowering builds a well-formed graph that the machine runs
    without meeting a malformed block, and running it does what the IR1
    program means.
- `app/` — the driver: file and standard-stream I/O, the `tracing`
  subscriber, and diagnostics rendered with `miette`.
- `tests/` — tests of the library.

The machine performs no I/O itself: a step that reads or writes a byte hands
the transfer to its driver. `Status::run` drives a program with in-memory
streams; the driver in `app/` drives it with stdin and stdout.
