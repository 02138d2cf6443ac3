# brainrust

A Brainfuck interpreter whose core is verified with Verus.

- `src/` — the verified library: the tokenizer (`tokenizer.rs`, `token.rs`),
  the bracket table and program model (`tokenizer.rs`, `program.rs`), the
  execution engine and its step semantics (`interpreter.rs`), error types
  (`error.rs`), command-line settings and the interactive-mode rendering
  (`cli.rs`), and string helpers (`text.rs`).
- `app/` — the command-line program: argument parsing with clap, file and
  terminal I/O, and the loops that hand input bytes to the interpreter and
  write its output.
- `tests/` — tests of the library on concrete programs.

The interpreter works on in-memory input and output: `push_input` queues
bytes to be read by `,`, and `take_output` hands out what `.` wrote.
`run(max_steps)` runs until the program halts, the step budget is spent, or
an instruction fails.
