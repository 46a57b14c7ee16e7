# zero_shell

A minimalist Unix shell whose decisions are verified with Verus: the line
tokenizer (quotes, escapes, `$VAR`/`${VAR}` expansion, `;` chaining), the
routing of built-in commands and their argument handling, the `ls` listing
(ordering, permission strings, device numbers, column alignment, colors,
time stamps), the user/group database lookup, and the prompt.

- `src/` — the verified library. `lexer.rs` (tokenizer and its laws),
  `commands/` (one module per built-in, `transfer.rs` for `cp`/`mv`
  targets), `userdb.rs`, `timefmt.rs`, `color.rs`, `paths.rs`,
  `order.rs` (stable ordering of names), `num.rs` (decimal numbers),
  `args.rs` (option groups), `shell.rs` (prompt and line handling),
  `text.rs` (character helpers).
  Commands that work through several operands (`rm`, `cp`, `mv`, `mkdir`,
  `cat`, `ls`) do so through `commands::Batch`, which hands the operands
  out in order and keeps the first error; `ls` gathers the entries of an
  operand in `commands::ls::Listing`, which decides what is listed.
- `app/` — the program: the read-eval loop, file system calls, the
  environment, terminal detection, `localtime_r` and the SIGINT handler.
  It runs the operand loops, performing each file operation and handing
  its result back to the library.
- `tests/` — tests of the library.
