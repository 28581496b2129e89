# lib

A command-line argument parser with no heap: the number of argument
definitions, subcommands and positional slots is fixed by const generics.
Flags (`-v`, `--verbose`), options (`-o file`, `-ofile`, `--out file`,
`--out=file`), short clusters (`-vo file`), positionals, `--`, defaults,
required arguments, allowed values, automatic `-h`/`--help` and
`-V`/`--version`, and subcommands.

Everything under `src/` is verified with Verus:

- `parse.rs` states what a parse gives as spec functions over the
  characters of the definitions and tokens (`spec_parse`, `token_loop`,
  `long_step`, `short_step`, `post_step`), proves the executable parser
  against them, and proves the laws that hold of every successful parse.
- `parser.rs` holds the builders, the subcommand routing (`split_from`,
  `spec_parse_sub`) and the debug texts.
- `fmt.rs` holds `HelpFormatter`, a sink over a caller's byte buffer whose
  writes are whole or nothing and leave the rest of the buffer untouched
  (`lemma_finished` gives what the caller's buffer holds afterwards), and
  the help layout as a sequence of pieces.
- `matches.rs`, `arg.rs`, `error.rs`, `value.rs`: the parse result, argument
  definitions, errors and their messages, and typed values.

`app/` holds what needs the process: printing help, version and errors,
exiting on a failed parse, and a `Display` form of parse errors.

Run `cargo test` for the tests under `tests/`.
