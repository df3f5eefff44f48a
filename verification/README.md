# cl-utils

`clu` is a set of stdin-oriented text utilities (`explode-line`, `join-lines`,
`str-slice`, `value-counts`, `mix-lines`, `replace-regex`, ...). This crate is
built in two parts:

- `src/` is the verified library. Each command has a module under
  `src/commands/` with the logic that turns input lines into output lines,
  written in Verus with contracts over sequences of characters: Python-style
  slicing, splitting and trimming, grouping lines, counting and ordering
  distinct lines, the shuffle reservoir, the line-count sample, histogram
  bin growth and the gnuplot script text. `src/text.rs` holds the shared
  character-level specifications (white space, `trim`, `split`, `join`,
  decimal numbers); `src/pattern.rs` wraps the `regex` crate.
- `app/` is the command-line program: argument parsing (clap), reading stdin
  and files, writing stdout, shell completions, and the floating-point parts
  (random numbers, the line-count estimate, statistics, histogram layout,
  plotting through gnuplot).

Calls into `regex`, `rand`, `similar` and `serde_json` that the logic makes go
through small trusted wrappers whose contracts are documented beside them.
