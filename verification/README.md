# portspec

Parse and manipulate TCP/UDP port specifications — comma-separated lists of
ports and ranges such as `22,80,443,1000-2000` — verified by Verus.

The proofs rest on three trusted items for std calls that vstd does not
specify, each with a contract stated in its doc comment: `text::push_char`
(`String::push`), `error::debug_quoted` (`format!("{:?}", ..)` on a string)
and `error::debug_text`, the name for what that formatting gives.

## Layout

- `src/range.rs` — `PortRange` (an inclusive range, modelled as a set of
  integers), its parser and printer, and its double-ended iterator.
- `src/spec.rs` — `PortSpec`, a set of ports kept as a list of ranges in
  normal form (sorted, neither overlapping nor touching); set algebra,
  parsing and printing.
- `src/cover.rs` — the model: which ports a list of ranges covers, the normal
  form, and the lemmas the set operations rest on (including the uniqueness
  of the normal form).
- `src/text.rs` — whitespace trimming, decimal numbers, string conversions.
- `src/proto.rs`, `src/tagged.rs` — `Proto` and `TaggedSpec` (`T:80,U:53`).
- `src/services.rs`, `src/presets.rs` — the built-in service table and port
  presets.
- `src/cli.rs` — what the command decides: how `-` arguments expand into the
  specs read from standard input, how its inputs combine and what it prints.
- `src/laws.rs` — round trips between text and values, the complement
  partition, and the order of iteration.
- `src/presets.rs` also proves that both preset lists parse and that the
  top-1000 preset strictly extends the top-100 one.
- `app/main.rs` — the command-line program: arguments, standard input and
  output, exit codes, JSON rendering.
- `tests/` — the test suite.
