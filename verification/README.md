# emblem

The front end of Emblem, a typesetting language with markdown-like text
and dot-commands, as a Verus-verified library, with the `em` program around
it.

## Layout

- `src/emblem_core/parser/` — the lexer and parser of Emblem source:
  positions and spans (`point`, `location`), tokens, the lexer (`lexer`,
  `cursor`), the grammar written as an unparser (`grammar`), the parser proved
  against it (`parse`: it returns a document exactly where the tokens read
  as one of the trees it builds), errors and the whole-text driver
  (`driver`).
- `src/parser/` — the older form of the language, with positions whose
  columns count from zero; its text is read by the lexer of
  `src/emblem_core/parser/` with the older rule for verbatim text.
- `src/ast/` — the syntax tree, its textual form, and regions of source.
- `src/lint/` — the lints, each with what it reports stated, and the walk
  that runs them over a document in order.
- `src/log/` — messages, their catalogue with explanations, how a message is
  laid out for showing, and the tally of errors and warnings.
- `src/args/` — command-line values and the rules by which each is read.
- `src/repo.rs`, `src/rc_chunk_allocator.rs` — the repository status
  decision and a chunked value store.
- `src/text.rs`, `src/lines.rs`, `src/pattern.rs`, `src/format.rs` — text
  utilities and the calls into `regex`, `uniquote` and `std` formatting.
- `app/` — the program: command-line reading with clap, file and repository
  access, and printing with annotate-snippets.
- `tests/` — tests of the library.
