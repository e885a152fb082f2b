# claude_tools

Three small developer tools, as a Verus-verified library with a thin
command-line front end:

- **audit-unused-dep** (`src/audit.rs`): lists the `[dependencies]` of a
  Cargo manifest that no Rust file refers to by `use name` or `name::`,
  with a confidence (`high` when not even a comment mentions it, `medium`
  otherwise) and a rationale. Comments are removed by a verified scanner
  that keeps `"…"` string literals whole; stripping leaves no comment behind,
  so stripping twice changes nothing.
- **file-adr** (`src/adr.rs`): the next Architecture Decision Record number
  (from the `NNN-*.md` files), its file name (`NNN-slug.md`), its body, and
  the row added to the ADR index table, right after its last row.
- **regression-guard** (`src/guard.rs`): the refactor pattern a commit's diff
  shows, the function it touches, and a REGRESSION-GUARD test skeleton.

`src/text.rs` holds the verified string helpers (line splitting as
`str::lines` does it, joining, decimal formatting and parsing, substring
search). `src/matching.rs` holds the calls into the `regex` crate, and
`src/audit.rs` the calls into `toml_edit`; what they return is named by
uninterpreted spec functions, so the library's contracts say exactly which
patterns are matched against which text, and in what order.

`app/main.rs` parses the command line, reads and writes files, runs `git`, and
prints; it holds no logic of its own.
