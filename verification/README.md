# rspdl

Readers and writers for RSPDL, a Korean-first declarative language for product specifications,
written in Verus. The library's functions carry `requires`/`ensures` contracts that Verus
proves, and the readers, the formatter and the edits state their results exactly. That a
written document reads back as itself is checked by tests, not stated as a proof.

## Layout

- `src/scanner.rs` — the line scanner: words, quoted names, stable IDs, string literals, and
  the indentation blocks of a source file.
- `src/frontmatter.rs` — the `---` frontmatter block: module, information architecture, screen
  layouts, flows and workflows.
- `src/outline.rs` — logical lines out of the token stream, and which declaration a line opens.
- `src/document.rs` — reading a whole document: the frontmatter, the module, and one
  declaration per top-level line with the block under it.
- `src/parser.rs`, `src/cursor.rs`, `src/blocks.rs`, `src/relation.rs` — the sentence readers:
  module headers, enumerations and data models with their blocks, relations, constraints,
  policies, derivations and field intents.
- `src/screen.rs`, `src/constraint.rs`, `src/list.rs` — screen sentences, the relational rules
  between models and relations, and comma-separated name lists.
- `src/declarations.rs`, `src/creation.rs`, `src/producer.rs`, `src/policy.rs` — the line shapes
  of module and declaration headers, of conditional creation, field and relation producers and
  of policies.
- `src/formatter.rs`, `src/sentence.rs` — the canonical Korean text of a document.
- `src/render.rs`, `src/diagnostic.rs` — structured diagnostics and their Korean messages.
- `src/edit.rs` — structured edits of screen layouts and screen paths by explicit ids, the
  source hash that ties an edit to its source, and the whole edit from request to candidate
  text.
- `src/sdk.rs`, `src/json.rs` — the versioned binding contract and JSON string literals.
- `src/solver.rs` — collision-free solver symbol names and canonical integer text.
- `app/` — serde framing of requests and responses around the library.
- `tests/` — tests of the library on concrete inputs.
