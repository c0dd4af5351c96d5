# lang_turtle

Turtle (RDF) language support for an editor language server, written in Verus:
every function of the library states what it computes in `requires`/`ensures`,
and Verus proves it of all but the few that call outside crates (`url`,
reached through its re-export in `lsp-types`; `sophia_iri`; `similar`) and
`String::push`: those are trusted wrappers in
`iri`, `context` and `text`, whose contracts say what the outside code is
believed to do.

Layout of `src/`:

- `token`, `chars`, `text`, `lexer/` — the tokenizer: a longest-match lexer over
  the Turtle terminals (a DFA per terminal), with byte spans and errors for
  unreadable text. `lexer::parse_tokens_str` is specified by `lex_tokens` /
  `lex_errors`.
- `parser/` — a recursive-descent parser over the tokens (`parser::spec` holds
  the grammar as spec functions; `Ctx` follows it step by step), with a mode
  that skips failing statements (`parse_turtle_retry`) and one that recovers
  (`parse_turtle_recover`): unreadable or missing terms become invalid ones
  and a missing `.` an error, the triple being kept.
- `model/` — the document model, its rendering as Turtle text (`render`),
  range mirroring (`spans`) and expansion of prefixed names (`expand`).
- `triples/` — deriving RDF triples from a document (blank nodes for nested
  lists and collections), IRIs resolved with `sophia_iri`.
- `iri` — the calls into `url` (through `lsp-types`) and `sophia_iri`.
- `context`, `model2`, `document` — following token positions across edits
  (diffs by `similar`) and one parsing step per document version.
- `shacl`, `green`, `shape_completion` — SHACL shapes, the properties they
  give classes (with ids from a `ClassProvider`, such as `ClassIds`), and the
  shapes kept per document URL for snippet completion.
- `completion`, `suggest`, `vocab`, `prefixes` — completion items: subjects,
  classes and properties of linked vocabularies, declared prefixes; the
  prefixes of a document as URLs.
- `utils`, `node`, `lov`, `error` — small shared types.

`app/main.rs` is a thin `tower-lsp` server around the library: diagnostics on
open/change, shape snippet, prefix and subject completions.
