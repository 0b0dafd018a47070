# vault_layer

VaultLayer turns a Markdown/Obsidian vault into a rebuildable local read
model: notes, heading sections, WikiLinks, tags and provenance written to
SQLite + FTS5 (or a DuckDB sidecar, a local libSQL file, or an explicit
Turso/libSQL remote), queried from a CLI and a small MCP surface. The vault
stays the source of truth and is only read; every database, cache and
embedding lives outside it.

## Layout

- `src/` — the library, verified with Verus:
  - `text.rs`: character-level primitives (trimming, searching, lines);
  - `ids.rs`: FNV-1a stable hashes and ids;
  - `paths.rs`: Unix path components, joining and containment;
  - `config.rs`: backend selection and the runtime state directory;
  - `note.rs`: frontmatter, sections, WikiLinks, tags, titles and the
    inputs of the human relevance score;
  - `scan.rs`: the walk over a vault's directory tree as read from disk:
    which entries it follows, how notes are named, and the order they are read;
  - `sql.rs`, `statements.rs`: SQL literals, JSON strings, the schema and
    the rows written to each store;
  - `cli.rs`: commands, options, retrieval queries, MCP answers, embedding
    scripts, remote batches and when a remote sync stops;
  - `quality.rs`: the text signals behind the retrieval quality score.
- `tests/` — tests of the library.
- `app/` — the `vault-layer` command: environment, file system, processes,
  the DuckDB/libSQL/sqlite-vec stores, and the floating-point scoring.
