# fold

Incrementally maintained dataflow over a transactional key-value store
(fjall), and the note-indexing logic of a markdown vault built on it,
verified with Verus.

- `src/pipeline.rs`: `Keyed`, the `Push` trait of pipeline nodes, and the
  model of signed deltas (retraction cancels).
- `src/stream.rs`: the write handle `Tx`, sink-name claims and keyspaces
  (`PipelineInitCtx`), and the write transaction `WriteTx` (reads see the
  transaction's own writes).
- `src/store.rs`, `src/names.rs`: fjall and fxhash behind trusted wrappers.
- `src/text.rs`, `src/tags.rs`, `src/paths.rs`: characters, inline tags,
  sorted tag sets, and `std::path`-style path logic on strings.
- `src/notes.rs`, `src/frontmatter.rs`, `src/index.rs`: notes, the view
  filters, watcher decisions, note parsing, and the batch logic that keeps a
  stream in step with the index of notes.
- `app/`: file reading, the vault scan and the file watcher.
