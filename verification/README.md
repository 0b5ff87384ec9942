# ragloom

Point ragloom at a folder: it scans the files, chunks each document, embeds
the chunks and upserts deterministic points into Qdrant. Progress is kept in
a newline-delimited JSON write-ahead log so that unacknowledged work can be
replayed after a restart.

## Layout

- `src/` is the library, written in Verus and proved by it. Functions state
  what they return in `requires`/`ensures` contracts. A chunker supplied by
  the user of the library (not one of its own) is trusted for its answer: the
  router then promises only what that chunker itself promises of it:
  - `args`, `cli`, `config`, `observability`: command-line parsing, the run
    configuration and the choices taken from it, logging settings;
  - `transform::chunker`: the recursive, legacy, markdown and code chunkers
    and the extension router;
  - `ids`, `pipeline::points`: file-version identifiers, point identifiers
    and the payload of every point;
  - `state`: the WAL and failed-work records, replay of owed work, and the
    framing of the state files;
  - `pipeline`: planning, progress accounting and the decisions of the
    running pipeline; `source`: change detection;
  - `sink::qdrant`, `doc`: Qdrant endpoints and reply rules, document text
    extraction;
  - `xtask`: the developer quality gate as a step-by-step run.
  Calls into outside crates (BLAKE3, pulldown-cmark, tree-sitter, docx-lite,
  the URL parser) go through small trusted wrappers whose doc comments say
  what is assumed of them. The PDF libraries panic on some malformed
  documents, so `app/` runs them and the library turns what they found into
  the document's text or error.
- `tests/` runs the library on concrete inputs.
- `app/` is the daemon: file and network I/O, the async runtime, the PDF
  libraries, serde encodings of the persisted records, and `main`.

## Not provided

- Token-based sizing (`--size-metric tokens`): the library has no token
  counter, so chunkers configured with the token metric are refused with a
  tokenizer error.
- Semantic chunking: there is no sentence splitter or embedding-signal
  provider; the semantic router accepts a chunker supplied by the caller, and
  the daemon refuses the semantic modes.
- Loading documents from S3: there is no S3 client; documents are read from
  the local filesystem only.
