# CISSP Coach

A local CISSP study server: adaptive 50-question batches across the eight
CISSP domains, per-domain difficulty tiers, study-guide PDFs of missed
questions and a chat coach. The decisions of the app live in a library
whose behaviour is stated in `requires` / `ensures` contracts and proved by
Verus; the HTTP server, the database, the model providers and the PDF
renderer wrap it.

## Layout

- `src/` — the verified library
  - `engine.rs` — rolling accuracy as exact fractions, fixed-point domain
    weights, the batch distribution (counts in `[2, 15]` adding up to the
    batch size), stretch questions and tier progression
  - `quiz.rs` — vetting and deduplicating generated questions, balancing the
    correct letters, grading answers, moving through and summarising a batch
  - `prompt.rs` — the question-generation and study-guide prompts
  - `llm.rs` — server-sent-event framing and what each provider event means
  - `llm_json.rs` — cleaning, parsing and salvaging a model's JSON reply
  - `records.rs` — reading model replies and imported dumps into records
  - `export.rs` — writing the data dump that import reads back
  - `dashboard.rs`, `settings.rs`, `data.rs`, `pdf.rs`, `text.rs`
- `tests/` — tests of the library
- `app/` — the server: routes, SQLite, provider streaming, the Python PDF
  renderer and the embedded static files

## Running

Set `OPENAI_API_KEY` and/or `ANTHROPIC_API_KEY` (a `.env` file works), then
build and run the `app/` binary. `BIND_ADDR` (default `127.0.0.1:7878`),
`DATA_DIR` (default `./data`), `DEFAULT_PROVIDER` and `DEFAULT_MODEL` are
optional. Study-guide PDFs need Python 3.10+ with ReportLab and
`scripts/study_guide.py`; `CISSP_PYTHON_BIN` overrides the interpreter.
