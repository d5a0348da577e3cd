# MJ Local LLM Hub

A local LLM hub: it recommends models that fit the device, installs them
through a local Ollama runtime, serves an OpenAI-compatible
`/v1/chat/completions` gateway (streaming and non-streaming, with
`json_object` / `json_schema` structured-output checks and provenance
metadata), and keeps chat conversations on disk.

## Layout

- `src/` is the verified library (Verus). Every decision of the hub lives
  there with its contract:
  - `catalog` — the fit of each catalog model by the `f64` ratio of peak RAM
    to device memory, and the stable ranking of recommendations;
  - `api` — request validation, error envelopes, structured-output checks,
    provenance metadata, token check, and the handling of each streamed
    runtime event;
  - `runtime` — the stable error codes, HTTP-status classification, NDJSON
    and server-sent-event frame handling, endpoint ids and adapter status;
  - `stream` — line framing of chunked streams;
  - `store` — the conversation log (keyed by id, listed newest first);
  - `json`, `schema` — JSON documents with a mathematical model, and the
    JSON Schema subset (`type`, `required`, `properties`, `items`);
  - `device`, `text` — parsing of memory reports and the text helpers.
- `app/` is the server process around it: configuration, the axum router,
  the reqwest-based Ollama adapter, file persistence and device probing.
- `tests/` exercises the library on concrete values.

## Provenance

Every non-streamed completion carries `mj.structured_output_mode`, one of
`native | prompt_fallback | unsupported`: `native` when the request gave a
`response_format` (the runtime applies it), `unsupported` when it gave none.

## Running

```bash
ollama serve
MJ_HUB_ASSETS_DIR=/path/with/web-and-catalog cargo run
```

The server reads `web/index.html`, `web/app.js`, `web/styles.css`,
`web/manifest.webmanifest` and `catalog/models.json` from
`MJ_HUB_ASSETS_DIR` (default: the working directory). Other settings:
`MJ_HUB_PORT` (3210), `MJ_HUB_BIND` (loopback only), `OLLAMA_HOST`,
`MJ_HUB_DATA_DIR`, and `MJ_HUB_TOKEN` (at least 32 characters; a random
per-launch token otherwise).
