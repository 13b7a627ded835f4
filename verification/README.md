# aether

Verified building blocks of the Aether AI gateway: Codex remote-compaction
synthesis for OpenAI Responses traffic, time-of-day pricing windows, the
provider switch that enables synthesis, and the finalize step that applies
synthesis to local responses and streams.

## Layout

- `src/` — the library, written in Verus and verified.
  - `json.rs` — the JSON document model (`Json`, `JsonMap`) the rest reads
    and rewrites.
  - `text.rs` — string helpers (trimming, prefixes, lines, UTF-8) with their
    behaviour stated over `Seq<char>`.
  - `wire.rs` — JSON text and Base64 through `serde_json` and `base64`, and
    the system clock.
  - `clock.rs` — IANA time zones and local wall-clock time through `chrono`
    and `chrono-tz`.
  - `compact_synthesis.rs` — synthesis envelopes, client-body synthesis and
    request preparation.
  - `compact_sse.rs` — synthesis over Server-Sent Event streams.
  - `report_context.rs` — the report-context flags that carry synthesis to
    the finalize hooks.
  - `finalize.rs` — report payloads, client-body synthesis at finalize time
    and the stream rewriter.
  - `codex_config.rs` — the `codex.compact_synthesis_enabled` switch.
  - `time_pricing.rs` — parsing, validation and resolution of time-pricing
    windows.
  - `billing.rs` — billing snapshot status names.
- `tests/` — tests that run the library with the real outside crates.
- `app/` — ordinary Rust around the library: conversions from and to
  `serde_json::Value`, serde forms of library types, and the billing records
  that carry floating-point amounts.
