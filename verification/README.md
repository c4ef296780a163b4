# lalalm

The core of LalaLM, a desktop manager for local large language models
(search Hugging Face / hf-mirror / ModelScope, download with aria2c, list and
manage the models on this machine), written in Verus: the library's
functions carry contracts that Verus proves.

What is trusted rather than proved: 15 small wrappers marked
`#[verifier::external_body]`, each making one call into std, `rand` or
`regex` (path joining, lossy UTF-8/UTF-16 decoding, `String::from_utf8`,
`String::push`, Unicode case mapping and `is_alphanumeric`, the thread's
random generator and `gen_range` / `Alphanumeric`, the system clock,
`Regex::replace`), and three outside types declared opaque (`ThreadRng`,
`SystemTime`, `SystemTimeError`). Their contracts, stated in their doc
comments, are believed as written. `downloads::now` reads the clock and
has no contract: any time is a possible answer.

## Layout

- `src/` — the verified library.
  - `text.rs`, `unicode.rs`, `sort.rs`: character-sequence helpers, case
    mapping, a verified stable merge sort.
  - `gguf.rs`: the GGUF header reader (architecture, quantization, context
    length, …) on the bytes of a file, quantization labels and their ranking.
  - `hub.rs`, `listing.rs`: repository files, formats and variants (which
    quantization is recommended), search URLs, reading the hubs' listings,
    detail pages, avatars.
  - `config.rs`, `proxy.rs`: settings, URLs and percent-encoding, LM Studio's
    `downloadsFolder`, system proxy parsing (macOS `scutil`, Windows registry,
    environment).
  - `downloads.rs`, `engine.rs`: the download task list and its state
    machine (pause / resume / cancel / retry / reconcile with the engine's
    reports, or progress of the app's own downloader when the engine is
    switched off), the aria2c command line.
  - `registry.rs`: local model listing (deduplication, metadata, ordering),
    ids, move / delete results.
  - `gpu.rs`: GPU and disk choice from the platforms' tool output.
  - `commands.rs`: the rules behind the front end's commands.
- `tests/` — tests on concrete values.
- `app/` — the desktop shell: window, tray, commands, HTTP, the aria2c
  process, file system and serialization; it calls the library for every
  decision.
