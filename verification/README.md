# tsukkomi

A chat bot library that keeps a bounded, persistent conversation history for an
LLM agent, with long-term memories per room. The library in `src/` is written in
Verus: each function carries a contract, and the laws the bot relies on are
proved as proof functions beside the code.

- `window` — the batched sliding window that demotes old history in whole
  batches (and a tool result together with its demoted call).
- `memory::jsonl` — the one-record-per-line framing of conversation files;
  what a file reads back as after an append or a rewrite.
- `memory::map`, `memory::store`, `store` — long-term memories of a room and
  where they are kept.
- `memory::remembering` — the memory preamble put before the history.
- `chat` — the payload sent to the model, debouncing, the retry loop, the
  system prompt, image preparation and when to compact.
- `compactor` — what the summariser is given and how its summary is framed.
- `media` — image media types, base64 text and MIME sniffing.
- `bots` — the decisions the chat front ends make about incoming messages.

`app/` is the Telegram front end and the I/O around the library: the agents,
files, locks and serde forms of the payloads.

Notes on choices:

- Long-term memories live in `memory::map::MemoryMap`, a vector of
  key/value pairs with distinct keys, not in `std::collections::HashMap`.
  vstd's `HashMap` specification only holds for key types that satisfy
  `obeys_key_model`, which vstd establishes for integers and `bool`, not for
  `String`; the map's laws could not be proved over a `HashMap<String, _>`.
- `Cargo.toml` pins `takecell` to 0.1.1. The crate's code does not use it:
  `teloxide` depends on it, and its 0.1.2 release requires rustc 1.96,
  while the crate is built with rustc 1.95.
