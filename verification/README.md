# data_heap

Core of a text ingestion service: Telegram bots feed messages into spaces,
each message is classified (text, link or caption; the `voice` kind is
reserved for transcripts, while the bots still answer voice messages as
unsupported) and stored once, and consumer agents list what they have not processed yet and mark it
processed.

`src/` is the library, verified with Verus:

- `domain` — items, sources, spaces, the classification of incoming
  messages, and the storage port.
- `store` — the storage rules over in-memory tables (dedup by Telegram
  message, soft deletion, per-agent processed marks, listing oldest first),
  with their laws proved over `StoreView`.
- `record` — the stored layout of an item and its decoding.
- `telegram` — what each Bot API update leads to, the polling offset, the
  save confirmation and its delete button, voice file names and size bounds.
- `transcription` — which speech-to-text backend a source gets (a hosted
  provider at its default or configured endpoint, or a local Whisper server),
  and the text of a failed request.
- `config` — the rules a configuration must meet.
- `http_api` — request checks and error answers of the consumer API.
- `text`, `decimal` — trimming, substring search, and integer text.

`app/` is the daemon around it: TOML loading, SQLite, the Bot API and
transcription HTTP calls, the axum server, and the async loops.
