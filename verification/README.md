# notify

A WebSocket notification server for trusted internal environments: clients
subscribe to topics, publish short texts to them, and read a topic's stored
history. Messages are stored in SQLite before they are broadcast.

## Layout

- `src/` — the verified library (Verus):
  - `text.rs` — Unicode whitespace, trimming, characters of a string.
  - `domain.rs` — topic and text validation, the history page size.
  - `protocol.rs` — commands and events, with their mathematical views.
  - `channel.rs` — the tokio queue and close signal of a connection.
  - `hub.rs` — the subscription registry and the fan-out of events, with its
    representation invariant and laws.
  - `session.rs` — what a session does with each command, storage outcome
    and incoming frame.
  - `storage.rs` — schema-script splitting, history query choice, rows to
    payloads.
- `app/` — the server program: configuration from the environment, the
  SQLite store (sqlx), JSON forms of the protocol (serde), the axum
  WebSocket endpoint and the process entry point.
- `tests/` — tests of the library.
