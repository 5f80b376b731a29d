//! A process-IPC bridge for one supervised worker process.
//!
//! The host exchanges newline-delimited JSON messages with a long-lived
//! worker over its standard streams: one request line, then either exactly
//! one response line (the synchronous channel) or a stream of `progress`
//! envelopes ending in a single `result` or `error` envelope (the streaming
//! query engine). This crate holds the verified heart of that bridge:
//!
//! - `json` — the value model of one message, with field lookup;
//! - `codec` — the wire grammar: how a value is written and read back;
//! - `encode` / `decode` — the executable codec, proved against `codec`;
//! - `roundtrip` — the codec's round-trip law;
//! - `protocol` — envelope classification, the error taxonomy, and the
//!   synchronous channel's view of one exchange;
//! - `stream` — the streaming engine: what each line means and what a whole
//!   exchange delivers;
//! - `request` — the query envelope and the worker's launch arguments;
//! - `chars` — small character-vector helpers.
//!
//! Process spawning, locking and blocking reads live in the host binary,
//! which hands every line to this crate and obeys the decisions it returns.

pub mod chars;
pub mod codec;
pub mod decode;
pub mod encode;
pub mod json;
pub mod protocol;
pub mod request;
pub mod roundtrip;
pub mod stream;
