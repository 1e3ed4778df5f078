//! Request model and streaming response decoder for a chat/completion-style
//! HTTP API.
//!
//! The decoder turns raw response-body chunks (an event-stream-like framing of
//! CRLF-separated `data: ` lines) into discrete text fragments; the request
//! model assembles and serializes the outbound payload that produces such a
//! stream.

pub mod decode;
pub mod json;
pub mod request;
