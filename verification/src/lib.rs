//! Translation of a chat-completion chunk stream into a stream of message events.
//!
//! A backend sends a response as a sequence of [`models::openai::StreamChunk`]s. A client expects
//! the same response as a sequence of [`models::anthropic::StreamEvent`]s: one message, made of
//! consecutively numbered content blocks, each opened, filled and closed in turn.
//! [`translate::stream`] turns the one into the other, chunk by chunk.

pub mod models;
pub mod translate;
