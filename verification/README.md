# stream-translate

Translates the chunk stream of a chat-completion backend into the event stream of the messages
protocol, chunk by chunk. Verified with Verus.

- `src/models/` holds the chunks and the events, each type with its mathematical model.
- `src/translate/stream.rs` holds the state of a stream and the functions that move it forward:
  `initial_state`, `translate_chunk`, `translate_done`, `translate_error`.
- `src/translate/outcome.rs` says what each step does. The contracts of `stream.rs` are stated
  over it.
- `src/translate/json.rs` parses and compares the inputs of tool calls with `serde_json`. All that
  is taken on trust stands there.
- `src/translate/laws/` states what holds of every stream: the order of events, what becomes of
  thinking and text, what becomes of tool calls.
- `app/` reads chunks from JSON text.
