use stream_translate::models::anthropic::{ContentBlockStart, Delta, StreamEvent};
use stream_translate::models::openai::{
    ChoiceDelta, DeltaFunction, DeltaToolCall, StreamChoice, StreamChunk, Usage,
};
use stream_translate::translate::stream::{
    initial_state, translate_chunk, translate_done, translate_error,
};

fn no_delta() -> ChoiceDelta {
    ChoiceDelta {
        content: None,
        reasoning: None,
        reasoning_content: None,
        tool_calls: None,
    }
}

fn chunk_of(
    id: Option<&str>,
    model: Option<&str>,
    delta: ChoiceDelta,
    finish_reason: Option<&str>,
    usage: Option<Usage>,
) -> StreamChunk {
    StreamChunk {
        id: id.map(String::from),
        model: model.map(String::from),
        choices: vec![StreamChoice {
            index: 0,
            delta,
            finish_reason: finish_reason.map(String::from),
        }],
        usage,
    }
}

fn text_chunk(id: &str, model: &str, content: &str) -> StreamChunk {
    let delta = ChoiceDelta {
        content: Some(content.into()),
        ..no_delta()
    };
    chunk_of(Some(id), Some(model), delta, None, None)
}

fn reasoning_chunk(id: &str, model: &str, reasoning: &str) -> StreamChunk {
    let delta = ChoiceDelta {
        reasoning: Some(reasoning.into()),
        ..no_delta()
    };
    chunk_of(Some(id), Some(model), delta, None, None)
}

fn reasoning_content_chunk(id: &str, model: &str, reasoning: &str) -> StreamChunk {
    let delta = ChoiceDelta {
        reasoning_content: Some(reasoning.into()),
        ..no_delta()
    };
    chunk_of(Some(id), Some(model), delta, None, None)
}

fn finish_chunk(id: &str, model: &str, reason: &str) -> StreamChunk {
    chunk_of(Some(id), Some(model), no_delta(), Some(reason), None)
}

fn finish_chunk_with_usage(
    id: &str,
    model: &str,
    reason: &str,
    prompt_tokens: u32,
    completion_tokens: u32,
) -> StreamChunk {
    let usage = Usage {
        prompt_tokens,
        completion_tokens,
        total_tokens: prompt_tokens + completion_tokens,
    };
    chunk_of(Some(id), Some(model), no_delta(), Some(reason), Some(usage))
}

fn start_fragment(index: usize, tool_id: &str, name: &str) -> DeltaToolCall {
    DeltaToolCall {
        index,
        id: Some(tool_id.into()),
        call_type: Some("function".into()),
        function: Some(DeltaFunction {
            name: Some(name.into()),
            arguments: None,
        }),
    }
}

fn args_fragment(index: usize, args: &str) -> DeltaToolCall {
    DeltaToolCall {
        index,
        id: None,
        call_type: None,
        function: Some(DeltaFunction {
            name: None,
            arguments: Some(args.into()),
        }),
    }
}

fn calls_delta(fragments: Vec<DeltaToolCall>) -> ChoiceDelta {
    ChoiceDelta {
        tool_calls: Some(fragments),
        ..no_delta()
    }
}

fn tool_start_chunk(id: &str, model: &str, tool_id: &str, name: &str) -> StreamChunk {
    let delta = calls_delta(vec![start_fragment(0, tool_id, name)]);
    chunk_of(Some(id), Some(model), delta, None, None)
}

fn tool_args_chunk(id: &str, model: &str, args: &str) -> StreamChunk {
    let delta = calls_delta(vec![args_fragment(0, args)]);
    chunk_of(Some(id), Some(model), delta, None, None)
}

fn event_types(events: &[StreamEvent]) -> Vec<&str> {
    events.iter().map(|e| e.event_type()).collect()
}

#[test]
fn text_stream_produces_correct_event_sequence() {
    let mut state = initial_state("fallback".into());

    let e1 = translate_chunk(&mut state, &text_chunk("1", "gpt-4o", "Hello"));
    assert_eq!(
        event_types(&e1),
        [
            "message_start",
            "content_block_start",
            "content_block_delta"
        ]
    );

    let e2 = translate_chunk(&mut state, &text_chunk("1", "gpt-4o", " world"));
    assert_eq!(event_types(&e2), ["content_block_delta"]);

    let e3 = translate_chunk(&mut state, &finish_chunk("1", "gpt-4o", "stop"));
    assert_eq!(event_types(&e3), ["content_block_stop", "message_delta"]);

    let e4 = translate_done(&mut state);
    assert_eq!(event_types(&e4), ["message_stop"]);
}

#[test]
fn thinking_then_text_produces_two_blocks() {
    let mut state = initial_state("fallback".into());

    let e1 = translate_chunk(&mut state, &reasoning_chunk("1", "gpt-4o", "Let me think"));
    assert_eq!(
        event_types(&e1),
        [
            "message_start",
            "content_block_start",
            "content_block_delta"
        ]
    );

    let e2 = translate_chunk(&mut state, &text_chunk("1", "gpt-4o", "Answer: 42"));
    assert_eq!(
        event_types(&e2),
        [
            "content_block_stop",
            "content_block_start",
            "content_block_delta"
        ]
    );

    if let StreamEvent::ContentBlockStart { index, .. } = &e2[1] {
        assert_eq!(*index, 1);
    } else {
        panic!("expected content_block_start");
    }
}

#[test]
fn reasoning_content_produces_thinking_block() {
    let mut state = initial_state("fallback".into());

    let events = translate_chunk(&mut state, &reasoning_content_chunk("1", "gpt-4o", "Think"));

    assert_eq!(
        event_types(&events),
        [
            "message_start",
            "content_block_start",
            "content_block_delta"
        ]
    );
    if let StreamEvent::ContentBlockDelta { delta, .. } = &events[2] {
        assert!(matches!(delta, Delta::ThinkingDelta { thinking } if thinking == "Think"));
    } else {
        panic!("expected content_block_delta");
    }
}

#[test]
fn tool_call_stream() {
    let mut state = initial_state("fallback".into());

    let e1 = translate_chunk(
        &mut state,
        &tool_start_chunk("1", "gpt-4o", "call_abc", "read_file"),
    );
    assert_eq!(event_types(&e1), ["message_start"]);

    let e2 = translate_chunk(
        &mut state,
        &tool_args_chunk("1", "gpt-4o", "{\"path\":\"/tmp\"}"),
    );
    assert!(event_types(&e2).is_empty());

    let e3 = translate_chunk(&mut state, &finish_chunk("1", "gpt-4o", "tool_calls"));
    assert_eq!(
        event_types(&e3),
        [
            "content_block_start",
            "content_block_delta",
            "content_block_stop",
            "message_delta"
        ]
    );

    if let StreamEvent::ContentBlockStart { content_block, index } = &e3[0] {
        assert_eq!(*index, 0);
        match content_block {
            ContentBlockStart::ToolUse { id, name } => {
                assert_eq!(id, "call_abc");
                assert_eq!(name, "read_file");
            }
            _ => panic!("expected tool_use block"),
        }
    } else {
        panic!("expected content_block_start");
    }

    if let StreamEvent::ContentBlockDelta { delta, index } = &e3[1] {
        assert_eq!(*index, 0);
        match delta {
            Delta::InputJsonDelta { partial_json } => {
                assert_eq!(partial_json, "{\"path\":\"/tmp\"}");
            }
            _ => panic!("expected InputJsonDelta"),
        }
    } else {
        panic!("expected content_block_delta");
    }

    if let StreamEvent::MessageDelta { delta, .. } = &e3[3] {
        assert_eq!(delta.stop_reason.as_deref(), Some("tool_use"));
    } else {
        panic!("expected message_delta");
    }
}

#[test]
fn finish_chunk_with_usage_maps_input_and_output_tokens() {
    let mut state = initial_state("fallback".into());

    translate_chunk(&mut state, &text_chunk("1", "gpt-4o", "Hello"));
    let events = translate_chunk(
        &mut state,
        &finish_chunk_with_usage("1", "gpt-4o", "stop", 7, 3),
    );

    if let StreamEvent::MessageDelta { usage, .. } = &events[1] {
        assert_eq!(usage.input_tokens, Some(7));
        assert_eq!(usage.output_tokens, 3);
    } else {
        panic!("expected message_delta");
    }
}

#[test]
fn text_then_tool_call() {
    let mut state = initial_state("fallback".into());

    translate_chunk(&mut state, &text_chunk("1", "gpt-4o", "I'll read that."));

    let e2 = translate_chunk(
        &mut state,
        &tool_start_chunk("1", "gpt-4o", "call_xyz", "read_file"),
    );

    // The text block ends because tool calls have begun.
    assert_eq!(event_types(&e2), ["content_block_stop"]);
}

#[test]
fn message_start_uses_chunk_metadata() {
    let mut state = initial_state("my-fallback".into());

    let events = translate_chunk(&mut state, &text_chunk("chatcmpl-42", "gpt-4o", "hi"));

    if let StreamEvent::MessageStart { message } = &events[0] {
        assert_eq!(message.id, "chatcmpl-42");
        assert_eq!(message.model, "gpt-4o");
        assert_eq!(message.role, "assistant");
    } else {
        panic!("expected message_start");
    }
}

#[test]
fn fallback_model_used_when_chunk_omits_model() {
    let mut state = initial_state("my-fallback".into());

    let delta = ChoiceDelta {
        content: Some("hey".into()),
        ..no_delta()
    };
    let events = translate_chunk(&mut state, &chunk_of(None, None, delta, None, None));

    if let StreamEvent::MessageStart { message } = &events[0] {
        assert_eq!(message.model, "my-fallback");
    } else {
        panic!("expected message_start");
    }
}

#[test]
fn error_event_produced() {
    let events = translate_error("connection reset".into());
    assert_eq!(event_types(&events), ["error"]);

    if let StreamEvent::Error { error } = &events[0] {
        assert!(error.message.contains("connection reset"));
    } else {
        panic!("expected error");
    }
}

#[test]
fn empty_content_not_emitted() {
    let mut state = initial_state("fallback".into());

    let events = translate_chunk(&mut state, &text_chunk("1", "gpt-4o", ""));

    let deltas: Vec<_> = events
        .iter()
        .filter(|e| matches!(e, StreamEvent::ContentBlockDelta { .. }))
        .collect();
    assert!(deltas.is_empty());
}

#[test]
fn streaming_deduplication() {
    let mut state = initial_state("fallback".into());
    let anonymous = |fragment| chunk_of(None, None, calls_delta(vec![fragment]), None, None);

    // A first tool call.
    let _e1 = translate_chunk(
        &mut state,
        &tool_start_chunk("1", "gpt-4o", "call_1", "read_file"),
    );
    let _e2 = translate_chunk(
        &mut state,
        &tool_args_chunk("1", "gpt-4o", "{\"path\":\"/tmp\"}"),
    );

    // A second one that differs in its number and its id alone.
    let _e3 = translate_chunk(&mut state, &anonymous(start_fragment(1, "call_2", "read_file")));
    let _e4 = translate_chunk(&mut state, &anonymous(args_fragment(1, "{\"path\":\"/tmp\"}")));

    // A third one with another input.
    let _e5 = translate_chunk(&mut state, &anonymous(start_fragment(2, "call_3", "read_file")));
    let _e6 = translate_chunk(
        &mut state,
        &anonymous(args_fragment(2, "{\"path\":\"/etc/hosts\"}")),
    );

    let e7 = translate_chunk(&mut state, &finish_chunk("1", "gpt-4o", "tool_calls"));

    let events = event_types(&e7);
    assert_eq!(
        events,
        [
            "content_block_start",
            "content_block_delta",
            "content_block_stop",
            "content_block_start",
            "content_block_delta",
            "content_block_stop",
            "message_delta"
        ]
    );

    if let StreamEvent::ContentBlockStart { content_block, .. } = &e7[0] {
        if let ContentBlockStart::ToolUse { id, name } = content_block {
            assert_eq!(id, "call_1");
            assert_eq!(name, "read_file");
        } else {
            panic!("expected ToolUse");
        }
    } else {
        panic!("expected content_block_start");
    }

    if let StreamEvent::ContentBlockStart { content_block, .. } = &e7[3] {
        if let ContentBlockStart::ToolUse { id, name } = content_block {
            assert_eq!(id, "call_3");
            assert_eq!(name, "read_file");
        } else {
            panic!("expected ToolUse");
        }
    } else {
        panic!("expected content_block_start");
    }
}
