use stream_translate::models::anthropic::{ContentBlockStart, Delta, StreamEvent};
use stream_translate::models::openai::{
    ChoiceDelta, DeltaFunction, DeltaToolCall, StreamChoice, StreamChunk, Usage,
};
use stream_translate::translate::finish::map_stop_reason;
use stream_translate::translate::stream::{
    flush_with_inputs, initial_state, translate_chunk, translate_done, translate_error,
    BufferedToolCall, StreamState,
};

fn nothing() -> ChoiceDelta {
    ChoiceDelta {
        content: None,
        reasoning: None,
        reasoning_content: None,
        tool_calls: None,
    }
}

fn chunk(delta: ChoiceDelta, finish_reason: Option<&str>) -> StreamChunk {
    StreamChunk {
        id: None,
        model: None,
        choices: vec![StreamChoice {
            index: 0,
            delta,
            finish_reason: finish_reason.map(String::from),
        }],
        usage: None,
    }
}

fn text(content: &str) -> StreamChunk {
    let delta = ChoiceDelta {
        content: Some(content.into()),
        ..nothing()
    };
    chunk(delta, None)
}

fn thinking(reasoning: &str) -> StreamChunk {
    let delta = ChoiceDelta {
        reasoning: Some(reasoning.into()),
        ..nothing()
    };
    chunk(delta, None)
}

fn finish(reason: &str) -> StreamChunk {
    chunk(nothing(), Some(reason))
}

fn fragment(
    index: usize,
    id: Option<&str>,
    name: Option<&str>,
    arguments: Option<&str>,
) -> DeltaToolCall {
    DeltaToolCall {
        index,
        id: id.map(String::from),
        call_type: None,
        function: Some(DeltaFunction {
            name: name.map(String::from),
            arguments: arguments.map(String::from),
        }),
    }
}

fn calls(fragments: Vec<DeltaToolCall>) -> StreamChunk {
    let delta = ChoiceDelta {
        tool_calls: Some(fragments),
        ..nothing()
    };
    chunk(delta, None)
}

fn call(index: usize, id: &str, name: &str, arguments: &str) -> DeltaToolCall {
    fragment(index, Some(id), Some(name), Some(arguments))
}

/// One line for each event, with all that it says.
fn told(events: &[StreamEvent]) -> Vec<String> {
    events
        .iter()
        .map(|event| match event {
            StreamEvent::MessageStart { message } => format!(
                "start {} {} {} {} {} {}",
                message.id,
                message.message_type,
                message.role,
                message.model,
                message.usage.input_tokens,
                message.usage.output_tokens
            ),
            StreamEvent::ContentBlockStart {
                index,
                content_block,
            } => match content_block {
                ContentBlockStart::Text { text } => format!("{index} open text {text:?}"),
                ContentBlockStart::Thinking { thinking } => {
                    format!("{index} open thinking {thinking:?}")
                }
                ContentBlockStart::ToolUse { id, name } => format!("{index} open tool {id} {name}"),
            },
            StreamEvent::ContentBlockDelta { index, delta } => match delta {
                Delta::TextDelta { text } => format!("{index} text {text}"),
                Delta::ThinkingDelta { thinking } => format!("{index} thinking {thinking}"),
                Delta::InputJsonDelta { partial_json } => format!("{index} json {partial_json}"),
            },
            StreamEvent::ContentBlockStop { index } => format!("{index} close"),
            StreamEvent::MessageDelta { delta, usage } => format!(
                "end {:?} {:?} {:?} {}",
                delta.stop_reason, delta.stop_sequence, usage.input_tokens, usage.output_tokens
            ),
            StreamEvent::MessageStop => "stop".to_string(),
            StreamEvent::Error { error } => format!("error {} {}", error.error_type, error.message),
        })
        .collect()
}

fn started() -> StreamState {
    let mut state = initial_state("fallback".into());
    let events = translate_chunk(&mut state, &chunk(nothing(), None));
    assert_eq!(told(&events), ["start msg_proxy message assistant fallback 0 0"]);
    state
}

/// The ids of the tool calls that are emitted at the end, out of calls that arrive whole.
fn emitted_ids(whole: Vec<DeltaToolCall>) -> Vec<String> {
    let mut state = started();
    translate_chunk(&mut state, &calls(whole));
    let events = translate_chunk(&mut state, &finish("tool_calls"));
    events
        .iter()
        .filter_map(|event| match event {
            StreamEvent::ContentBlockStart {
                content_block: ContentBlockStart::ToolUse { id, .. },
                ..
            } => Some(id.clone()),
            _ => None,
        })
        .collect()
}

#[test]
fn whole_stream_is_one_message_in_order() {
    let mut state = initial_state("fallback".into());
    let mut events = Vec::new();
    events.extend(translate_chunk(&mut state, &thinking("hm")));
    events.extend(translate_chunk(&mut state, &thinking("...")));
    events.extend(translate_chunk(&mut state, &text("a")));
    events.extend(translate_chunk(&mut state, &text("b")));
    events.extend(translate_chunk(
        &mut state,
        &calls(vec![call(0, "id0", "f", "{}"), call(1, "id1", "g", "")]),
    ));
    events.extend(translate_chunk(&mut state, &text("c")));
    events.extend(translate_chunk(&mut state, &finish("stop")));
    events.extend(translate_done(&mut state));
    assert_eq!(
        told(&events),
        [
            "start msg_proxy message assistant fallback 0 0",
            "0 open thinking \"\"",
            "0 thinking hm",
            "0 thinking ...",
            "0 close",
            "1 open text \"\"",
            "1 text a",
            "1 text b",
            "1 close",
            "2 open tool id0 f",
            "2 json {}",
            "2 close",
            "3 open tool id1 g",
            "3 close",
            "4 open text \"\"",
            "4 text c",
            "4 close",
            "end Some(\"end_turn\") None None 0",
            "stop",
        ]
    );
}

#[test]
fn chunk_with_everything_at_once() {
    let mut state = initial_state("fallback".into());
    let delta = ChoiceDelta {
        content: Some("said".into()),
        reasoning: Some("first".into()),
        reasoning_content: Some("second".into()),
        tool_calls: Some(vec![call(3, "id", "f", "[1]")]),
    };
    let mut all = chunk(delta, Some("length"));
    all.id = Some("m".into());
    all.model = Some("n".into());
    all.usage = Some(Usage {
        prompt_tokens: 5,
        completion_tokens: 6,
        total_tokens: 11,
    });
    assert_eq!(
        told(&translate_chunk(&mut state, &all)),
        [
            "start m message assistant n 0 0",
            "0 open thinking \"\"",
            "0 thinking first",
            "0 thinking second",
            "0 close",
            "1 open text \"\"",
            "1 text said",
            "1 close",
            "2 open tool id f",
            "2 json [1]",
            "2 close",
            "end Some(\"max_tokens\") None Some(5) 6",
        ]
    );
    assert!(state.buffered_tool_calls.is_empty());
}

#[test]
fn message_starts_once() {
    let mut state = started();
    assert_eq!(
        told(&translate_chunk(&mut state, &text("x"))),
        ["0 open text \"\"", "0 text x"]
    );
    assert!(translate_chunk(&mut state, &chunk(nothing(), None)).is_empty());
}

#[test]
fn first_metadata_is_kept() {
    let mut state = initial_state("fallback".into());
    let mut naming = text("");
    naming.choices.clear();
    naming.id = Some("first".into());
    assert!(translate_chunk(&mut state, &naming).is_empty());
    naming.id = Some("second".into());
    naming.model = Some("model".into());
    assert!(translate_chunk(&mut state, &naming).is_empty());
    let mut starting = chunk(nothing(), None);
    starting.id = Some("third".into());
    starting.model = Some("other".into());
    assert_eq!(
        told(&translate_chunk(&mut state, &starting)),
        ["start first message assistant model 0 0"]
    );
}

#[test]
fn only_the_first_choice_counts() {
    let mut state = started();
    let mut two = text("one");
    two.choices.extend(text("two").choices);
    assert_eq!(
        told(&translate_chunk(&mut state, &two)),
        ["0 open text \"\"", "0 text one"]
    );
}

#[test]
fn empty_reasoning_opens_a_block() {
    let mut state = started();
    assert_eq!(
        told(&translate_chunk(&mut state, &thinking(""))),
        ["0 open thinking \"\"", "0 thinking "]
    );
}

#[test]
fn empty_list_of_calls_leaves_the_block_open() {
    let mut state = started();
    translate_chunk(&mut state, &text("a"));
    assert!(translate_chunk(&mut state, &calls(vec![])).is_empty());
    assert_eq!(told(&translate_chunk(&mut state, &text("b"))), ["0 text b"]);
}

#[test]
fn empty_content_leaves_calls_buffered() {
    let mut state = started();
    translate_chunk(&mut state, &calls(vec![call(0, "id", "f", "1")]));
    assert!(translate_chunk(&mut state, &text("")).is_empty());
    assert_eq!(state.buffered_tool_calls.len(), 1);
    assert_eq!(
        told(&translate_chunk(&mut state, &text("x"))),
        [
            "0 open tool id f",
            "0 json 1",
            "0 close",
            "1 open text \"\"",
            "1 text x"
        ]
    );
}

#[test]
fn fragments_are_joined_by_number() {
    let mut state = started();
    translate_chunk(
        &mut state,
        &calls(vec![
            fragment(7, Some("a"), None, Some("{\"k\"")),
            fragment(2, Some("b"), Some("g"), None),
        ]),
    );
    translate_chunk(
        &mut state,
        &calls(vec![
            fragment(2, None, None, Some("[")),
            fragment(7, None, Some("old"), Some(":")),
            fragment(2, None, None, Some("]")),
        ]),
    );
    translate_chunk(
        &mut state,
        &calls(vec![fragment(7, Some("c"), Some("f"), Some("1}"))]),
    );
    let buffered: Vec<_> = state
        .buffered_tool_calls
        .iter()
        .map(|b| format!("{} {} {} {}", b.openai_index, b.id, b.name, b.arguments))
        .collect();
    assert_eq!(buffered, ["7 c f {\"k\":1}", "2 b g []"]);
    assert_eq!(
        told(&translate_done(&mut state)),
        [
            "0 open tool c f",
            "0 json {\"k\":1}",
            "0 close",
            "1 open tool b g",
            "1 json []",
            "1 close",
            "stop"
        ]
    );
}

#[test]
fn fragment_without_function_is_a_call_without_name() {
    let mut state = started();
    let bare = DeltaToolCall {
        index: 4,
        id: Some("id".into()),
        call_type: None,
        function: None,
    };
    translate_chunk(&mut state, &calls(vec![bare]));
    let only = state.buffered_tool_calls[0].clone();
    assert_eq!(only.openai_index, 4);
    assert_eq!(only.id, "id");
    assert_eq!(only.name, "");
    assert_eq!(only.arguments, "");
    assert_eq!(told(&translate_done(&mut state)), ["stop"]);
}

#[test]
fn calls_without_id_or_name_are_dropped() {
    assert_eq!(
        emitted_ids(vec![
            fragment(0, None, Some("f"), Some("1")),
            fragment(1, Some("x"), None, Some("1")),
            fragment(2, Some("y"), Some("f"), Some("1")),
        ]),
        ["y"]
    );
}

#[test]
fn inputs_are_compared_as_json() {
    assert_eq!(
        emitted_ids(vec![
            call(0, "a", "f", "{\"x\":1,\"y\":[true,null]}"),
            call(1, "b", "f", " { \"y\" : [ true , null ] , \"x\" : 1 } "),
            call(2, "c", "f", "{\"x\":1.0,\"y\":[true,null]}"),
            call(3, "d", "g", "{\"x\":1,\"y\":[true,null]}"),
            call(4, "e", "f", "{\"x\":1,\"y\":[null,true]}"),
        ]),
        ["a", "c", "d", "e"]
    );
}

#[test]
fn zero_equals_negative_zero() {
    assert_eq!(
        emitted_ids(vec![call(0, "a", "f", "0.0"), call(1, "b", "f", "-0.0")]),
        ["a"]
    );
}

#[test]
fn arguments_that_are_no_json_count_as_the_empty_object() {
    assert_eq!(
        emitted_ids(vec![
            call(0, "a", "f", "{\"x\":"),
            call(1, "b", "f", "{}"),
            call(2, "c", "f", ""),
            call(3, "d", "f", "{} {}"),
            call(4, "e", "f", "[]"),
        ]),
        ["a", "e"]
    );
    assert_eq!(
        emitted_ids(vec![call(0, "a", "f", "{}"), call(1, "b", "f", "nonsense")]),
        ["a"]
    );
}

#[test]
fn repetitions_across_flushes_are_emitted() {
    let mut state = started();
    translate_chunk(&mut state, &calls(vec![call(0, "a", "f", "1")]));
    assert_eq!(
        told(&translate_done(&mut state)),
        ["0 open tool a f", "0 json 1", "0 close", "stop"]
    );
    translate_chunk(&mut state, &calls(vec![call(0, "b", "f", "1")]));
    assert_eq!(
        told(&translate_done(&mut state)),
        ["1 open tool b f", "1 json 1", "1 close", "stop"]
    );
    assert_eq!(told(&translate_done(&mut state)), ["stop"]);
}

#[test]
fn numbered_inputs_decide_what_repeats() {
    let mut state = started();
    for (openai_index, id) in ["a", "b", "c", "d"].into_iter().enumerate() {
        state.buffered_tool_calls.push(BufferedToolCall {
            id: id.into(),
            name: "f".into(),
            arguments: String::new(),
            openai_index,
        });
    }
    state.buffered_tool_calls[2].id.clear();
    let mut events = Vec::new();
    flush_with_inputs(&mut events, &mut state, &vec![9, 4, 7, 9]);
    assert_eq!(
        told(&events),
        ["0 open tool a f", "0 close", "1 open tool b f", "1 close"]
    );
    assert!(state.buffered_tool_calls.is_empty());
}

#[test]
fn flush_with_nothing_buffered_keeps_the_block() {
    let mut state = started();
    translate_chunk(&mut state, &text("a"));
    let mut events = Vec::new();
    flush_with_inputs(&mut events, &mut state, &vec![]);
    assert!(events.is_empty());
    assert_eq!(told(&translate_chunk(&mut state, &text("b"))), ["0 text b"]);
}

#[test]
fn done_before_any_chunk() {
    let mut state = initial_state("fallback".into());
    assert_eq!(told(&translate_done(&mut state)), ["stop"]);
}

#[test]
fn error_is_a_stream_error() {
    assert_eq!(
        told(&translate_error("connection reset".into())),
        ["error stream_error connection reset"]
    );
}

#[test]
fn stop_reasons() {
    assert_eq!(map_stop_reason(None), None);
    assert_eq!(map_stop_reason(Some("tool_calls")).as_deref(), Some("tool_use"));
    assert_eq!(map_stop_reason(Some("length")).as_deref(), Some("max_tokens"));
    assert_eq!(map_stop_reason(Some("stop")).as_deref(), Some("end_turn"));
    assert_eq!(map_stop_reason(Some("content_filter")).as_deref(), Some("end_turn"));
}

#[test]
fn room_for_blocks() {
    let mut state = started();
    assert!(state.has_room_for_buffered());
    assert!(state.has_room_for(&text("a")));
    translate_chunk(&mut state, &calls(vec![call(0, "a", "f", "1")]));
    assert!(state.has_room_for_buffered());
    assert!(state.has_room_for(&finish("stop")));
}

#[test]
fn message_stops_once_and_last() {
    let mut state = initial_state("fallback".into());
    let mut events = translate_chunk(&mut state, &text("a"));
    events.extend(translate_chunk(&mut state, &finish("stop")));
    events.extend(translate_chunk(&mut state, &text("b")));
    events.extend(translate_chunk(&mut state, &finish("stop")));
    events.extend(translate_done(&mut state));
    let stops: Vec<usize> = (0..events.len())
        .filter(|i| matches!(events[*i], StreamEvent::MessageStop))
        .collect();
    assert_eq!(stops, [events.len() - 1]);
    assert!(matches!(
        events[events.len() - 2],
        StreamEvent::MessageDelta { .. }
    ));
    assert!(matches!(events[0], StreamEvent::MessageStart { .. }));
}

#[test]
fn done_leaves_an_open_block_open() {
    let mut state = started();
    translate_chunk(&mut state, &text("a"));
    assert_eq!(told(&translate_done(&mut state)), ["stop"]);
    assert_eq!(told(&translate_chunk(&mut state, &text("b"))), ["0 text b"]);
}

#[test]
fn new_numbers_come_last_by_first_appearance() {
    let mut state = started();
    let bare = |index| fragment(index, None, None, None);
    translate_chunk(&mut state, &calls(vec![bare(5), bare(1)]));
    translate_chunk(
        &mut state,
        &calls(vec![bare(9), bare(1), bare(3), bare(9), bare(5), bare(0)]),
    );
    let numbers: Vec<usize> = state
        .buffered_tool_calls
        .iter()
        .map(|b| b.openai_index)
        .collect();
    assert_eq!(numbers, [5, 1, 9, 3, 0]);
}

#[test]
fn text_in_pieces_makes_the_same_block() {
    let mut whole = started();
    let mut pieces = started();
    let at_once = told(&translate_chunk(&mut whole, &text("ab")));
    let mut in_turn = told(&translate_chunk(&mut pieces, &text("a")));
    in_turn.extend(told(&translate_chunk(&mut pieces, &text("b"))));
    assert_eq!(at_once, ["0 open text \"\"", "0 text ab"]);
    assert_eq!(in_turn, ["0 open text \"\"", "0 text a", "0 text b"]);
    assert_eq!(format!("{whole:?}"), format!("{pieces:?}"));
}

#[test]
fn second_flush_does_nothing() {
    let mut state = started();
    translate_chunk(&mut state, &calls(vec![call(0, "a", "f", "1")]));
    let mut events = Vec::new();
    flush_with_inputs(&mut events, &mut state, &vec![0]);
    let after = format!("{state:?}");
    assert_eq!(told(&events), ["0 open tool a f", "0 json 1", "0 close"]);
    flush_with_inputs(&mut events, &mut state, &vec![]);
    assert_eq!(events.len(), 3);
    assert_eq!(format!("{state:?}"), after);
}

#[test]
fn closing_happens_once() {
    let mut state = started();
    translate_chunk(&mut state, &text("a"));
    assert_eq!(
        told(&translate_chunk(&mut state, &calls(vec![call(0, "", "f", "1")]))),
        ["0 close"]
    );
    assert!(translate_chunk(&mut state, &calls(vec![call(1, "", "f", "1")])).is_empty());
    assert_eq!(
        told(&translate_chunk(&mut state, &finish("stop"))),
        ["end Some(\"end_turn\") None None 0"]
    );
    assert_eq!(
        told(&translate_chunk(&mut state, &text("b"))),
        ["1 open text \"\"", "1 text b"]
    );
}
