//! The state of a stream, and the functions that move it forward.

use vstd::prelude::*;

use super::finish::map_stop_reason;
use super::json;
use super::outcome;
use super::outcome::{BlockView, StreamView, ToolCallView};
use crate::models::anthropic::{
    ContentBlockStart, Delta, DeltaUsage, ErrorData, MessageDeltaData, MessageStartData,
    StreamEvent, Usage,
};
use crate::models::openai;

verus! {

/// The content block that is open, if any, with its number.
#[derive(Debug)]
enum BlockState {
    Idle,
    Thinking { index: usize },
    Text { index: usize },
}

impl BlockState {
    /// The number of the open block.
    fn current_index(&self) -> (current: Option<usize>)
        ensures
            current == (match *self {
                BlockState::Idle => None::<usize>,
                BlockState::Thinking { index } => Some(index),
                BlockState::Text { index } => Some(index),
            }),
    {
        match self {
            Self::Idle => None,
            Self::Thinking { index } | Self::Text { index } => Some(*index),
        }
    }

    spec fn kind(self) -> BlockView {
        match self {
            BlockState::Idle => BlockView::Idle,
            BlockState::Thinking { .. } => BlockView::Thinking,
            BlockState::Text { .. } => BlockView::Text,
        }
    }
}

/// A tool call of which fragments have arrived and no event has been emitted.
#[derive(Debug)]
pub struct BufferedToolCall {
    pub id: String,
    pub name: String,
    pub arguments: String,
    pub openai_index: usize,
}

impl DeepView for BufferedToolCall {
    type V = ToolCallView;

    open spec fn deep_view(&self) -> ToolCallView {
        ToolCallView {
            id: self.id@,
            name: self.name@,
            arguments: self.arguments@,
            openai_index: self.openai_index,
        }
    }
}

impl BufferedToolCall {
    /// Whether the call is complete enough to be emitted: it has an id and a name.
    fn is_usable(&self) -> (usable: bool)
        ensures
            usable == outcome::usable(self.deep_view()),
    {
        !self.id.as_str().is_empty() && !self.name.as_str().is_empty()
    }
}

impl Clone for BufferedToolCall {
    fn clone(&self) -> (copy: Self)
        ensures
            copy == *self,
    {
        BufferedToolCall {
            id: self.id.clone(),
            name: self.name.clone(),
            arguments: self.arguments.clone(),
            openai_index: self.openai_index,
        }
    }
}

/// The state of a stream between two chunks.
#[derive(Debug)]
pub struct StreamState {
    message_id: Option<String>,
    model: Option<String>,
    fallback_model: String,
    block: BlockState,
    next_index: usize,
    message_started: bool,
    pub buffered_tool_calls: Vec<BufferedToolCall>,
}

impl DeepView for StreamState {
    type V = StreamView;

    closed spec fn deep_view(&self) -> StreamView {
        StreamView {
            message_id: self.message_id.deep_view(),
            model: self.model.deep_view(),
            fallback_model: self.fallback_model@,
            block: self.block.kind(),
            next_index: self.next_index as int,
            message_started: self.message_started,
            buffered: self.buffered_tool_calls.deep_view(),
        }
    }
}

/// Law: the model of a state holds all its fields; of an open block it holds the kind, and the
/// number is the next one.
proof fn law_state_view(state: StreamState)
    requires
        state.wf(),
    ensures
        ({
            let view = state.deep_view();
            &&& view.message_id == state.message_id.deep_view()
            &&& view.model == state.model.deep_view()
            &&& view.fallback_model == state.fallback_model@
            &&& view.next_index == state.next_index
            &&& view.message_started == state.message_started
            &&& view.buffered.len() == state.buffered_tool_calls@.len()
            &&& forall|i: int|
                0 <= i < view.buffered.len() ==> #[trigger] view.buffered[i]
                    == state.buffered_tool_calls@[i].deep_view()
            &&& view.block is Idle <==> state.block is Idle
            &&& view.block is Thinking <==> state.block == (BlockState::Thinking {
                index: state.next_index,
            })
            &&& view.block is Text <==> state.block == (BlockState::Text {
                index: state.next_index,
            })
        }),
{
}

impl StreamState {
    /// An open block bears the next number: the numbers before it belong to closed blocks.
    pub closed spec fn wf(&self) -> bool {
        match self.block {
            BlockState::Idle => true,
            BlockState::Thinking { index } => index == self.next_index,
            BlockState::Text { index } => index == self.next_index,
        }
    }

    /// Whether block numbers suffice for every buffered call and for what the chunk brings.
    pub fn has_room_for(&self, chunk: &openai::StreamChunk) -> (room: bool)
        ensures
            room == outcome::has_room(self.deep_view(), outcome::blocks_in(chunk.deep_view())),
    {
        let mut needed: u128 = self.next_index as u128 + self.buffered_tool_calls.len() as u128;
        if chunk.choices.len() > 0 {
            let choice = &chunk.choices[0];
            assert(chunk.deep_view().choices[0] == choice.deep_view());
            if choice.delta.reasoning.is_some() || choice.delta.reasoning_content.is_some() {
                needed = needed + 1;
            }
            if let Some(content) = &choice.delta.content {
                if !content.as_str().is_empty() {
                    needed = needed + 1;
                }
            }
            let fragments: usize = match &choice.delta.tool_calls {
                Some(tool_calls) => tool_calls.len(),
                None => 0,
            };
            if fragments > 0 || choice.finish_reason.is_some() {
                needed = needed + 1;
            }
            needed = needed + fragments as u128;
        }
        needed <= usize::MAX as u128
    }

    /// Whether block numbers suffice for every buffered call.
    pub fn has_room_for_buffered(&self) -> (room: bool)
        ensures
            room == outcome::has_room(self.deep_view(), 0),
    {
        self.buffered_tool_calls.len() <= usize::MAX - self.next_index
    }
}

/// The state before the first chunk of a stream. `fallback_model` names the model where no chunk
/// does.
pub fn initial_state(fallback_model: String) -> (state: StreamState)
    ensures
        state.wf(),
        state.deep_view() == outcome::fresh(fallback_model@),
{
    StreamState {
        message_id: None,
        model: None,
        fallback_model,
        block: BlockState::Idle,
        next_index: 0,
        message_started: false,
        buffered_tool_calls: Vec::new(),
    }
}

/// Appends an event.
fn emit(events: &mut Vec<StreamEvent>, event: StreamEvent)
    ensures
        final(events).deep_view() == old(events).deep_view().push(event.deep_view()),
{
    events.push(event);
}

/// Whether call `i` repeats an earlier usable one, where equal numbers in `inputs` stand for equal
/// inputs.
fn repeats_earlier(calls: &Vec<BufferedToolCall>, inputs: &Vec<usize>, i: usize) -> (repeats: bool)
    requires
        i < calls.len(),
        inputs.len() == calls.len(),
    ensures
        repeats == outcome::repeats_earlier(calls.deep_view(), inputs@, i as int),
{
    let ghost views = calls.deep_view();
    let mut j: usize = 0;
    while j < i
        invariant
            j <= i < calls.len(),
            inputs.len() == calls.len(),
            views == calls.deep_view(),
            forall|k: int|
                #![trigger views[k]]
                0 <= k < j ==> !(outcome::usable(views[k]) && views[k].name == views[i as int].name
                    && inputs[k] == inputs[i as int]),
        decreases i - j,
    {
        let earlier = &calls[j];
        assert(views[j as int] == earlier.deep_view());
        if earlier.is_usable() && earlier.name == calls[i].name && inputs[j] == inputs[i] {
            return true;
        }
        j = j + 1;
    }
    false
}

/// Emits a tool call as a whole content block.
fn emit_tool_call(events: &mut Vec<StreamEvent>, state: &mut StreamState, call: &BufferedToolCall)
    requires
        old(state).next_index < usize::MAX,
    ensures
        *final(state) == (StreamState {
            next_index: (old(state).next_index + 1) as usize,
            ..*old(state)
        }),
        final(events).deep_view() == old(events).deep_view() + outcome::tool_block(
            call.deep_view(),
            old(state).next_index as int,
        ),
{
    let index = state.next_index;
    emit(
        events,
        StreamEvent::ContentBlockStart {
            index,
            content_block: ContentBlockStart::ToolUse {
                id: call.id.clone(),
                name: call.name.clone(),
            },
        },
    );
    if !call.arguments.as_str().is_empty() {
        emit(
            events,
            StreamEvent::ContentBlockDelta {
                index,
                delta: Delta::InputJsonDelta { partial_json: call.arguments.clone() },
            },
        );
    }
    emit(events, StreamEvent::ContentBlockStop { index });
    state.next_index = index + 1;
}

/// Emits the buffered tool calls and empties the buffer, where equal numbers in `inputs` stand for
/// equal inputs.
pub fn flush_with_inputs(
    events: &mut Vec<StreamEvent>,
    state: &mut StreamState,
    inputs: &Vec<usize>,
)
    requires
        old(state).wf(),
        inputs.len() == old(state).deep_view().buffered.len(),
        outcome::has_room(old(state).deep_view(), 0),
    ensures
        final(state).wf(),
        final(state).deep_view() == outcome::flush_with(old(state).deep_view(), inputs@).state,
        final(events).deep_view() == old(events).deep_view() + outcome::flush_with(
            old(state).deep_view(),
            inputs@,
        ).events,
{
    if state.buffered_tool_calls.is_empty() {
        return;
    }
    let mut buffered: Vec<BufferedToolCall> = Vec::new();
    std::mem::swap(&mut buffered, &mut state.buffered_tool_calls);
    let ghost calls = buffered.deep_view();
    let ghost first = state.next_index as int;
    let mut i: usize = 0;
    while i < buffered.len()
        invariant
            i <= buffered.len(),
            inputs.len() == buffered.len(),
            calls == buffered.deep_view(),
            first + buffered.len() <= usize::MAX,
            first == old(state).next_index,
            outcome::distinct_calls(calls, inputs@, i as nat).len() <= i,
            *state == (StreamState {
                next_index: (first + outcome::distinct_calls(
                    calls,
                    inputs@,
                    i as nat,
                ).len()) as usize,
                buffered_tool_calls: state.buffered_tool_calls,
                ..*old(state)
            }),
            state.buffered_tool_calls@.len() == 0,
            events.deep_view() == old(events).deep_view() + outcome::tool_blocks(
                outcome::distinct_calls(calls, inputs@, i as nat),
                first,
            ),
        decreases buffered.len() - i,
    {
        let call = &buffered[i];
        assert(calls[i as int] == call.deep_view());
        let ghost before = outcome::distinct_calls(calls, inputs@, i as nat);
        if call.is_usable() && !repeats_earlier(&buffered, inputs, i) {
            emit_tool_call(events, state, call);
            assert(before.push(calls[i as int]).drop_last() == before);
        }
        i = i + 1;
    }
    state.block = BlockState::Idle;
}

/// Numbers the inputs of tool calls: each by the first call with an equal input.
fn number_inputs(calls: &Vec<BufferedToolCall>) -> (numbers: Vec<usize>)
    ensures
        numbers.len() == calls.len(),
        forall|i: int|
            0 <= i < calls.len() ==> {
                let contents = outcome::inputs_of(calls.deep_view());
                &&& (#[trigger] numbers[i]) <= i
                &&& contents[numbers[i] as int] == contents[i]
                &&& forall|j: int| 0 <= j < numbers[i] ==> contents[j] != contents[i]
            },
{
    let ghost contents = outcome::inputs_of(calls.deep_view());
    let mut values = Vec::new();
    let mut i: usize = 0;
    while i < calls.len()
        invariant
            i <= calls.len(),
            values.len() == i,
            contents == outcome::inputs_of(calls.deep_view()),
            forall|j: int| 0 <= j < i ==> json::json_content(#[trigger] values[j]) == contents[j],
        decreases calls.len() - i,
    {
        values.push(json::parse_input(calls[i].arguments.as_str()));
        i = i + 1;
    }
    let mut numbers: Vec<usize> = Vec::new();
    let mut i: usize = 0;
    while i < calls.len()
        invariant
            i <= calls.len(),
            values.len() == calls.len(),
            numbers.len() == i,
            contents == outcome::inputs_of(calls.deep_view()),
            contents.len() == calls.len(),
            forall|j: int|
                0 <= j < values.len() ==> json::json_content(#[trigger] values[j]) == contents[j],
            forall|k: int|
                0 <= k < i ==> {
                    &&& (#[trigger] numbers[k]) <= k
                    &&& contents[numbers[k] as int] == contents[k]
                    &&& forall|j: int| 0 <= j < numbers[k] ==> contents[j] != contents[k]
                },
        decreases calls.len() - i,
    {
        let mut j: usize = 0;
        while !json::json_equal(&values[j], &values[i])
            invariant
                j <= i < values.len(),
                forall|k: int|
                    0 <= k < values.len() ==> json::json_content(#[trigger] values[k])
                        == contents[k],
                forall|k: int| 0 <= k < j ==> contents[k] != contents[i as int],
            decreases i - j,
        {
            assert(j != i);
            j = j + 1;
        }
        numbers.push(j);
        i = i + 1;
    }
    numbers
}

/// Emits the buffered tool calls and empties the buffer.
fn flush_buffered_tool_calls(events: &mut Vec<StreamEvent>, state: &mut StreamState)
    requires
        old(state).wf(),
        outcome::has_room(old(state).deep_view(), 0),
    ensures
        final(state).wf(),
        final(state).deep_view() == outcome::flush(old(state).deep_view()).state,
        final(events).deep_view() == old(events).deep_view() + outcome::flush(
            old(state).deep_view(),
        ).events,
{
    let inputs = number_inputs(&state.buffered_tool_calls);
    proof {
        let calls = state.buffered_tool_calls.deep_view();
        outcome::lemma_distinct_calls_by_equality(
            calls,
            inputs@,
            outcome::inputs_of(calls),
            calls.len(),
        );
    }
    flush_with_inputs(events, state, &inputs);
}

/// Closes the open block, if any.
fn close_current_block(events: &mut Vec<StreamEvent>, state: &mut StreamState)
    requires
        old(state).wf(),
        old(state).block is Idle || old(state).next_index < usize::MAX,
    ensures
        final(state).wf(),
        final(state).deep_view() == outcome::close_block(old(state).deep_view()).state,
        final(events).deep_view() == old(events).deep_view() + outcome::close_block(
            old(state).deep_view(),
        ).events,
{
    if let Some(index) = state.block.current_index() {
        emit(events, StreamEvent::ContentBlockStop { index });
        state.next_index = index + 1;
        state.block = BlockState::Idle;
    }
}

/// Adds thinking to the open block, opening a thinking block where it is not one.
fn emit_reasoning(events: &mut Vec<StreamEvent>, state: &mut StreamState, reasoning: &str)
    requires
        old(state).wf(),
        !(old(state).block is Text) || old(state).next_index < usize::MAX,
    ensures
        final(state).wf(),
        final(state).deep_view() == outcome::write(
            old(state).deep_view(),
            BlockView::Thinking,
            reasoning@,
        ).state,
        final(events).deep_view() == old(events).deep_view() + outcome::write(
            old(state).deep_view(),
            BlockView::Thinking,
            reasoning@,
        ).events,
{
    if !matches!(state.block, BlockState::Thinking { .. }) {
        close_current_block(events, state);
        let index = state.next_index;
        emit(
            events,
            StreamEvent::ContentBlockStart {
                index,
                content_block: ContentBlockStart::Thinking { thinking: String::new() },
            },
        );
        state.block = BlockState::Thinking { index };
        assert(events.deep_view() == old(events).deep_view() + outcome::open_block(
            old(state).deep_view(),
            BlockView::Thinking,
        ).events);
    }
    if let BlockState::Thinking { index } = state.block {
        emit(
            events,
            StreamEvent::ContentBlockDelta {
                index,
                delta: Delta::ThinkingDelta { thinking: reasoning.to_owned() },
            },
        );
    }
}

/// Adds text to the open block, opening a text block where it is not one.
fn emit_text(events: &mut Vec<StreamEvent>, state: &mut StreamState, content: &str)
    requires
        old(state).wf(),
        !(old(state).block is Thinking) || old(state).next_index < usize::MAX,
    ensures
        final(state).wf(),
        final(state).deep_view() == outcome::write(
            old(state).deep_view(),
            BlockView::Text,
            content@,
        ).state,
        final(events).deep_view() == old(events).deep_view() + outcome::write(
            old(state).deep_view(),
            BlockView::Text,
            content@,
        ).events,
{
    if !matches!(state.block, BlockState::Text { .. }) {
        close_current_block(events, state);
        let index = state.next_index;
        emit(
            events,
            StreamEvent::ContentBlockStart {
                index,
                content_block: ContentBlockStart::Text { text: String::new() },
            },
        );
        state.block = BlockState::Text { index };
        assert(events.deep_view() == old(events).deep_view() + outcome::open_block(
            old(state).deep_view(),
            BlockView::Text,
        ).events);
    }
    if let BlockState::Text { index } = state.block {
        emit(
            events,
            StreamEvent::ContentBlockDelta {
                index,
                delta: Delta::TextDelta { text: content.to_owned() },
            },
        );
    }
}

/// Where the first buffered call of this number stands.
fn find_buffered(calls: &Vec<BufferedToolCall>, openai_index: usize) -> (at: Option<usize>)
    ensures
        (match at {
            Some(i) => Some(i as int),
            None => None::<int>,
        }) == outcome::call_indices(calls.deep_view()).index_of_first(openai_index),
{
    let ghost indices = outcome::call_indices(calls.deep_view());
    let mut i: usize = 0;
    while i < calls.len()
        invariant
            i <= calls.len(),
            indices == outcome::call_indices(calls.deep_view()),
            forall|j: int| 0 <= j < i ==> indices[j] != openai_index,
        decreases calls.len() - i,
    {
        assert(indices[i as int] == calls[i as int].openai_index);
        if calls[i].openai_index == openai_index {
            proof {
                indices.index_of_first_ensures(openai_index);
            }
            return Some(i);
        }
        i = i + 1;
    }
    proof {
        indices.index_of_first_ensures(openai_index);
    }
    None
}

/// Adds a fragment to a buffered call.
fn merge_into(call: &mut BufferedToolCall, fragment: &openai::DeltaToolCall)
    ensures
        final(call).deep_view() == outcome::merge_into(
            old(call).deep_view(),
            fragment.deep_view(),
        ),
{
    if let Some(id) = &fragment.id {
        call.id = id.clone();
    }
    if let Some(function) = &fragment.function {
        if let Some(name) = &function.name {
            call.name = name.clone();
        }
        if let Some(arguments) = &function.arguments {
            call.arguments.append(arguments.as_str());
        }
    }
}

/// Buffers the fragments of tool calls.
fn emit_tool_calls(state: &mut StreamState, tool_calls: &Vec<openai::DeltaToolCall>)
    requires
        old(state).wf(),
    ensures
        final(state).wf(),
        final(state).deep_view() == (StreamView {
            buffered: outcome::merge_fragments(
                old(state).deep_view().buffered,
                tool_calls.deep_view(),
            ),
            ..old(state).deep_view()
        }),
{
    let ghost fragments = tool_calls.deep_view();
    let mut i: usize = 0;
    while i < tool_calls.len()
        invariant
            i <= tool_calls.len(),
            fragments == tool_calls.deep_view(),
            state.wf(),
            state.deep_view() == (StreamView {
                buffered: outcome::merge_fragments(
                    old(state).deep_view().buffered,
                    fragments.take(i as int),
                ),
                ..old(state).deep_view()
            }),
        decreases tool_calls.len() - i,
    {
        let fragment = &tool_calls[i];
        let ghost before = state.buffered_tool_calls.deep_view();
        proof {
            outcome::call_indices(before).index_of_first_ensures(fragment.index);
        }
        match find_buffered(&state.buffered_tool_calls, fragment.index) {
            Some(at) => {
                let existing = &mut state.buffered_tool_calls[at];
                merge_into(existing, fragment);
            },
            None => {
                let mut call = BufferedToolCall {
                    id: String::new(),
                    name: String::new(),
                    arguments: String::new(),
                    openai_index: fragment.index,
                };
                merge_into(&mut call, fragment);
                state.buffered_tool_calls.push(call);
            },
        }
        assert(state.buffered_tool_calls.deep_view() == outcome::merge_fragment(
            before,
            fragments[i as int],
        ));
        assert(fragments.take(i + 1).drop_last() == fragments.take(i as int));
        i = i + 1;
    }
    assert(fragments.take(i as int) == fragments);
}

/// Closes the open block and says why the message ends.
fn emit_finish(
    events: &mut Vec<StreamEvent>,
    state: &mut StreamState,
    finish_reason: &str,
    usage: Option<&openai::Usage>,
)
    requires
        old(state).wf(),
        old(state).block is Idle || old(state).next_index < usize::MAX,
    ensures
        final(state).wf(),
        final(state).deep_view() == outcome::close_block(old(state).deep_view()).state,
        final(events).deep_view() == old(events).deep_view() + outcome::end_message(
            old(state).deep_view(),
            finish_reason@,
            (match usage {
                Some(counts) => Some(*counts),
                None => None,
            }),
        ).events,
{
    close_current_block(events, state);
    let stop_reason = map_stop_reason(Some(finish_reason));
    let (input_tokens, output_tokens) = match usage {
        Some(counts) => (Some(counts.prompt_tokens), counts.completion_tokens),
        None => (None, 0),
    };
    emit(
        events,
        StreamEvent::MessageDelta {
            delta: MessageDeltaData { stop_reason, stop_sequence: None },
            usage: DeltaUsage { input_tokens, output_tokens },
        },
    );
}

/// Opens the message, once.
fn translate_start(events: &mut Vec<StreamEvent>, state: &mut StreamState)
    requires
        old(state).wf(),
    ensures
        final(state).wf(),
        final(state).deep_view() == outcome::start_message(old(state).deep_view()).state,
        final(events).deep_view() == old(events).deep_view() + outcome::start_message(
            old(state).deep_view(),
        ).events,
{
    if !state.message_started {
        let id = match &state.message_id {
            Some(id) => id.clone(),
            None => "msg_proxy".to_owned(),
        };
        let model = match &state.model {
            Some(model) => model.clone(),
            None => state.fallback_model.clone(),
        };
        emit(
            events,
            StreamEvent::MessageStart {
                message: MessageStartData {
                    id,
                    message_type: "message".to_owned(),
                    role: "assistant".to_owned(),
                    model,
                    usage: Usage { input_tokens: 0, output_tokens: 0 },
                },
            },
        );
        state.message_started = true;
    }
}

/// Emits thinking, where there is some.
fn translate_reasoning(
    events: &mut Vec<StreamEvent>,
    state: &mut StreamState,
    reasoning: &Option<String>,
)
    requires
        old(state).wf(),
        reasoning is Some ==> outcome::has_room(
            old(state).deep_view(),
            if old(state).deep_view().block is Text { 1 } else { 0 },
        ),
    ensures
        final(state).wf(),
        final(state).deep_view() == outcome::think(
            old(state).deep_view(),
            reasoning.deep_view(),
        ).state,
        final(events).deep_view() == old(events).deep_view() + outcome::think(
            old(state).deep_view(),
            reasoning.deep_view(),
        ).events,
{
    if let Some(reasoning) = reasoning {
        proof {
            outcome::lemma_flush_bounded(state.deep_view());
        }
        flush_buffered_tool_calls(events, state);
        emit_reasoning(events, state, reasoning.as_str());
    }
}

/// Emits text, where there is some that is not empty.
fn translate_content(
    events: &mut Vec<StreamEvent>,
    state: &mut StreamState,
    content: &Option<String>,
)
    requires
        old(state).wf(),
        content is Some && content->0@.len() > 0 ==> outcome::has_room(
            old(state).deep_view(),
            if old(state).deep_view().block is Thinking { 1 } else { 0 },
        ),
    ensures
        final(state).wf(),
        final(state).deep_view() == outcome::speak(
            old(state).deep_view(),
            content.deep_view(),
        ).state,
        final(events).deep_view() == old(events).deep_view() + outcome::speak(
            old(state).deep_view(),
            content.deep_view(),
        ).events,
{
    if let Some(content) = content {
        if !content.as_str().is_empty() {
            proof {
                outcome::lemma_flush_bounded(state.deep_view());
            }
            flush_buffered_tool_calls(events, state);
            emit_text(events, state, content.as_str());
        }
    }
}

/// Buffers the fragments of tool calls, where there are any.
fn translate_tool_calls(
    events: &mut Vec<StreamEvent>,
    state: &mut StreamState,
    tool_calls: &Option<Vec<openai::DeltaToolCall>>,
)
    requires
        old(state).wf(),
        tool_calls is Some && tool_calls->0.len() > 0 ==> outcome::has_room(
            old(state).deep_view(),
            1,
        ),
    ensures
        final(state).wf(),
        final(state).deep_view() == outcome::collect(
            old(state).deep_view(),
            tool_calls.deep_view(),
        ).state,
        final(events).deep_view() == old(events).deep_view() + outcome::collect(
            old(state).deep_view(),
            tool_calls.deep_view(),
        ).events,
{
    if let Some(tool_calls) = tool_calls {
        if tool_calls.len() != 0 {
            close_current_block(events, state);
        }
        emit_tool_calls(state, tool_calls);
    }
}

/// Ends the message, where a finish reason is given.
fn translate_finish(
    events: &mut Vec<StreamEvent>,
    state: &mut StreamState,
    finish_reason: &Option<String>,
    usage: &Option<openai::Usage>,
)
    requires
        old(state).wf(),
        finish_reason is Some ==> outcome::has_room(
            old(state).deep_view(),
            if old(state).deep_view().block is Idle { 0 } else { 1 },
        ),
    ensures
        final(state).wf(),
        final(state).deep_view() == outcome::conclude(
            old(state).deep_view(),
            finish_reason.deep_view(),
            *usage,
        ).state,
        final(events).deep_view() == old(events).deep_view() + outcome::conclude(
            old(state).deep_view(),
            finish_reason.deep_view(),
            *usage,
        ).events,
{
    if let Some(finish_reason) = finish_reason {
        proof {
            outcome::lemma_flush_bounded(state.deep_view());
        }
        flush_buffered_tool_calls(events, state);
        emit_finish(events, state, finish_reason.as_str(), usage.as_ref());
    }
}

/// Translates one chunk: moves the state forward and returns the events that the chunk causes.
pub fn translate_chunk(state: &mut StreamState, chunk: &openai::StreamChunk) -> (events: Vec<
    StreamEvent,
>)
    requires
        old(state).wf(),
        outcome::has_room(old(state).deep_view(), outcome::blocks_in(chunk.deep_view())),
    ensures
        final(state).wf(),
        final(state).deep_view() == outcome::chunk_outcome(
            old(state).deep_view(),
            chunk.deep_view(),
        ).state,
        events.deep_view() == outcome::chunk_outcome(
            old(state).deep_view(),
            chunk.deep_view(),
        ).events,
{
    let mut events: Vec<StreamEvent> = Vec::new();
    if let Some(id) = &chunk.id {
        if state.message_id.is_none() {
            state.message_id = Some(id.clone());
        }
    }
    if let Some(model) = &chunk.model {
        if state.model.is_none() {
            state.model = Some(model.clone());
        }
    }
    let ghost known = outcome::learn(old(state).deep_view(), chunk.deep_view());
    assert(state.deep_view() == known);
    if chunk.choices.len() == 0 {
        return events;
    }
    let choice = &chunk.choices[0];
    assert(chunk.deep_view().choices[0] == choice.deep_view());
    proof {
        outcome::lemma_choice_bounded(known, choice.deep_view());
    }
    translate_start(&mut events, state);
    translate_reasoning(&mut events, state, &choice.delta.reasoning);
    translate_reasoning(&mut events, state, &choice.delta.reasoning_content);
    translate_content(&mut events, state, &choice.delta.content);
    translate_tool_calls(&mut events, state, &choice.delta.tool_calls);
    translate_finish(&mut events, state, &choice.finish_reason, &chunk.usage);
    events
}

/// Translates the end of the stream: emits the tool calls still buffered and ends the message.
pub fn translate_done(state: &mut StreamState) -> (events: Vec<StreamEvent>)
    requires
        old(state).wf(),
        outcome::has_room(old(state).deep_view(), 0),
    ensures
        final(state).wf(),
        final(state).deep_view() == outcome::done_outcome(old(state).deep_view()).state,
        events.deep_view() == outcome::done_outcome(old(state).deep_view()).events,
{
    let mut events: Vec<StreamEvent> = Vec::new();
    flush_buffered_tool_calls(&mut events, state);
    emit(&mut events, StreamEvent::MessageStop);
    events
}

/// Translates a failure of the stream into the one event that reports it.
pub fn translate_error(message: String) -> (events: Vec<StreamEvent>)
    ensures
        events.deep_view() == outcome::error_events(message@),
{
    let mut events: Vec<StreamEvent> = Vec::new();
    emit(
        &mut events,
        StreamEvent::Error {
            error: ErrorData { error_type: "stream_error".to_owned(), message },
        },
    );
    events
}

} // verus!
