//! What each step of the translation does, as a function from the state of a stream to its next
//! state and the events emitted on the way.

use vstd::prelude::*;

use super::finish;
use super::json;
use crate::models::anthropic::{
    BlockDeltaView, BlockStartView, DeltaUsage, ErrorView, EventView, MessageDeltaView,
    MessageStartView, Usage,
};
use crate::models::openai;
use crate::models::openai::{CallDeltaView, ChoiceView, ChunkView, DeltaView};

verus! {

/// The content block that is open, if any. Tool calls never stay open: they are buffered, and
/// emitted as whole blocks.
pub enum BlockView {
    Idle,
    Thinking,
    Text,
}

/// Model of a buffered tool call.
#[verifier::ext_equal]
pub struct ToolCallView {
    pub id: Seq<char>,
    pub name: Seq<char>,
    pub arguments: Seq<char>,
    pub openai_index: usize,
}

/// Model of the state of a stream.
///
/// `next_index` is the number of the open block, or of the next one where none is open.
#[verifier::ext_equal]
pub struct StreamView {
    pub message_id: Option<Seq<char>>,
    pub model: Option<Seq<char>>,
    pub fallback_model: Seq<char>,
    pub block: BlockView,
    pub next_index: int,
    pub message_started: bool,
    pub buffered: Seq<ToolCallView>,
}

/// Where a stream stands after a step, and the events of that step.
#[verifier::ext_equal]
pub struct Outcome {
    pub state: StreamView,
    pub events: Seq<EventView>,
}

impl Outcome {
    /// This step and then `next`, which starts from `self.state`.
    pub open spec fn extend(self, next: Outcome) -> Outcome {
        Outcome { state: next.state, events: self.events + next.events }
    }
}

/// The step that does nothing.
pub open spec fn unchanged(s: StreamView) -> Outcome {
    Outcome { state: s, events: Seq::empty() }
}

/// The state before the first chunk.
pub open spec fn fresh(fallback_model: Seq<char>) -> StreamView {
    StreamView {
        message_id: None,
        model: None,
        fallback_model,
        block: BlockView::Idle,
        next_index: 0,
        message_started: false,
        buffered: Seq::empty(),
    }
}

/// How many block numbers a state uses or has to keep for its buffered calls.
pub open spec fn reach(s: StreamView) -> int {
    s.next_index + s.buffered.len()
}

/// Whether block numbers suffice for every buffered call and for `extra` blocks more.
pub open spec fn has_room(s: StreamView, extra: int) -> bool {
    reach(s) + extra <= usize::MAX
}

/// The fragments of tool calls in a choice.
pub open spec fn fragments_in(delta: DeltaView) -> Seq<CallDeltaView> {
    delta.tool_calls.unwrap_or(Seq::empty())
}

/// How many blocks a choice can end besides those of the calls buffered before: a text block by
/// thinking, a thinking block by text, the last one by tool calls or by the finish reason, and
/// one for each new tool call.
pub open spec fn blocks_in_choice(choice: ChoiceView) -> int {
    let by_thinking: int = if choice.delta.reasoning is Some
        || choice.delta.reasoning_content is Some {
        1
    } else {
        0
    };
    let by_text: int = if choice.delta.content is Some && choice.delta.content->0.len() > 0 {
        1
    } else {
        0
    };
    let fragments = fragments_in(choice.delta);
    let by_the_rest: int = if fragments.len() > 0 || choice.finish_reason is Some {
        1
    } else {
        0
    };
    by_thinking + by_text + by_the_rest + fragments.len()
}

/// How many blocks a chunk can end besides those of the calls buffered before.
pub open spec fn blocks_in(chunk: ChunkView) -> int {
    if chunk.choices.len() == 0 {
        0
    } else {
        blocks_in_choice(chunk.choices[0])
    }
}

// ---- Metadata ----

/// Keeps what is known, and takes what is offered where nothing is.
pub open spec fn first_known(known: Option<Seq<char>>, offered: Option<Seq<char>>) -> Option<
    Seq<char>,
> {
    if known is Some {
        known
    } else {
        offered
    }
}

/// Learns the message id and the model from the first chunk that names them.
pub open spec fn learn(s: StreamView, chunk: ChunkView) -> StreamView {
    StreamView {
        message_id: first_known(s.message_id, chunk.id),
        model: first_known(s.model, chunk.model),
        ..s
    }
}

/// Opens the message, once.
pub open spec fn start_message(s: StreamView) -> Outcome {
    if s.message_started {
        unchanged(s)
    } else {
        Outcome {
            state: StreamView { message_started: true, ..s },
            events: seq![
                EventView::MessageStart {
                    message: MessageStartView {
                        id: s.message_id.unwrap_or("msg_proxy"@),
                        message_type: "message"@,
                        role: "assistant"@,
                        model: s.model.unwrap_or(s.fallback_model),
                        usage: Usage { input_tokens: 0, output_tokens: 0 },
                    },
                },
            ],
        }
    }
}

// ---- Thinking and text ----

/// Closes the open block, if any.
pub open spec fn close_block(s: StreamView) -> Outcome {
    if s.block is Idle {
        unchanged(s)
    } else {
        Outcome {
            state: StreamView { block: BlockView::Idle, next_index: s.next_index + 1, ..s },
            events: seq![EventView::ContentBlockStop { index: s.next_index }],
        }
    }
}

/// What a block of this kind holds when it opens.
pub open spec fn empty_block(kind: BlockView) -> BlockStartView {
    if kind is Thinking {
        BlockStartView::Thinking { thinking: Seq::empty() }
    } else {
        BlockStartView::Text { text: Seq::empty() }
    }
}

/// The addition of `text` to a block of this kind.
pub open spec fn block_delta(kind: BlockView, text: Seq<char>) -> BlockDeltaView {
    if kind is Thinking {
        BlockDeltaView::ThinkingDelta { thinking: text }
    } else {
        BlockDeltaView::TextDelta { text }
    }
}

/// Makes a block of this kind the open one.
pub open spec fn open_block(s: StreamView, kind: BlockView) -> Outcome {
    if s.block == kind {
        unchanged(s)
    } else {
        let closed = close_block(s);
        closed.extend(
            Outcome {
                state: StreamView { block: kind, ..closed.state },
                events: seq![
                    EventView::ContentBlockStart {
                        index: closed.state.next_index,
                        content_block: empty_block(kind),
                    },
                ],
            },
        )
    }
}

/// Adds `text` to a block of this kind, opening one where it is not the open one.
pub open spec fn write(s: StreamView, kind: BlockView, text: Seq<char>) -> Outcome {
    let opened = open_block(s, kind);
    opened.extend(
        Outcome {
            state: opened.state,
            events: seq![
                EventView::ContentBlockDelta {
                    index: opened.state.next_index,
                    delta: block_delta(kind, text),
                },
            ],
        },
    )
}

/// Thinking, where there is some, comes after the tool calls that preceded it.
pub open spec fn think(s: StreamView, reasoning: Option<Seq<char>>) -> Outcome {
    match reasoning {
        Some(text) => flush(s).extend(write(flush(s).state, BlockView::Thinking, text)),
        None => unchanged(s),
    }
}

/// Text, where there is some that is not empty, comes after the tool calls that preceded it.
pub open spec fn speak(s: StreamView, content: Option<Seq<char>>) -> Outcome {
    match content {
        Some(text) => if text.len() == 0 {
            unchanged(s)
        } else {
            flush(s).extend(write(flush(s).state, BlockView::Text, text))
        },
        None => unchanged(s),
    }
}

// ---- Tool calls ----

/// The numbers that the backend gave to the buffered calls.
pub open spec fn call_indices(buffered: Seq<ToolCallView>) -> Seq<usize> {
    buffered.map_values(|call: ToolCallView| call.openai_index)
}

/// The function name that a fragment gives, if any.
pub open spec fn given_name(fragment: CallDeltaView) -> Option<Seq<char>> {
    match fragment.function {
        Some(function) => function.name,
        None => None,
    }
}

/// The piece of argument text that a fragment brings; empty where it brings none.
pub open spec fn given_arguments(fragment: CallDeltaView) -> Seq<char> {
    match fragment.function {
        Some(function) => function.arguments.unwrap_or(Seq::empty()),
        None => Seq::empty(),
    }
}

/// A call to which nothing is known but its number.
pub open spec fn blank_call(openai_index: usize) -> ToolCallView {
    ToolCallView { id: Seq::empty(), name: Seq::empty(), arguments: Seq::empty(), openai_index }
}

/// A call with a fragment added: an id or a name replaces the one before, arguments are appended.
pub open spec fn merge_into(call: ToolCallView, fragment: CallDeltaView) -> ToolCallView {
    ToolCallView {
        id: fragment.id.unwrap_or(call.id),
        name: given_name(fragment).unwrap_or(call.name),
        arguments: call.arguments + given_arguments(fragment),
        openai_index: call.openai_index,
    }
}

/// Adds a fragment to the first buffered call of the same number, or to a new last one.
pub open spec fn merge_fragment(
    buffered: Seq<ToolCallView>,
    fragment: CallDeltaView,
) -> Seq<ToolCallView> {
    match call_indices(buffered).index_of_first(fragment.index) {
        Some(at) => buffered.update(at, merge_into(buffered[at], fragment)),
        None => buffered.push(merge_into(blank_call(fragment.index), fragment)),
    }
}

/// Adds fragments one after the other.
pub open spec fn merge_fragments(
    buffered: Seq<ToolCallView>,
    fragments: Seq<CallDeltaView>,
) -> Seq<ToolCallView>
    decreases fragments.len(),
{
    if fragments.len() == 0 {
        buffered
    } else {
        merge_fragment(merge_fragments(buffered, fragments.drop_last()), fragments.last())
    }
}

/// A fragment adds one call at most.
pub proof fn lemma_merge_fragments_bounded(
    buffered: Seq<ToolCallView>,
    fragments: Seq<CallDeltaView>,
)
    ensures
        buffered.len() <= merge_fragments(buffered, fragments).len() <= buffered.len()
            + fragments.len(),
    decreases fragments.len(),
{
    if fragments.len() > 0 {
        lemma_merge_fragments_bounded(buffered, fragments.drop_last());
        call_indices(merge_fragments(buffered, fragments.drop_last())).index_of_first_ensures(
            fragments.last().index,
        );
    }
}

/// Buffers the fragments of tool calls; the open block ends where there are any.
pub open spec fn collect(s: StreamView, tool_calls: Option<Seq<CallDeltaView>>) -> Outcome {
    match tool_calls {
        Some(fragments) => if fragments.len() == 0 {
            unchanged(s)
        } else {
            let closed = close_block(s);
            closed.extend(
                unchanged(
                    StreamView {
                        buffered: merge_fragments(closed.state.buffered, fragments),
                        ..closed.state
                    },
                ),
            )
        },
        None => unchanged(s),
    }
}

/// Whether a call is complete enough to be emitted.
pub open spec fn usable(call: ToolCallView) -> bool {
    call.id.len() > 0 && call.name.len() > 0
}

/// Whether call `i` repeats an earlier usable one: the same name with the same input.
///
/// `inputs` stands for the inputs of the calls, in anything that tells equal ones from others.
pub open spec fn repeats_earlier<K>(calls: Seq<ToolCallView>, inputs: Seq<K>, i: int) -> bool {
    exists|j: int|
        #![trigger calls[j]]
        0 <= j < i && usable(calls[j]) && calls[j].name == calls[i].name && inputs[j] == inputs[i]
}

/// The calls to emit among the first `n`: the usable ones, without repetitions, in order.
pub open spec fn distinct_calls<K>(
    calls: Seq<ToolCallView>,
    inputs: Seq<K>,
    n: nat,
) -> Seq<ToolCallView>
    decreases n,
{
    if n == 0 {
        Seq::empty()
    } else {
        let before = distinct_calls(calls, inputs, (n - 1) as nat);
        if usable(calls[n - 1]) && !repeats_earlier(calls, inputs, n - 1) {
            before.push(calls[n - 1])
        } else {
            before
        }
    }
}

/// No more calls are emitted than there are.
pub proof fn lemma_distinct_calls_bounded<K>(calls: Seq<ToolCallView>, inputs: Seq<K>, n: nat)
    ensures
        distinct_calls(calls, inputs, n).len() <= n,
    decreases n,
{
    if n > 0 {
        lemma_distinct_calls_bounded(calls, inputs, (n - 1) as nat);
    }
}

/// Which calls are emitted depends only on which inputs are equal.
pub proof fn lemma_distinct_calls_by_equality<K, L>(
    calls: Seq<ToolCallView>,
    inputs: Seq<K>,
    others: Seq<L>,
    n: nat,
)
    requires
        n <= calls.len(),
        forall|i: int, j: int|
            #![trigger inputs[i], inputs[j]]
            0 <= i < n && 0 <= j < n ==> (inputs[i] == inputs[j] <==> others[i] == others[j]),
    ensures
        distinct_calls(calls, inputs, n) == distinct_calls(calls, others, n),
    decreases n,
{
    if n > 0 {
        lemma_distinct_calls_by_equality(calls, inputs, others, (n - 1) as nat);
        assert(repeats_earlier(calls, inputs, n - 1) == repeats_earlier(calls, others, n - 1));
    }
}

/// A tool call as a whole content block.
pub open spec fn tool_block(call: ToolCallView, index: int) -> Seq<EventView> {
    let start = EventView::ContentBlockStart {
        index,
        content_block: BlockStartView::ToolUse { id: call.id, name: call.name },
    };
    let stop = EventView::ContentBlockStop { index };
    if call.arguments.len() == 0 {
        seq![start, stop]
    } else {
        let delta = EventView::ContentBlockDelta {
            index,
            delta: BlockDeltaView::InputJsonDelta { partial_json: call.arguments },
        };
        seq![start, delta, stop]
    }
}

/// Tool calls as consecutive content blocks, numbered from `first`.
pub open spec fn tool_blocks(calls: Seq<ToolCallView>, first: int) -> Seq<EventView>
    decreases calls.len(),
{
    if calls.len() == 0 {
        Seq::empty()
    } else {
        tool_blocks(calls.drop_last(), first) + tool_block(
            calls.last(),
            first + calls.len() - 1,
        )
    }
}

/// Emits the buffered calls, whose inputs `inputs` stands for, and empties the buffer.
pub open spec fn flush_with<K>(s: StreamView, inputs: Seq<K>) -> Outcome {
    if s.buffered.len() == 0 {
        unchanged(s)
    } else {
        let calls = distinct_calls(s.buffered, inputs, s.buffered.len());
        Outcome {
            state: StreamView {
                block: BlockView::Idle,
                next_index: s.next_index + calls.len(),
                buffered: Seq::empty(),
                ..s
            },
            events: tool_blocks(calls, s.next_index),
        }
    }
}

/// The inputs of the calls, as JSON.
pub open spec fn inputs_of(calls: Seq<ToolCallView>) -> Seq<Seq<char>> {
    calls.map_values(|call: ToolCallView| json::input_content(call.arguments))
}

/// Emits the buffered calls and empties the buffer.
pub open spec fn flush(s: StreamView) -> Outcome {
    flush_with(s, inputs_of(s.buffered))
}

/// Emitting the buffered calls takes no more block numbers than there are calls.
pub proof fn lemma_flush_bounded(s: StreamView)
    ensures
        s.next_index <= flush(s).state.next_index <= s.next_index + s.buffered.len(),
        flush(s).state.buffered.len() == 0,
{
    lemma_distinct_calls_bounded(s.buffered, inputs_of(s.buffered), s.buffered.len());
}

// ---- The end ----

/// The event that says why the message ends and what it cost.
pub open spec fn ending(finish_reason: Seq<char>, usage: Option<openai::Usage>) -> EventView {
    EventView::MessageDelta {
        delta: MessageDeltaView {
            stop_reason: Some(finish::stop_reason(finish_reason)),
            stop_sequence: None,
        },
        usage: match usage {
            Some(counts) => DeltaUsage {
                input_tokens: Some(counts.prompt_tokens),
                output_tokens: counts.completion_tokens,
            },
            None => DeltaUsage { input_tokens: None, output_tokens: 0 },
        },
    }
}

/// Closes the open block and says why the message ends.
pub open spec fn end_message(
    s: StreamView,
    finish_reason: Seq<char>,
    usage: Option<openai::Usage>,
) -> Outcome {
    let closed = close_block(s);
    closed.extend(
        Outcome { state: closed.state, events: seq![ending(finish_reason, usage)] },
    )
}

/// Ends the message where a finish reason is given, after the last tool calls.
pub open spec fn conclude(
    s: StreamView,
    finish_reason: Option<Seq<char>>,
    usage: Option<openai::Usage>,
) -> Outcome {
    match finish_reason {
        Some(reason) => flush(s).extend(end_message(flush(s).state, reason, usage)),
        None => unchanged(s),
    }
}

// ---- Whole steps ----

/// What a choice does before the tool calls in it: it opens the message, thinks and speaks.
pub open spec fn answer(s: StreamView, delta: DeltaView) -> Outcome {
    let started = start_message(s);
    let thought = started.extend(think(started.state, delta.reasoning));
    let reflected = thought.extend(think(thought.state, delta.reasoning_content));
    reflected.extend(speak(reflected.state, delta.content))
}

/// What a choice does before its end: it answers, and its tool calls are buffered.
pub open spec fn progress(s: StreamView, delta: DeltaView) -> Outcome {
    let answered = answer(s, delta);
    answered.extend(collect(answered.state, delta.tool_calls))
}

/// What a chunk does.
pub open spec fn chunk_outcome(s: StreamView, chunk: ChunkView) -> Outcome {
    let known = learn(s, chunk);
    if chunk.choices.len() == 0 {
        unchanged(known)
    } else {
        let choice = chunk.choices[0];
        let progressed = progress(known, choice.delta);
        progressed.extend(conclude(progressed.state, choice.finish_reason, chunk.usage))
    }
}

/// How far the parts of a choice reach, one after the other.
pub proof fn lemma_choice_bounded(s: StreamView, choice: ChoiceView)
    ensures
        ({
            let delta = choice.delta;
            let started = start_message(s).state;
            let thought = think(started, delta.reasoning).state;
            let reflected = think(thought, delta.reasoning_content).state;
            let spoken = speak(reflected, delta.content).state;
            let collected = collect(spoken, delta.tool_calls).state;
            let limit = reach(s) + blocks_in_choice(choice);
            &&& delta.reasoning is Some ==> reach(started) + 1 <= limit
            &&& delta.reasoning_content is Some ==> reach(thought) <= limit && (thought.block
                is Text ==> reach(thought) + 1 <= limit)
            &&& delta.content is Some && delta.content->0.len() > 0 ==> reach(reflected) + 1
                <= limit
            &&& fragments_in(delta).len() > 0 ==> reach(spoken) + 1 <= limit
            &&& choice.finish_reason is Some ==> reach(collected) <= limit && (!(collected.block
                is Idle) ==> reach(collected) + 1 <= limit)
            &&& reach(collected) <= limit
        }),
{
    let delta = choice.delta;
    let started = start_message(s).state;
    let thought = think(started, delta.reasoning).state;
    let reflected = think(thought, delta.reasoning_content).state;
    let spoken = speak(reflected, delta.content).state;
    lemma_flush_bounded(started);
    lemma_flush_bounded(thought);
    lemma_flush_bounded(reflected);
    if let Some(fragments) = delta.tool_calls {
        lemma_merge_fragments_bounded(spoken.buffered, fragments);
    }
}

/// What the end of the stream does.
pub open spec fn done_outcome(s: StreamView) -> Outcome {
    flush(s).extend(Outcome { state: flush(s).state, events: seq![EventView::MessageStop] })
}

/// What a failure of the stream is reported as.
pub open spec fn error_events(message: Seq<char>) -> Seq<EventView> {
    seq![EventView::Error { error: ErrorView { error_type: "stream_error"@, message } }]
}

} // verus!
