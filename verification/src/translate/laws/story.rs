//! What the events tell, with the bounds and the numbers of the blocks left out.

use vstd::prelude::*;

use super::order;
use super::tool_calls;
use crate::models::anthropic::{
    BlockDeltaView, BlockStartView, DeltaUsage, ErrorView, EventView, MessageDeltaView,
    MessageStartView, Usage,
};
use crate::models::openai;
use crate::models::openai::{ChunkView, DeltaView};
use crate::translate::outcome;
use crate::translate::outcome::{BlockView, StreamView, ToolCallView};

verus! {

/// One thing that events tell.
#[verifier::ext_equal]
pub enum Item {
    Started { message: MessageStartView },
    Thought { text: Seq<char> },
    Spoke { text: Seq<char> },
    Called { id: Seq<char>, name: Seq<char> },
    Given { json: Seq<char> },
    Ended { delta: MessageDeltaView, usage: DeltaUsage },
    Stopped,
    Failed { error: ErrorView },
}

/// What an event tells: at most one thing. A block that opens empty tells nothing.
pub open spec fn told_by(event: EventView) -> Seq<Item> {
    match event {
        EventView::MessageStart { message } => seq![Item::Started { message }],
        EventView::ContentBlockStart { content_block, .. } => match content_block {
            BlockStartView::Text { text } => if text.len() == 0 {
                Seq::empty()
            } else {
                seq![Item::Spoke { text }]
            },
            BlockStartView::Thinking { thinking } => if thinking.len() == 0 {
                Seq::empty()
            } else {
                seq![Item::Thought { text: thinking }]
            },
            BlockStartView::ToolUse { id, name } => seq![Item::Called { id, name }],
        },
        EventView::ContentBlockDelta { delta, .. } => match delta {
            BlockDeltaView::TextDelta { text } => seq![Item::Spoke { text }],
            BlockDeltaView::ThinkingDelta { thinking } => seq![Item::Thought { text: thinking }],
            BlockDeltaView::InputJsonDelta { partial_json } => seq![
                Item::Given { json: partial_json },
            ],
        },
        EventView::ContentBlockStop { .. } => Seq::empty(),
        EventView::MessageDelta { delta, usage } => seq![Item::Ended { delta, usage }],
        EventView::MessageStop => seq![Item::Stopped],
        EventView::Error { error } => seq![Item::Failed { error }],
    }
}

/// What events tell, in order.
pub open spec fn story(events: Seq<EventView>) -> Seq<Item>
    decreases events.len(),
{
    if events.len() == 0 {
        Seq::empty()
    } else {
        story(events.drop_last()) + told_by(events.last())
    }
}

/// Tool calls as they are told: each with its id and its name, then its argument text where that
/// is not empty.
pub open spec fn told_calls(calls: Seq<ToolCallView>) -> Seq<Item>
    decreases calls.len(),
{
    if calls.len() == 0 {
        Seq::empty()
    } else {
        let call = calls.last();
        let named = Item::Called { id: call.id, name: call.name };
        told_calls(calls.drop_last()) + if call.arguments.len() == 0 {
            seq![named]
        } else {
            seq![named, Item::Given { json: call.arguments }]
        }
    }
}

/// Thinking as it is told, where there is some.
pub open spec fn told_thinking(reasoning: Option<Seq<char>>) -> Seq<Item> {
    match reasoning {
        Some(text) => seq![Item::Thought { text }],
        None => Seq::empty(),
    }
}

/// Text as it is told, where there is some that is not empty.
pub open spec fn told_text(content: Option<Seq<char>>) -> Seq<Item> {
    if content is Some && content->0.len() > 0 {
        seq![Item::Spoke { text: content->0 }]
    } else {
        Seq::empty()
    }
}

/// The start of the message as it is told: under the id and the model known before, or else under
/// those of the chunk, or else under `msg_proxy` and the fallback model.
pub open spec fn told_start(s: StreamView, chunk: ChunkView) -> Seq<Item> {
    if s.message_started {
        Seq::empty()
    } else {
        seq![
            Item::Started {
                message: MessageStartView {
                    id: match (s.message_id, chunk.id) {
                        (Some(id), _) => id,
                        (None, Some(id)) => id,
                        (None, None) => "msg_proxy"@,
                    },
                    message_type: "message"@,
                    role: "assistant"@,
                    model: match (s.model, chunk.model) {
                        (Some(model), _) => model,
                        (None, Some(model)) => model,
                        (None, None) => s.fallback_model,
                    },
                    usage: Usage { input_tokens: 0, output_tokens: 0 },
                },
            },
        ]
    }
}

/// The end of the message as it is told: the stop reason by the finish reason alone, and the
/// counts of the chunk.
pub open spec fn told_end(finish_reason: Seq<char>, usage: Option<openai::Usage>) -> Item {
    Item::Ended {
        delta: MessageDeltaView {
            stop_reason: Some(
                if finish_reason == "tool_calls"@ {
                    "tool_use"@
                } else if finish_reason == "length"@ {
                    "max_tokens"@
                } else {
                    "end_turn"@
                },
            ),
            stop_sequence: None,
        },
        usage: DeltaUsage {
            input_tokens: match usage {
                Some(counts) => Some(counts.prompt_tokens),
                None => None,
            },
            output_tokens: match usage {
                Some(counts) => counts.completion_tokens,
                None => 0,
            },
        },
    }
}

proof fn lemma_story_concat(a: Seq<EventView>, b: Seq<EventView>)
    ensures
        story(a + b) == story(a) + story(b),
    decreases b.len(),
{
    if b.len() == 0 {
        assert(a + b == a);
    } else {
        lemma_story_concat(a, b.drop_last());
        assert((a + b).drop_last() == a + b.drop_last());
    }
}

proof fn lemma_story_event(event: EventView)
    ensures
        story(seq![event]) == told_by(event),
{
    reveal_with_fuel(story, 2);
    assert(seq![event].drop_last() == Seq::<EventView>::empty());
}

proof fn lemma_tool_blocks_story(calls: Seq<ToolCallView>, first: int)
    ensures
        story(outcome::tool_blocks(calls, first)) == told_calls(calls),
    decreases calls.len(),
{
    if calls.len() > 0 {
        let call = calls.last();
        let before = outcome::tool_blocks(calls.drop_last(), first);
        let block = outcome::tool_block(call, first + calls.len() - 1);
        lemma_tool_blocks_story(calls.drop_last(), first);
        lemma_story_concat(before, block);
        lemma_story_event(block[0]);
        lemma_story_event(block.last());
        lemma_story_concat(seq![block[0]], seq![block.last()]);
        if call.arguments.len() == 0 {
            assert(block == seq![block[0]] + seq![block.last()]);
        } else {
            lemma_story_event(block[1]);
            lemma_story_concat(seq![block[0]], seq![block[1]]);
            lemma_story_concat(seq![block[0]] + seq![block[1]], seq![block.last()]);
            assert(block == seq![block[0]] + seq![block[1]] + seq![block.last()]);
        }
    }
}

/// Law: whatever the state and however inputs are told apart, a flush tells of the calls that it
/// emits and of nothing else, each with its id, its name and its argument text. Where anything
/// was buffered no block stays open; the numbers go on by one for each call; the rest stays.
pub proof fn law_flush_story<K>(s: StreamView, inputs: Seq<K>)
    ensures
        ({
            let step = outcome::flush_with(s, inputs);
            let calls = outcome::distinct_calls(s.buffered, inputs, s.buffered.len());
            &&& story(step.events) == told_calls(calls)
            &&& order::opened_numbers(step.events).len() == calls.len()
            &&& step.state == (StreamView {
                block: if s.buffered.len() == 0 {
                    s.block
                } else {
                    BlockView::Idle
                },
                next_index: s.next_index + calls.len(),
                buffered: Seq::empty(),
                ..s
            })
        }),
{
    let calls = outcome::distinct_calls(s.buffered, inputs, s.buffered.len());
    lemma_tool_blocks_story(calls, s.next_index);
    order::lemma_tool_blocks_opened(calls, s.next_index);
    if s.buffered.len() == 0 {
        assert(s.buffered == Seq::<ToolCallView>::empty());
    }
}

proof fn lemma_close_story(s: StreamView)
    ensures
        story(outcome::close_block(s).events) == Seq::<Item>::empty(),
        order::opened_numbers(outcome::close_block(s).events).len() == 0,
{
    let stop = EventView::ContentBlockStop { index: s.next_index };
    lemma_story_event(stop);
    order::lemma_opened_event(stop);
}

proof fn lemma_write_story(s: StreamView, kind: BlockView, text: Seq<char>)
    requires
        !(kind is Idle),
    ensures
        ({
            let step = outcome::write(s, kind, text);
            &&& story(step.events) == if kind is Thinking {
                seq![Item::Thought { text }]
            } else {
                seq![Item::Spoke { text }]
            }
            &&& order::opened_numbers(step.events).len() == if s.block == kind {
                0nat
            } else {
                1nat
            }
            &&& step.state.block == kind
        }),
{
    let closed = outcome::close_block(s);
    lemma_close_story(s);
    let start = EventView::ContentBlockStart {
        index: closed.state.next_index,
        content_block: outcome::empty_block(kind),
    };
    lemma_story_event(start);
    lemma_story_concat(closed.events, seq![start]);
    order::lemma_opened_event(start);
    order::lemma_opened_concat(closed.events, seq![start]);
    let opened = outcome::open_block(s, kind);
    assert(story(opened.events) == Seq::<Item>::empty());
    let delta = EventView::ContentBlockDelta {
        index: opened.state.next_index,
        delta: outcome::block_delta(kind, text),
    };
    lemma_story_event(delta);
    lemma_story_concat(opened.events, seq![delta]);
    order::lemma_opened_event(delta);
    order::lemma_opened_concat(opened.events, seq![delta]);
}

/// A flush and then thinking or text.
proof fn lemma_flush_and_write_story(s: StreamView, kind: BlockView, text: Seq<char>)
    requires
        !(kind is Idle),
    ensures
        ({
            let flushed = outcome::flush(s);
            let step = flushed.extend(outcome::write(flushed.state, kind, text));
            let calls = tool_calls::to_emit(s.buffered);
            &&& story(step.events) == told_calls(calls) + if kind is Thinking {
                seq![Item::Thought { text }]
            } else {
                seq![Item::Spoke { text }]
            }
            &&& order::opened_numbers(step.events).len() == calls.len() + if s.block == kind
                && s.buffered.len() == 0 {
                0nat
            } else {
                1nat
            }
            &&& step.state.block == kind
            &&& step.state.buffered == Seq::<ToolCallView>::empty()
        }),
{
    let flushed = outcome::flush(s);
    law_flush_story(s, outcome::inputs_of(s.buffered));
    lemma_write_story(flushed.state, kind, text);
    let written = outcome::write(flushed.state, kind, text);
    lemma_story_concat(flushed.events, written.events);
    order::lemma_opened_concat(flushed.events, written.events);
}

/// How many blocks thinking and text open in a state, besides those of flushed calls.
pub open spec fn blocks_opened(s: StreamView, delta: DeltaView) -> nat {
    let thinks = delta.reasoning is Some || delta.reasoning_content is Some;
    let speaks = delta.content is Some && delta.content->0.len() > 0;
    let calls_wait = s.buffered.len() > 0;
    (if thinks && (calls_wait || !(s.block is Thinking)) {
        1nat
    } else {
        0nat
    }) + (if speaks && (thinks || calls_wait || !(s.block is Text)) {
        1nat
    } else {
        0nat
    })
}

/// What thinking and text in a delta tell, and the calls that they flush.
pub open spec fn told_answer(buffered: Seq<ToolCallView>, delta: DeltaView) -> Seq<Item> {
    (if tool_calls::answers(delta) {
        told_calls(tool_calls::to_emit(buffered))
    } else {
        Seq::empty()
    }) + told_thinking(delta.reasoning) + told_thinking(delta.reasoning_content) + told_text(
        delta.content,
    )
}

proof fn lemma_think_story(s: StreamView, reasoning: Option<Seq<char>>)
    ensures
        ({
            let step = outcome::think(s, reasoning);
            let calls = tool_calls::emitted_if(reasoning is Some, s.buffered);
            &&& story(step.events) == told_calls(calls) + told_thinking(reasoning)
            &&& order::opened_numbers(step.events).len() == calls.len() + if reasoning is Some
                && !(s.block is Thinking && s.buffered.len() == 0) {
                1nat
            } else {
                0nat
            }
            &&& step.state.block == if reasoning is Some {
                BlockView::Thinking
            } else {
                s.block
            }
            &&& step.state.buffered == tool_calls::kept_unless(reasoning is Some, s.buffered)
        }),
{
    if let Some(text) = reasoning {
        lemma_flush_and_write_story(s, BlockView::Thinking, text);
    } else {
        assert(story(outcome::think(s, reasoning).events) == Seq::<Item>::empty());
    }
}

proof fn lemma_speak_story(s: StreamView, content: Option<Seq<char>>)
    ensures
        ({
            let step = outcome::speak(s, content);
            let speaks = content is Some && content->0.len() > 0;
            let calls = tool_calls::emitted_if(speaks, s.buffered);
            &&& story(step.events) == told_calls(calls) + told_text(content)
            &&& order::opened_numbers(step.events).len() == calls.len() + if speaks && !(
            s.block is Text && s.buffered.len() == 0) {
                1nat
            } else {
                0nat
            }
            &&& step.state.block == if speaks {
                BlockView::Text
            } else {
                s.block
            }
            &&& step.state.buffered == tool_calls::kept_unless(speaks, s.buffered)
        }),
{
    if content is Some && content->0.len() > 0 {
        lemma_flush_and_write_story(s, BlockView::Text, content->0);
    } else {
        assert(story(outcome::speak(s, content).events) == Seq::<Item>::empty());
    }
}

proof fn lemma_no_calls_told()
    ensures
        told_calls(tool_calls::to_emit(Seq::empty())) == Seq::<Item>::empty(),
        tool_calls::to_emit(Seq::empty()) == Seq::<ToolCallView>::empty(),
        told_calls(Seq::empty()) == Seq::<Item>::empty(),
{
}

/// The block that a delta leaves open before its tool calls.
pub open spec fn block_after_answer(s: StreamView, delta: DeltaView) -> BlockView {
    if delta.content is Some && delta.content->0.len() > 0 {
        BlockView::Text
    } else if delta.reasoning is Some || delta.reasoning_content is Some {
        BlockView::Thinking
    } else {
        s.block
    }
}

proof fn lemma_answer_story(s: StreamView, chunk: ChunkView)
    requires
        chunk.choices.len() > 0,
    ensures
        ({
            let delta = chunk.choices[0].delta;
            let step = outcome::answer(outcome::learn(s, chunk), delta);
            let calls = tool_calls::emitted_if(tool_calls::answers(delta), s.buffered);
            &&& story(step.events) == told_start(s, chunk) + told_answer(s.buffered, delta)
            &&& order::opened_numbers(step.events).len() == calls.len() + blocks_opened(s, delta)
            &&& step.state.block == block_after_answer(s, delta)
            &&& step.state.buffered == tool_calls::kept_unless(
                tool_calls::answers(delta),
                s.buffered,
            )
        }),
{
    let delta = chunk.choices[0].delta;
    let started = outcome::start_message(outcome::learn(s, chunk));
    if started.events.len() > 0 {
        lemma_story_event(started.events[0]);
        order::lemma_opened_event(started.events[0]);
        assert(started.events == seq![started.events[0]]);
    }
    assert(story(started.events) == told_start(s, chunk));
    assert(order::opened_numbers(started.events).len() == 0);
    lemma_no_calls_told();

    let thinks = outcome::think(started.state, delta.reasoning);
    lemma_think_story(started.state, delta.reasoning);
    lemma_story_concat(started.events, thinks.events);
    order::lemma_opened_concat(started.events, thinks.events);
    let thought = started.extend(thinks);

    let reflects = outcome::think(thought.state, delta.reasoning_content);
    lemma_think_story(thought.state, delta.reasoning_content);
    lemma_story_concat(thought.events, reflects.events);
    order::lemma_opened_concat(thought.events, reflects.events);
    let reflected = thought.extend(reflects);

    let speaks = outcome::speak(reflected.state, delta.content);
    lemma_speak_story(reflected.state, delta.content);
    lemma_story_concat(reflected.events, speaks.events);
    order::lemma_opened_concat(reflected.events, speaks.events);
    assert(story(outcome::answer(outcome::learn(s, chunk), delta).events) == told_start(s, chunk)
        + told_answer(s.buffered, delta));
}

/// What the end of a choice tells: the calls buffered by then, and why the message ends.
pub open spec fn told_finish(s: StreamView, chunk: ChunkView) -> Seq<Item> {
    match chunk.choices[0].finish_reason {
        Some(reason) => told_calls(
            tool_calls::to_emit(tool_calls::buffered_by_then(s, chunk.choices[0].delta)),
        ).push(told_end(reason, chunk.usage)),
        None => Seq::empty(),
    }
}

/// Law: what a chunk with a choice tells, whatever the state. First the start of the message, where
/// it has not started; then, where the chunk thinks or speaks, the calls buffered before, the
/// thinking and the text, piece by piece as they are in the chunk; and where it has a finish
/// reason, the calls buffered by then and the end of the message.
pub proof fn law_chunk_story(s: StreamView, chunk: ChunkView)
    requires
        chunk.choices.len() > 0,
    ensures
        story(outcome::chunk_outcome(s, chunk).events) == told_start(s, chunk) + told_answer(
            s.buffered,
            chunk.choices[0].delta,
        ) + told_finish(s, chunk),
{
    lemma_chunk_told(s, chunk);
}

/// Law: how many blocks a chunk with a choice opens, and which one it leaves open, whatever the
/// state. A block opens for each call emitted; for thinking, unless a thinking block is open; and
/// for text, unless a text block is. A finish reason and tool calls leave no block open; text
/// leaves a text block and thinking a thinking block; otherwise the block stays.
pub proof fn law_chunk_blocks(s: StreamView, chunk: ChunkView)
    requires
        chunk.choices.len() > 0,
    ensures
        ({
            let choice = chunk.choices[0];
            let step = outcome::chunk_outcome(s, chunk);
            &&& order::opened_numbers(step.events).len() == tool_calls::emitted_by(s, chunk).len()
                + blocks_opened(s, choice.delta)
            &&& step.state.block == if choice.finish_reason is Some || tool_calls::fragments_of(
                choice.delta,
            ).len() > 0 {
                BlockView::Idle
            } else {
                block_after_answer(s, choice.delta)
            }
        }),
{
    lemma_chunk_told(s, chunk);
}

proof fn lemma_chunk_told(s: StreamView, chunk: ChunkView)
    requires
        chunk.choices.len() > 0,
    ensures
        ({
            let choice = chunk.choices[0];
            let step = outcome::chunk_outcome(s, chunk);
            &&& story(step.events) == told_start(s, chunk) + told_answer(s.buffered, choice.delta)
                + told_finish(s, chunk)
            &&& order::opened_numbers(step.events).len() == tool_calls::emitted_by(s, chunk).len()
                + blocks_opened(s, choice.delta)
            &&& step.state.block == if choice.finish_reason is Some || tool_calls::fragments_of(
                choice.delta,
            ).len() > 0 {
                BlockView::Idle
            } else {
                block_after_answer(s, choice.delta)
            }
        }),
{
    let choice = chunk.choices[0];
    let delta = choice.delta;
    let known = outcome::learn(s, chunk);
    let answered = outcome::answer(known, delta);
    lemma_answer_story(s, chunk);
    let collects = outcome::collect(answered.state, delta.tool_calls);
    lemma_close_story(answered.state);
    assert(collects.events == outcome::close_block(answered.state).events || collects.events
        == Seq::<EventView>::empty());
    lemma_story_concat(answered.events, collects.events);
    order::lemma_opened_concat(answered.events, collects.events);
    let progressed = outcome::progress(known, delta);
    assert(story(progressed.events) == story(answered.events));
    assert(progressed.state.buffered == tool_calls::buffered_by_then(s, delta));
    let concludes = outcome::conclude(progressed.state, choice.finish_reason, chunk.usage);
    lemma_story_concat(progressed.events, concludes.events);
    order::lemma_opened_concat(progressed.events, concludes.events);
    if let Some(reason) = choice.finish_reason {
        let flushed = outcome::flush(progressed.state);
        law_flush_story(progressed.state, outcome::inputs_of(progressed.state.buffered));
        lemma_close_story(flushed.state);
        let closed = outcome::close_block(flushed.state);
        let ending = outcome::ending(reason, chunk.usage);
        lemma_story_event(ending);
        order::lemma_opened_event(ending);
        lemma_story_concat(closed.events, seq![ending]);
        order::lemma_opened_concat(closed.events, seq![ending]);
        lemma_story_concat(flushed.events, closed.events + seq![ending]);
        order::lemma_opened_concat(flushed.events, closed.events + seq![ending]);
        assert(story(concludes.events) == told_finish(s, chunk));
    } else {
        assert(story(concludes.events) == told_finish(s, chunk));
    }
}

/// Law: what the end of a stream tells, whatever the state: the calls still to emit out of the
/// buffer, and that the message stops. The numbers go on by one for each call, nothing stays
/// buffered, no block stays open where anything was buffered, and the rest stays.
pub proof fn law_done_story(s: StreamView)
    ensures
        ({
            let step = outcome::done_outcome(s);
            let calls = tool_calls::to_emit(s.buffered);
            &&& story(step.events) == told_calls(calls).push(Item::Stopped)
            &&& order::opened_numbers(step.events).len() == calls.len()
            &&& step.state == (StreamView {
                block: if s.buffered.len() == 0 {
                    s.block
                } else {
                    BlockView::Idle
                },
                next_index: s.next_index + calls.len(),
                buffered: Seq::empty(),
                ..s
            })
        }),
{
    law_flush_story(s, outcome::inputs_of(s.buffered));
    lemma_story_event(EventView::MessageStop);
    lemma_story_concat(outcome::flush(s).events, seq![EventView::MessageStop]);
    order::lemma_opened_event(EventView::MessageStop);
    order::lemma_opened_concat(outcome::flush(s).events, seq![EventView::MessageStop]);
}

/// Law: a failure is told in one event, under its own message.
pub proof fn law_error_story(message: Seq<char>)
    ensures
        outcome::error_events(message).len() == 1,
        story(outcome::error_events(message)) == seq![
            Item::Failed { error: ErrorView { error_type: "stream_error"@, message } },
        ],
{
    lemma_story_event(outcome::error_events(message)[0]);
    assert(outcome::error_events(message) == seq![outcome::error_events(message)[0]]);
}

} // verus!
