//! The order in which events come.

use vstd::prelude::*;

use super::tool_calls;
use crate::models::anthropic::{
    BlockDeltaView, BlockStartView, EventView, MessageStartView, Usage,
};
use crate::models::openai;
use crate::models::openai::{CallDeltaView, ChunkView, DeltaView};
use crate::translate::outcome;
use crate::translate::outcome::{BlockView, Outcome, StreamView, ToolCallView};

verus! {

// ---- The order of events ----

/// The content block that is open as the receiver of the events sees it.
pub enum OpenBlock {
    Closed,
    Thinking,
    Text,
    ToolUse,
}

/// How far a message has come as the receiver of the events sees it: `next_index` is the number
/// of the open block, or of the next one where none is open.
pub struct Received {
    pub started: bool,
    pub open: OpenBlock,
    pub next_index: int,
    pub ended: bool,
}

/// The kind of block that an event opens.
pub open spec fn opened_kind(block: BlockStartView) -> OpenBlock {
    match block {
        BlockStartView::Text { .. } => OpenBlock::Text,
        BlockStartView::Thinking { .. } => OpenBlock::Thinking,
        BlockStartView::ToolUse { .. } => OpenBlock::ToolUse,
    }
}

/// The kind of block to which an addition belongs.
pub open spec fn filled_kind(delta: BlockDeltaView) -> OpenBlock {
    match delta {
        BlockDeltaView::TextDelta { .. } => OpenBlock::Text,
        BlockDeltaView::ThinkingDelta { .. } => OpenBlock::Thinking,
        BlockDeltaView::InputJsonDelta { .. } => OpenBlock::ToolUse,
    }
}

/// Whether an event may come next.
///
/// A message starts once and before all else. One block is open at a time. Blocks are numbered in
/// the order in which they open. What is added to a block is of its kind. A message stops once,
/// between blocks, and nothing comes after that.
pub open spec fn may_come(r: Received, event: EventView) -> bool {
    &&& !r.ended
    &&& match event {
        EventView::MessageStart { .. } => !r.started && r.open is Closed,
        EventView::ContentBlockStart { index, .. } => r.started && r.open is Closed && index
            == r.next_index,
        EventView::ContentBlockDelta { index, delta } => r.started && r.open == filled_kind(delta)
            && index == r.next_index,
        EventView::ContentBlockStop { index } => r.started && !(r.open is Closed) && index
            == r.next_index,
        EventView::MessageDelta { .. } => r.started && r.open is Closed,
        EventView::MessageStop => r.started && r.open is Closed,
        EventView::Error { .. } => false,
    }
}

/// How far the message has come after an event.
pub open spec fn receive(r: Received, event: EventView) -> Received {
    match event {
        EventView::MessageStart { .. } => Received { started: true, ..r },
        EventView::ContentBlockStart { content_block, .. } => Received {
            open: opened_kind(content_block),
            ..r
        },
        EventView::ContentBlockStop { .. } => Received {
            open: OpenBlock::Closed,
            next_index: r.next_index + 1,
            ..r
        },
        EventView::MessageStop => Received { ended: true, ..r },
        _ => r,
    }
}

/// How far the message has come after events.
pub open spec fn receive_all(r: Received, events: Seq<EventView>) -> Received
    decreases events.len(),
{
    if events.len() == 0 {
        r
    } else {
        receive(receive_all(r, events.drop_last()), events.last())
    }
}

/// Whether each of the events may come when it comes.
pub open spec fn in_order(r: Received, events: Seq<EventView>) -> bool
    decreases events.len(),
{
    events.len() == 0 || (in_order(r, events.drop_last()) && may_come(
        receive_all(r, events.drop_last()),
        events.last(),
    ))
}

/// What the receiver has seen of a stream in this state.
pub open spec fn seen_of(s: StreamView) -> Received {
    Received {
        started: s.message_started,
        open: match s.block {
            BlockView::Idle => OpenBlock::Closed,
            BlockView::Thinking => OpenBlock::Thinking,
            BlockView::Text => OpenBlock::Text,
        },
        next_index: s.next_index,
        ended: false,
    }
}

/// What is so of the state of a stream between chunks: there is no block and no buffered call
/// before the message starts, no block is open while calls are buffered, and the buffered calls
/// bear different numbers.
pub open spec fn orderly(s: StreamView) -> bool {
    &&& !(s.block is Idle) ==> s.message_started
    &&& s.buffered.len() > 0 ==> s.message_started && s.block is Idle
    &&& outcome::call_indices(s.buffered).no_duplicates()
}

/// A step from `s` whose events come in order, after which the receiver has seen what the state
/// says, and after which the state is orderly.
pub open spec fn sound(s: StreamView, step: Outcome) -> bool {
    &&& in_order(seen_of(s), step.events)
    &&& receive_all(seen_of(s), step.events) == seen_of(step.state)
    &&& orderly(step.state)
}

/// What the order of events rests on: a block is open only where the message has started and
/// nothing is buffered.
pub open spec fn settled(s: StreamView) -> bool {
    !(s.block is Idle) ==> s.message_started && s.buffered.len() == 0
}

/// A step from `s` whose events come in order, after which the receiver has seen what the state
/// says, and after which the state is settled.
pub open spec fn keeps_order(s: StreamView, step: Outcome) -> bool {
    &&& in_order(seen_of(s), step.events)
    &&& receive_all(seen_of(s), step.events) == seen_of(step.state)
    &&& settled(step.state)
}

/// Events in order, followed by events in order from there, are in order.
pub proof fn lemma_in_order_concat(r: Received, a: Seq<EventView>, b: Seq<EventView>)
    requires
        in_order(r, a),
        in_order(receive_all(r, a), b),
    ensures
        in_order(r, a + b),
        receive_all(r, a + b) == receive_all(receive_all(r, a), b),
    decreases b.len(),
{
    if b.len() == 0 {
        assert(a + b == a);
    } else {
        lemma_in_order_concat(r, a, b.drop_last());
        assert((a + b).drop_last() == a + b.drop_last());
    }
}

proof fn lemma_sound_extend(s: StreamView, first: Outcome, second: Outcome)
    requires
        keeps_order(s, first),
        keeps_order(first.state, second),
    ensures
        keeps_order(s, first.extend(second)),
{
    lemma_in_order_concat(seen_of(s), first.events, second.events);
}

/// A step of one event.
proof fn lemma_sound_event(s: StreamView, next: StreamView, event: EventView)
    requires
        may_come(seen_of(s), event),
        receive(seen_of(s), event) == seen_of(next),
        settled(next),
    ensures
        keeps_order(s, Outcome { state: next, events: seq![event] }),
{
    reveal_with_fuel(in_order, 2);
    reveal_with_fuel(receive_all, 2);
    assert(seq![event].drop_last() == Seq::<EventView>::empty());
}

proof fn lemma_tool_block_in_order(r: Received, call: ToolCallView)
    requires
        r.started,
        r.open is Closed,
        !r.ended,
    ensures
        in_order(r, outcome::tool_block(call, r.next_index)),
        receive_all(r, outcome::tool_block(call, r.next_index)) == (Received {
            next_index: r.next_index + 1,
            ..r
        }),
{
    reveal_with_fuel(in_order, 4);
    reveal_with_fuel(receive_all, 4);
    let events = outcome::tool_block(call, r.next_index);
    assert(events.drop_last() == seq![events[0]] || events.drop_last() == seq![
        events[0],
        events[1],
    ]);
    assert(seq![events[0], events[1]].drop_last() == seq![events[0]]);
    assert(seq![events[0]].drop_last() == Seq::<EventView>::empty());
}

proof fn lemma_tool_blocks_in_order(r: Received, calls: Seq<ToolCallView>)
    requires
        r.started,
        r.open is Closed,
        !r.ended,
    ensures
        in_order(r, outcome::tool_blocks(calls, r.next_index)),
        receive_all(r, outcome::tool_blocks(calls, r.next_index)) == (Received {
            next_index: r.next_index + calls.len(),
            ..r
        }),
    decreases calls.len(),
{
    if calls.len() > 0 {
        lemma_tool_blocks_in_order(r, calls.drop_last());
        let before = outcome::tool_blocks(calls.drop_last(), r.next_index);
        lemma_tool_block_in_order(receive_all(r, before), calls.last());
        lemma_in_order_concat(
            r,
            before,
            outcome::tool_block(calls.last(), r.next_index + calls.len() - 1),
        );
    }
}

proof fn lemma_flush_sound(s: StreamView)
    requires
        settled(s),
        s.message_started,
    ensures
        keeps_order(s, outcome::flush(s)),
{
    if s.buffered.len() > 0 {
        let calls = outcome::distinct_calls(
            s.buffered,
            outcome::inputs_of(s.buffered),
            s.buffered.len(),
        );
        lemma_tool_blocks_in_order(seen_of(s), calls);
    }
}

proof fn lemma_close_sound(s: StreamView)
    requires
        settled(s),
    ensures
        keeps_order(s, outcome::close_block(s)),
{
    if !(s.block is Idle) {
        lemma_sound_event(
            s,
            outcome::close_block(s).state,
            EventView::ContentBlockStop { index: s.next_index },
        );
    }
}

proof fn lemma_write_sound(s: StreamView, kind: BlockView, text: Seq<char>)
    requires
        settled(s),
        s.message_started,
        s.buffered.len() == 0,
        !(kind is Idle),
    ensures
        keeps_order(s, outcome::write(s, kind, text)),
{
    let opened = outcome::open_block(s, kind);
    if s.block != kind {
        let closed = outcome::close_block(s);
        lemma_close_sound(s);
        let next = StreamView { block: kind, ..closed.state };
        let start = EventView::ContentBlockStart {
            index: closed.state.next_index,
            content_block: outcome::empty_block(kind),
        };
        lemma_sound_event(closed.state, next, start);
        lemma_sound_extend(s, closed, Outcome { state: next, events: seq![start] });
    }
    let delta = EventView::ContentBlockDelta {
        index: opened.state.next_index,
        delta: outcome::block_delta(kind, text),
    };
    lemma_sound_event(opened.state, opened.state, delta);
    lemma_sound_extend(s, opened, Outcome { state: opened.state, events: seq![delta] });
}

proof fn lemma_think_sound(s: StreamView, reasoning: Option<Seq<char>>)
    requires
        settled(s),
        s.message_started,
    ensures
        keeps_order(s, outcome::think(s, reasoning)),
        outcome::think(s, reasoning).state.message_started,
{
    if let Some(text) = reasoning {
        lemma_flush_sound(s);
        let flushed = outcome::flush(s);
        lemma_write_sound(flushed.state, BlockView::Thinking, text);
        lemma_sound_extend(s, flushed, outcome::write(flushed.state, BlockView::Thinking, text));
    }
}

proof fn lemma_speak_sound(s: StreamView, content: Option<Seq<char>>)
    requires
        settled(s),
        s.message_started,
    ensures
        keeps_order(s, outcome::speak(s, content)),
        outcome::speak(s, content).state.message_started,
{
    if let Some(text) = content {
        lemma_flush_sound(s);
        let flushed = outcome::flush(s);
        lemma_write_sound(flushed.state, BlockView::Text, text);
        lemma_sound_extend(s, flushed, outcome::write(flushed.state, BlockView::Text, text));
    }
}

proof fn lemma_collect_sound(s: StreamView, tool_calls: Option<Seq<CallDeltaView>>)
    requires
        settled(s),
        s.message_started,
    ensures
        keeps_order(s, outcome::collect(s, tool_calls)),
        outcome::collect(s, tool_calls).state.message_started,
{
    if let Some(fragments) = tool_calls {
        if fragments.len() > 0 {
            lemma_close_sound(s);
            let closed = outcome::close_block(s);
            assert(closed.events + Seq::<EventView>::empty() == closed.events);
        }
    }
}

proof fn lemma_conclude_sound(
    s: StreamView,
    finish_reason: Option<Seq<char>>,
    usage: Option<openai::Usage>,
)
    requires
        settled(s),
        s.message_started,
    ensures
        keeps_order(s, outcome::conclude(s, finish_reason, usage)),
{
    if let Some(reason) = finish_reason {
        lemma_flush_sound(s);
        let flushed = outcome::flush(s);
        lemma_close_sound(flushed.state);
        let closed = outcome::close_block(flushed.state);
        let ending = outcome::ending(reason, usage);
        lemma_sound_event(closed.state, closed.state, ending);
        lemma_sound_extend(
            flushed.state,
            closed,
            Outcome { state: closed.state, events: seq![ending] },
        );
        lemma_sound_extend(s, flushed, outcome::end_message(flushed.state, reason, usage));
    }
}

proof fn lemma_progress_sound(s: StreamView, delta: DeltaView)
    requires
        settled(s),
    ensures
        keeps_order(s, outcome::progress(s, delta)),
        outcome::progress(s, delta).state.message_started,
{
    let started = outcome::start_message(s);
    if !s.message_started {
        lemma_sound_event(s, started.state, started.events[0]);
        assert(started.events == seq![started.events[0]]);
    }
    lemma_think_sound(started.state, delta.reasoning);
    lemma_sound_extend(s, started, outcome::think(started.state, delta.reasoning));
    let thought = started.extend(outcome::think(started.state, delta.reasoning));
    lemma_think_sound(thought.state, delta.reasoning_content);
    lemma_sound_extend(s, thought, outcome::think(thought.state, delta.reasoning_content));
    let reflected = thought.extend(outcome::think(thought.state, delta.reasoning_content));
    lemma_speak_sound(reflected.state, delta.content);
    lemma_sound_extend(s, reflected, outcome::speak(reflected.state, delta.content));
    let spoken = reflected.extend(outcome::speak(reflected.state, delta.content));
    lemma_collect_sound(spoken.state, delta.tool_calls);
    lemma_sound_extend(s, spoken, outcome::collect(spoken.state, delta.tool_calls));
}

/// Law: the buffered calls bear different numbers, whatever fragments come.
pub proof fn law_call_numbers_stay_distinct(
    buffered: Seq<ToolCallView>,
    fragments: Seq<CallDeltaView>,
)
    requires
        outcome::call_indices(buffered).no_duplicates(),
    ensures
        outcome::call_indices(outcome::merge_fragments(buffered, fragments)).no_duplicates(),
    decreases fragments.len(),
{
    if fragments.len() > 0 {
        law_call_numbers_stay_distinct(buffered, fragments.drop_last());
        let before = outcome::merge_fragments(buffered, fragments.drop_last());
        let index = fragments.last().index;
        let indices = outcome::call_indices(before);
        indices.index_of_first_ensures(index);
        let after = outcome::call_indices(outcome::merge_fragments(buffered, fragments));
        if indices.contains(index) {
            assert(after == indices);
        } else {
            assert(after == indices.push(index));
        }
    }
}

/// Law: a stream is orderly before its first chunk.
pub proof fn law_fresh_is_orderly(fallback_model: Seq<char>)
    ensures
        orderly(outcome::fresh(fallback_model)),
{
}

/// Law: before its first chunk a stream knows the fallback model and nothing else: no id, no
/// model, no block, no call, and the first number is zero.
pub proof fn law_fresh_knows_the_fallback(fallback_model: Seq<char>)
    ensures
        ({
            let fresh = outcome::fresh(fallback_model);
            &&& fresh.fallback_model == fallback_model
            &&& fresh.message_id is None
            &&& fresh.model is None
            &&& fresh.block is Idle
            &&& fresh.next_index == 0
            &&& !fresh.message_started
            &&& fresh.buffered.len() == 0
        }),
{
}

/// Law: from every settled state, whatever is buffered in it, the events of a chunk come in order
/// and leave a settled state.
pub proof fn law_chunk_keeps_order(s: StreamView, chunk: ChunkView)
    requires
        settled(s),
    ensures
        keeps_order(s, outcome::chunk_outcome(s, chunk)),
{
    if chunk.choices.len() > 0 {
        let known = outcome::learn(s, chunk);
        let choice = chunk.choices[0];
        let progressed = outcome::progress(known, choice.delta);
        lemma_progress_sound(known, choice.delta);
        lemma_conclude_sound(progressed.state, choice.finish_reason, chunk.usage);
        lemma_sound_extend(
            known,
            progressed,
            outcome::conclude(progressed.state, choice.finish_reason, chunk.usage),
        );
    }
}

/// Law: the events of a chunk come in order, and leave the stream orderly.
pub proof fn law_chunk_in_order(s: StreamView, chunk: ChunkView)
    requires
        orderly(s),
    ensures
        sound(s, outcome::chunk_outcome(s, chunk)),
{
    law_chunk_keeps_order(s, chunk);
    law_chunk_starts_message(s, chunk);
    tool_calls::law_chunk_calls_are_received(Seq::empty(), s, chunk);
    if chunk.choices.len() > 0 {
        let delta = chunk.choices[0].delta;
        let kept = tool_calls::kept_unless(tool_calls::answers(delta), s.buffered);
        assert(outcome::call_indices(Seq::empty()).no_duplicates());
        law_call_numbers_stay_distinct(kept, tool_calls::fragments_of(delta));
    }
}

/// Law: the events at the end of a stream come in order and end the message, where a message has
/// started and none of its blocks is open.
pub proof fn law_done_in_order(s: StreamView)
    requires
        orderly(s),
        s.message_started,
        s.block is Idle,
    ensures
        in_order(seen_of(s), outcome::done_outcome(s).events),
        receive_all(seen_of(s), outcome::done_outcome(s).events) == (Received {
            ended: true,
            ..seen_of(outcome::done_outcome(s).state)
        }),
        orderly(outcome::done_outcome(s).state),
{
    lemma_flush_sound(s);
    let flushed = outcome::flush(s);
    assert(outcome::call_indices(flushed.state.buffered).no_duplicates());
    reveal_with_fuel(in_order, 2);
    reveal_with_fuel(receive_all, 2);
    assert(seq![EventView::MessageStop].drop_last() == Seq::<EventView>::empty());
    lemma_in_order_concat(seen_of(s), flushed.events, seq![EventView::MessageStop]);
}

/// What the receiver has seen where a message has started, no block is open and `next_index` is the
/// next number.
pub open spec fn between_blocks(next_index: int) -> Received {
    Received { started: true, open: OpenBlock::Closed, next_index, ended: false }
}

/// Law: whatever the state and however inputs are told apart, a flush emits whole blocks, in order
/// and numbered on from the number of the state.
pub proof fn law_flush_in_order<K>(s: StreamView, inputs: Seq<K>)
    ensures
        ({
            let step = outcome::flush_with(s, inputs);
            &&& in_order(between_blocks(s.next_index), step.events)
            &&& receive_all(between_blocks(s.next_index), step.events) == between_blocks(
                step.state.next_index,
            )
        }),
{
    lemma_tool_blocks_in_order(
        between_blocks(s.next_index),
        outcome::distinct_calls(s.buffered, inputs, s.buffered.len()),
    );
}

/// Law: whatever the state, the end of a stream emits whole blocks, in order and numbered on from
/// the number of the state, and then stops the message.
pub proof fn law_done_numbers(s: StreamView)
    ensures
        ({
            let step = outcome::done_outcome(s);
            &&& in_order(between_blocks(s.next_index), step.events)
            &&& receive_all(between_blocks(s.next_index), step.events) == (Received {
                ended: true,
                ..between_blocks(step.state.next_index)
            })
        }),
{
    let flushed = outcome::flush(s);
    law_flush_in_order(s, outcome::inputs_of(s.buffered));
    reveal_with_fuel(in_order, 2);
    reveal_with_fuel(receive_all, 2);
    assert(seq![EventView::MessageStop].drop_last() == Seq::<EventView>::empty());
    lemma_in_order_concat(
        between_blocks(s.next_index),
        flushed.events,
        seq![EventView::MessageStop],
    );
}

// ---- What a chunk can cause ----

/// Whether an event belongs inside a message: it neither starts, ends nor stops one, nor reports a
/// failure.
pub open spec fn inside(event: EventView) -> bool {
    block_number(event) is Some
}

/// Whether all events belong inside a message.
pub open spec fn all_inside(events: Seq<EventView>) -> bool {
    forall|i: int| 0 <= i < events.len() ==> inside(#[trigger] events[i])
}

proof fn lemma_tool_blocks_inside(calls: Seq<ToolCallView>, first: int)
    ensures
        all_inside(outcome::tool_blocks(calls, first)),
    decreases calls.len(),
{
    if calls.len() > 0 {
        lemma_tool_blocks_inside(calls.drop_last(), first);
    }
}

proof fn lemma_flush_inside(s: StreamView)
    ensures
        all_inside(outcome::flush(s).events),
{
    lemma_tool_blocks_inside(
        outcome::distinct_calls(s.buffered, outcome::inputs_of(s.buffered), s.buffered.len()),
        s.next_index,
    );
}

proof fn lemma_think_inside(s: StreamView, reasoning: Option<Seq<char>>)
    ensures
        all_inside(outcome::think(s, reasoning).events),
{
    lemma_flush_inside(s);
}

proof fn lemma_speak_inside(s: StreamView, content: Option<Seq<char>>)
    ensures
        all_inside(outcome::speak(s, content).events),
{
    lemma_flush_inside(s);
}

proof fn lemma_inside_concat(a: Seq<EventView>, b: Seq<EventView>)
    requires
        all_inside(a),
        all_inside(b),
    ensures
        all_inside(a + b),
{
}

proof fn lemma_collect_inside(s: StreamView, tool_calls: Option<Seq<CallDeltaView>>)
    ensures
        all_inside(outcome::collect(s, tool_calls).events),
{
}

/// All that a choice causes after the start of the message belongs inside it.
proof fn lemma_progress_inside(s: StreamView, delta: DeltaView) -> (rest: Seq<EventView>)
    ensures
        outcome::progress(s, delta).events == outcome::start_message(s).events + rest,
        all_inside(rest),
        outcome::progress(s, delta).state.message_started,
{
    let started = outcome::start_message(s);
    let thinks = outcome::think(started.state, delta.reasoning);
    let reflects = outcome::think(thinks.state, delta.reasoning_content);
    let speaks = outcome::speak(reflects.state, delta.content);
    let collects = outcome::collect(speaks.state, delta.tool_calls);
    lemma_think_inside(started.state, delta.reasoning);
    lemma_think_inside(thinks.state, delta.reasoning_content);
    lemma_speak_inside(reflects.state, delta.content);
    lemma_collect_inside(speaks.state, delta.tool_calls);
    lemma_inside_concat(thinks.events, reflects.events);
    lemma_inside_concat(thinks.events + reflects.events, speaks.events);
    lemma_inside_concat(thinks.events + reflects.events + speaks.events, collects.events);
    let rest = thinks.events + reflects.events + speaks.events + collects.events;
    assert(outcome::progress(s, delta).events == started.events + rest);
    rest
}

/// The events of a choice: the start of the message, what belongs inside it, and the report of its
/// end.
proof fn lemma_chunk_parts(s: StreamView, chunk: ChunkView) -> (rest: Seq<EventView>)
    requires
        chunk.choices.len() > 0,
    ensures
        all_inside(rest),
        outcome::chunk_outcome(s, chunk).events == outcome::start_message(
            outcome::learn(s, chunk),
        ).events + rest + match chunk.choices[0].finish_reason {
            Some(reason) => seq![outcome::ending(reason, chunk.usage)],
            None => Seq::empty(),
        },
        outcome::chunk_outcome(s, chunk).state.message_started,
{
    let known = outcome::learn(s, chunk);
    let choice = chunk.choices[0];
    let started = outcome::start_message(known);
    let progressed = outcome::progress(known, choice.delta);
    let rest = lemma_progress_inside(known, choice.delta);
    let events = outcome::chunk_outcome(s, chunk).events;
    if let Some(reason) = choice.finish_reason {
        let flushed = outcome::flush(progressed.state);
        let closed = outcome::close_block(flushed.state);
        let ending = seq![outcome::ending(reason, chunk.usage)];
        lemma_flush_inside(progressed.state);
        lemma_inside_concat(flushed.events, closed.events);
        lemma_inside_concat(rest, flushed.events + closed.events);
        assert(events == started.events + (rest + (flushed.events + closed.events)) + ending);
        rest + (flushed.events + closed.events)
    } else {
        assert(events == started.events + rest + Seq::<EventView>::empty());
        rest
    }
}

/// Law: a chunk starts the message exactly where it has a choice and the message has not started;
/// then its first event does, and no other. That event names the message by the first id and the
/// first model known by then, or by `msg_proxy` and the fallback model. From the first choice on
/// the message has started.
pub proof fn law_chunk_starts_message(s: StreamView, chunk: ChunkView)
    ensures
        ({
            let step = outcome::chunk_outcome(s, chunk);
            let starts = !s.message_started && chunk.choices.len() > 0;
            &&& starts ==> step.events.len() > 0 && step.events[0] == (EventView::MessageStart {
                message: MessageStartView {
                    id: match (s.message_id, chunk.id) {
                        (Some(id), _) => id,
                        (None, Some(id)) => id,
                        (None, None) => "msg_proxy"@,
                    },
                    message_type: "message"@,
                    role: "assistant"@,
                    model: match (s.model, chunk.model) {
                        (Some(model), _) => model,
                        (None, Some(model)) => model,
                        (None, None) => s.fallback_model,
                    },
                    usage: Usage { input_tokens: 0, output_tokens: 0 },
                },
            })
            &&& forall|i: int|
                0 <= i < step.events.len() ==> ((#[trigger] step.events[i]) is MessageStart
                    <==> starts && i == 0)
            &&& step.state.message_started == (s.message_started || chunk.choices.len() > 0)
        }),
{
    if chunk.choices.len() > 0 {
        let rest = lemma_chunk_parts(s, chunk);
    }
}

/// Law: no chunk stops the message or reports a failure.
pub proof fn law_chunk_never_stops(s: StreamView, chunk: ChunkView)
    ensures
        ({
            let events = outcome::chunk_outcome(s, chunk).events;
            forall|i: int|
                0 <= i < events.len() ==> !((#[trigger] events[i]) is MessageStop) && !(
                events[i] is Error)
        }),
{
    if chunk.choices.len() > 0 {
        let rest = lemma_chunk_parts(s, chunk);
    }
}

// ---- Whole streams ----

/// What chunks do, one after the other.
pub open spec fn session(s: StreamView, chunks: Seq<ChunkView>) -> Outcome
    decreases chunks.len(),
{
    if chunks.len() == 0 {
        outcome::unchanged(s)
    } else {
        let before = session(s, chunks.drop_last());
        before.extend(outcome::chunk_outcome(before.state, chunks.last()))
    }
}

/// Whether a chunk says that the answer is complete.
pub open spec fn finishes(chunk: ChunkView) -> bool {
    chunk.choices.len() > 0 && chunk.choices[0].finish_reason is Some
}

/// Law: the events of a whole stream come in order.
pub proof fn law_session_in_order(s: StreamView, chunks: Seq<ChunkView>)
    requires
        orderly(s),
    ensures
        sound(s, session(s, chunks)),
    decreases chunks.len(),
{
    if chunks.len() > 0 {
        law_session_in_order(s, chunks.drop_last());
        let before = session(s, chunks.drop_last());
        law_chunk_in_order(before.state, chunks.last());
        lemma_sound_extend(s, before, outcome::chunk_outcome(before.state, chunks.last()));
        assert(orderly(session(s, chunks).state));
    }
}

/// Law: a chunk with a finish reason leaves no block open and no call buffered, and the last of
/// its events says why the message ends: `tool_use` for `tool_calls`, `max_tokens` for `length`,
/// `end_turn` for anything else. It bears the token counts of the chunk, or none and zero where
/// the chunk has none.
pub proof fn law_finish_settles(s: StreamView, chunk: ChunkView)
    requires
        finishes(chunk),
    ensures
        ({
            let step = outcome::chunk_outcome(s, chunk);
            &&& step.state.message_started
            &&& step.state.block is Idle
            &&& step.state.buffered.len() == 0
            &&& step.events.len() > 0
            &&& step.events.last() == outcome::ending(
                chunk.choices[0].finish_reason->0,
                chunk.usage,
            )
            &&& reports_end(step.events.last(), chunk)
        }),
{
}

/// Whether an event reports the end of the message that a chunk finishes.
pub open spec fn reports_end(event: EventView, chunk: ChunkView) -> bool {
    &&& chunk.choices[0].finish_reason matches Some(reason)
    &&& event matches EventView::MessageDelta { delta, usage }
    &&& delta.stop_sequence is None
    &&& reason == "tool_calls"@ ==> delta.stop_reason == Some("tool_use"@)
    &&& reason == "length"@ && reason != "tool_calls"@ ==> delta.stop_reason == Some(
        "max_tokens"@,
    )
    &&& reason != "tool_calls"@ && reason != "length"@ ==> delta.stop_reason == Some("end_turn"@)
    &&& chunk.usage matches Some(counts) ==> usage.input_tokens == Some(counts.prompt_tokens)
        && usage.output_tokens == counts.completion_tokens
    &&& chunk.usage is None ==> usage.input_tokens is None && usage.output_tokens == 0
}

/// Law: a chunk reports the end of the message exactly where it has a finish reason: its last event
/// does, and no other.
pub proof fn law_end_is_reported_once(s: StreamView, chunk: ChunkView)
    ensures
        ({
            let events = outcome::chunk_outcome(s, chunk).events;
            &&& finishes(chunk) ==> events.len() > 0 && reports_end(events.last(), chunk)
            &&& forall|i: int|
                0 <= i < events.len() ==> ((#[trigger] events[i]) is MessageDelta <==> finishes(
                    chunk,
                ) && i == events.len() - 1)
        }),
{
    if chunk.choices.len() > 0 {
        let rest = lemma_chunk_parts(s, chunk);
    }
}

/// Law: the stop reason depends on the finish reason alone: two chunks with the same one report the
/// same, whatever they carry besides and whatever the states.
pub proof fn law_stop_reason_by_finish_reason(
    s: StreamView,
    chunk: ChunkView,
    other_s: StreamView,
    other: ChunkView,
)
    requires
        finishes(chunk),
        finishes(other),
        chunk.choices[0].finish_reason == other.choices[0].finish_reason,
    ensures
        ({
            let one = outcome::chunk_outcome(s, chunk).events.last();
            let two = outcome::chunk_outcome(other_s, other).events.last();
            &&& one is MessageDelta
            &&& two is MessageDelta
            &&& one->MessageDelta_delta == two->MessageDelta_delta
        }),
{
    law_finish_settles(s, chunk);
    law_finish_settles(other_s, other);
}

/// Law: at the end of a stream that has finished, the message stops and nothing else happens.
pub proof fn law_done_after_finish(s: StreamView, chunk: ChunkView)
    requires
        finishes(chunk),
    ensures
        ({
            let finished = outcome::chunk_outcome(s, chunk).state;
            outcome::done_outcome(finished) == (Outcome {
                state: finished,
                events: seq![EventView::MessageStop],
            })
        }),
{
    law_finish_settles(s, chunk);
    let finished = outcome::chunk_outcome(s, chunk).state;
    assert(outcome::done_outcome(finished).events == seq![EventView::MessageStop]);
}

/// Law: of the events of a stream, the first one starts the message, and no other does.
pub proof fn law_message_starts_once(fallback_model: Seq<char>, chunks: Seq<ChunkView>)
    ensures
        ({
            let events = session(outcome::fresh(fallback_model), chunks).events;
            forall|i: int|
                0 <= i < events.len() ==> ((#[trigger] events[i]) is MessageStart <==> i == 0)
        }),
{
    let fresh = outcome::fresh(fallback_model);
    law_session_in_order(fresh, chunks);
    lemma_starts_once(seen_of(fresh), session(fresh, chunks).events);
}

proof fn lemma_starts_once(r: Received, events: Seq<EventView>)
    requires
        in_order(r, events),
        !r.started,
    ensures
        receive_all(r, events).started == (events.len() > 0),
        forall|i: int|
            0 <= i < events.len() ==> ((#[trigger] events[i]) is MessageStart <==> i == 0),
    decreases events.len(),
{
    if events.len() > 0 {
        lemma_starts_once(r, events.drop_last());
        assert forall|i: int| 0 <= i < events.len() implies ((#[trigger] events[i]) is MessageStart
            <==> i == 0) by {
            if i < events.len() - 1 {
                assert(events[i] == events.drop_last()[i]);
            }
        }
    }
}

/// Law: no chunk of a stream stops the message or reports a failure.
pub proof fn law_session_never_stops(s: StreamView, chunks: Seq<ChunkView>)
    ensures
        ({
            let events = session(s, chunks).events;
            forall|i: int|
                0 <= i < events.len() ==> !((#[trigger] events[i]) is MessageStop) && !(
                events[i] is Error)
        }),
    decreases chunks.len(),
{
    if chunks.len() > 0 {
        law_session_never_stops(s, chunks.drop_last());
        law_chunk_never_stops(session(s, chunks.drop_last()).state, chunks.last());
    }
}

/// All the events of a stream, from a fresh state to its end.
pub open spec fn all_events(fallback_model: Seq<char>, chunks: Seq<ChunkView>) -> Seq<EventView> {
    let told = session(outcome::fresh(fallback_model), chunks);
    told.extend(outcome::done_outcome(told.state)).events
}

/// Law: a stream whose last chunk finishes it is one message, whole and in order. Its first event
/// is the only one that starts the message. Its last event is the only one that stops it, and the
/// event before that says why it ends.
pub proof fn law_finished_stream_is_a_message(fallback_model: Seq<char>, chunks: Seq<ChunkView>)
    requires
        chunks.len() > 0,
        finishes(chunks.last()),
    ensures
        ({
            let fresh = outcome::fresh(fallback_model);
            let events = all_events(fallback_model, chunks);
            let received = receive_all(seen_of(fresh), events);
            &&& in_order(seen_of(fresh), events)
            &&& received.started && received.open is Closed && received.ended
            &&& events.len() >= 3
            &&& forall|i: int|
                0 <= i < events.len() ==> ((#[trigger] events[i]) is MessageStart <==> i == 0)
            &&& events[events.len() - 2] == outcome::ending(
                chunks.last().choices[0].finish_reason->0,
                chunks.last().usage,
            )
            &&& reports_end(events[events.len() - 2], chunks.last())
            &&& forall|i: int|
                0 <= i < events.len() ==> ((#[trigger] events[i]) is MessageStop <==> i
                    == events.len() - 1)
        }),
{
    let fresh = outcome::fresh(fallback_model);
    let told = session(fresh, chunks);
    let before = session(fresh, chunks.drop_last()).state;
    law_session_in_order(fresh, chunks);
    law_finish_settles(before, chunks.last());
    law_done_in_order(told.state);
    lemma_in_order_concat(
        seen_of(fresh),
        told.events,
        outcome::done_outcome(told.state).events,
    );
    law_message_starts_once(fallback_model, chunks);
    law_session_never_stops(fresh, chunks);
    law_done_after_finish(before, chunks.last());
    let last = outcome::chunk_outcome(before, chunks.last()).events;
    assert(told.events.last() == last.last());
    assert(told.events[0] is MessageStart);
    assert(all_events(fallback_model, chunks) == told.events.push(EventView::MessageStop));
}

// ---- Blocks ----

/// The number of the block that an event opens, fills or closes.
pub open spec fn block_number(event: EventView) -> Option<int> {
    match event {
        EventView::ContentBlockStart { index, .. } => Some(index),
        EventView::ContentBlockDelta { index, .. } => Some(index),
        EventView::ContentBlockStop { index } => Some(index),
        _ => None,
    }
}

/// The numbers of the blocks that events open, in order.
pub open spec fn opened_numbers(events: Seq<EventView>) -> Seq<int>
    decreases events.len(),
{
    if events.len() == 0 {
        Seq::empty()
    } else {
        let before = opened_numbers(events.drop_last());
        match events.last() {
            EventView::ContentBlockStart { index, .. } => before.push(index),
            _ => before,
        }
    }
}

pub proof fn lemma_opened_concat(a: Seq<EventView>, b: Seq<EventView>)
    ensures
        opened_numbers(a + b) == opened_numbers(a) + opened_numbers(b),
    decreases b.len(),
{
    if b.len() == 0 {
        assert(a + b == a);
    } else {
        lemma_opened_concat(a, b.drop_last());
        assert((a + b).drop_last() == a + b.drop_last());
    }
}

pub proof fn lemma_opened_event(event: EventView)
    ensures
        opened_numbers(seq![event]) == match event {
            EventView::ContentBlockStart { index, .. } => seq![index],
            _ => Seq::empty(),
        },
{
    reveal_with_fuel(opened_numbers, 2);
    assert(seq![event].drop_last() == Seq::<EventView>::empty());
}

pub proof fn lemma_tool_blocks_opened(calls: Seq<ToolCallView>, first: int)
    ensures
        opened_numbers(outcome::tool_blocks(calls, first)).len() == calls.len(),
    decreases calls.len(),
{
    if calls.len() > 0 {
        let block = outcome::tool_block(calls.last(), first + calls.len() - 1);
        lemma_tool_blocks_opened(calls.drop_last(), first);
        lemma_opened_concat(outcome::tool_blocks(calls.drop_last(), first), block);
        lemma_opened_event(block[0]);
        let rest = block.skip(1);
        assert(block == seq![block[0]] + rest);
        lemma_opened_concat(seq![block[0]], rest);
        reveal_with_fuel(opened_numbers, 3);
    }
}

proof fn lemma_in_order_at(r: Received, events: Seq<EventView>, i: int)
    requires
        in_order(r, events),
        0 <= i < events.len(),
    ensures
        may_come(receive_all(r, events.take(i)), events[i]),
        receive_all(r, events.take(i + 1)) == receive(receive_all(r, events.take(i)), events[i]),
    decreases events.len(),
{
    assert(events.take(i + 1).drop_last() == events.take(i));
    if i < events.len() - 1 {
        lemma_in_order_at(r, events.drop_last(), i);
        assert(events.drop_last().take(i) == events.take(i));
    } else {
        assert(events.drop_last() == events.take(i));
    }
}

/// Events in order open consecutively numbered blocks.
proof fn lemma_opened_numbers(r: Received, events: Seq<EventView>)
    requires
        in_order(r, events),
        r.open is Closed,
    ensures
        ({
            let numbers = opened_numbers(events);
            let after = receive_all(r, events);
            &&& after.next_index + (if after.open is Closed {
                0int
            } else {
                1
            }) == r.next_index + numbers.len()
            &&& forall|k: int|
                0 <= k < numbers.len() ==> #[trigger] numbers[k] == r.next_index + k
        }),
    decreases events.len(),
{
    if events.len() > 0 {
        lemma_opened_numbers(r, events.drop_last());
    }
}

/// Law: in events in order, before and after which no block is open, each block is one
/// group. What opens or fills a block is followed at once by what fills or closes it, and what
/// fills or closes a block follows at once what opens or fills it.
pub proof fn law_blocks_are_groups(r: Received, events: Seq<EventView>, i: int)
    requires
        in_order(r, events),
        r.open is Closed,
        receive_all(r, events).open is Closed,
        0 <= i < events.len(),
        block_number(events[i]) is Some,
    ensures
        !(events[i] is ContentBlockStop) ==> {
            &&& i + 1 < events.len()
            &&& block_number(events[i + 1]) == block_number(events[i])
            &&& !(events[i + 1] is ContentBlockStart)
        },
        !(events[i] is ContentBlockStart) ==> {
            &&& i > 0
            &&& block_number(events[i - 1]) == block_number(events[i])
            &&& !(events[i - 1] is ContentBlockStop)
        },
{
    lemma_in_order_at(r, events, i);
    if i + 1 < events.len() {
        lemma_in_order_at(r, events, i + 1);
    } else {
        assert(events.take(i + 1) == events);
    }
    if i > 0 {
        lemma_in_order_at(r, events, i - 1);
    } else {
        assert(events.take(0) == Seq::<EventView>::empty());
    }
}

/// Law: the blocks of a finished stream are numbered from zero on, without gap or repetition, and
/// each is one group of events.
pub proof fn law_finished_stream_blocks(fallback_model: Seq<char>, chunks: Seq<ChunkView>)
    requires
        chunks.len() > 0,
        finishes(chunks.last()),
    ensures
        ({
            let events = all_events(fallback_model, chunks);
            let numbers = opened_numbers(events);
            &&& forall|k: int| 0 <= k < numbers.len() ==> #[trigger] numbers[k] == k
            &&& forall|i: int|
                #![trigger events[i]]
                0 <= i < events.len() && block_number(events[i]) is Some && !(
                events[i] is ContentBlockStop) ==> {
                    &&& i + 1 < events.len()
                    &&& block_number(events[i + 1]) == block_number(events[i])
                    &&& !(events[i + 1] is ContentBlockStart)
                }
            &&& forall|i: int|
                #![trigger events[i]]
                0 <= i < events.len() && block_number(events[i]) is Some && !(
                events[i] is ContentBlockStart) ==> {
                    &&& i > 0
                    &&& block_number(events[i - 1]) == block_number(events[i])
                    &&& !(events[i - 1] is ContentBlockStop)
                }
        }),
{
    let r = seen_of(outcome::fresh(fallback_model));
    let events = all_events(fallback_model, chunks);
    law_finished_stream_is_a_message(fallback_model, chunks);
    lemma_opened_numbers(r, events);
    assert forall|i: int|
        #![trigger events[i]]
        0 <= i < events.len() && block_number(events[i]) is Some && !(
        events[i] is ContentBlockStop) implies {
        &&& i + 1 < events.len()
        &&& block_number(events[i + 1]) == block_number(events[i])
        &&& !(events[i + 1] is ContentBlockStart)
    } by {
        law_blocks_are_groups(r, events, i);
    }
    assert forall|i: int|
        #![trigger events[i]]
        0 <= i < events.len() && block_number(events[i]) is Some && !(
        events[i] is ContentBlockStart) implies {
        &&& i > 0
        &&& block_number(events[i - 1]) == block_number(events[i])
        &&& !(events[i - 1] is ContentBlockStop)
    } by {
        law_blocks_are_groups(r, events, i);
    }
}

} // verus!
