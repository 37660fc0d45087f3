//! What becomes of the thinking and the text in the chunks.

use vstd::prelude::*;

use super::order;
use crate::models::anthropic::{BlockDeltaView, EventView};
use crate::models::openai::ChunkView;
use crate::translate::outcome;
use crate::translate::outcome::{BlockView, StreamView, ToolCallView};

verus! {

/// What an event adds to blocks of this kind.
pub open spec fn written(kind: BlockView, event: EventView) -> Seq<char> {
    match event {
        EventView::ContentBlockDelta { delta: BlockDeltaView::TextDelta { text }, .. } => {
            if kind is Text {
                text
            } else {
                Seq::empty()
            }
        },
        EventView::ContentBlockDelta { delta: BlockDeltaView::ThinkingDelta { thinking }, .. } => {
            if kind is Thinking {
                thinking
            } else {
                Seq::empty()
            }
        },
        _ => Seq::empty(),
    }
}

/// All that events add to blocks of this kind.
pub open spec fn all_written(kind: BlockView, events: Seq<EventView>) -> Seq<char>
    decreases events.len(),
{
    if events.len() == 0 {
        Seq::empty()
    } else {
        all_written(kind, events.drop_last()) + written(kind, events.last())
    }
}

/// What a chunk offers for blocks of this kind.
pub open spec fn offered(kind: BlockView, chunk: ChunkView) -> Seq<char> {
    if chunk.choices.len() == 0 {
        Seq::empty()
    } else {
        let delta = chunk.choices[0].delta;
        match kind {
            BlockView::Idle => Seq::empty(),
            BlockView::Thinking => delta.reasoning.unwrap_or(Seq::empty())
                + delta.reasoning_content.unwrap_or(Seq::empty()),
            BlockView::Text => delta.content.unwrap_or(Seq::empty()),
        }
    }
}

/// All that chunks offer for blocks of this kind.
pub open spec fn all_offered(kind: BlockView, chunks: Seq<ChunkView>) -> Seq<char>
    decreases chunks.len(),
{
    if chunks.len() == 0 {
        Seq::empty()
    } else {
        all_offered(kind, chunks.drop_last()) + offered(kind, chunks.last())
    }
}

proof fn lemma_written_concat(kind: BlockView, a: Seq<EventView>, b: Seq<EventView>)
    ensures
        all_written(kind, a + b) == all_written(kind, a) + all_written(kind, b),
    decreases b.len(),
{
    if b.len() == 0 {
        assert(a + b == a);
    } else {
        lemma_written_concat(kind, a, b.drop_last());
        assert((a + b).drop_last() == a + b.drop_last());
    }
}

proof fn lemma_written_event(kind: BlockView, event: EventView)
    ensures
        all_written(kind, seq![event]) == written(kind, event),
{
    reveal_with_fuel(all_written, 2);
    assert(seq![event].drop_last() == Seq::<EventView>::empty());
}

proof fn lemma_tool_blocks_write_nothing(kind: BlockView, calls: Seq<ToolCallView>, first: int)
    ensures
        all_written(kind, outcome::tool_blocks(calls, first)).len() == 0,
    decreases calls.len(),
{
    if calls.len() > 0 {
        let before = outcome::tool_blocks(calls.drop_last(), first);
        let block = outcome::tool_block(calls.last(), first + calls.len() - 1);
        lemma_tool_blocks_write_nothing(kind, calls.drop_last(), first);
        lemma_written_concat(kind, before, block);
        reveal_with_fuel(all_written, 4);
    }
}

proof fn lemma_flush_writes_nothing(kind: BlockView, s: StreamView)
    ensures
        all_written(kind, outcome::flush(s).events) == Seq::<char>::empty(),
{
    let calls = outcome::distinct_calls(
        s.buffered,
        outcome::inputs_of(s.buffered),
        s.buffered.len(),
    );
    lemma_tool_blocks_write_nothing(kind, calls, s.next_index);
}

proof fn lemma_close_writes_nothing(kind: BlockView, s: StreamView)
    ensures
        all_written(kind, outcome::close_block(s).events) == Seq::<char>::empty(),
{
    lemma_written_event(kind, EventView::ContentBlockStop { index: s.next_index });
}

proof fn lemma_write_writes(kind: BlockView, s: StreamView, to: BlockView, text: Seq<char>)
    requires
        !(to is Idle),
    ensures
        all_written(kind, outcome::write(s, to, text).events) == (if kind == to {
            text
        } else {
            Seq::empty()
        }),
{
    let closed = outcome::close_block(s);
    lemma_close_writes_nothing(kind, s);
    let start = EventView::ContentBlockStart {
        index: closed.state.next_index,
        content_block: outcome::empty_block(to),
    };
    lemma_written_event(kind, start);
    lemma_written_concat(kind, closed.events, seq![start]);
    let opened = outcome::open_block(s, to);
    assert(all_written(kind, opened.events) == Seq::<char>::empty());
    let delta = EventView::ContentBlockDelta {
        index: opened.state.next_index,
        delta: outcome::block_delta(to, text),
    };
    lemma_written_event(kind, delta);
    lemma_written_concat(kind, opened.events, seq![delta]);
}

proof fn lemma_think_writes(kind: BlockView, s: StreamView, reasoning: Option<Seq<char>>)
    ensures
        all_written(kind, outcome::think(s, reasoning).events) == (if kind is Thinking {
            reasoning.unwrap_or(Seq::empty())
        } else {
            Seq::empty()
        }),
{
    if let Some(text) = reasoning {
        let flushed = outcome::flush(s);
        lemma_flush_writes_nothing(kind, s);
        lemma_write_writes(kind, flushed.state, BlockView::Thinking, text);
        lemma_written_concat(
            kind,
            flushed.events,
            outcome::write(flushed.state, BlockView::Thinking, text).events,
        );
    }
}

proof fn lemma_speak_writes(kind: BlockView, s: StreamView, content: Option<Seq<char>>)
    ensures
        all_written(kind, outcome::speak(s, content).events) == (if kind is Text {
            content.unwrap_or(Seq::empty())
        } else {
            Seq::empty()
        }),
{
    if let Some(text) = content {
        let flushed = outcome::flush(s);
        lemma_flush_writes_nothing(kind, s);
        lemma_write_writes(kind, flushed.state, BlockView::Text, text);
        lemma_written_concat(
            kind,
            flushed.events,
            outcome::write(flushed.state, BlockView::Text, text).events,
        );
        if text.len() == 0 {
            assert(text == Seq::<char>::empty());
        }
    }
}

/// Law: thinking or text written in two pieces leaves the state that it leaves when written whole.
/// The events are the same but for the last one, the addition, in whose place there are two, to
/// the same block.
pub proof fn law_written_in_pieces(
    s: StreamView,
    kind: BlockView,
    first: Seq<char>,
    second: Seq<char>,
)
    requires
        !(kind is Idle),
    ensures
        ({
            let begun = outcome::write(s, kind, first);
            let pieces = begun.extend(outcome::write(begun.state, kind, second));
            let whole = outcome::write(s, kind, first + second);
            let opening = outcome::open_block(s, kind).events;
            let index = whole.state.next_index;
            let addition = |text: Seq<char>|
                EventView::ContentBlockDelta { index, delta: outcome::block_delta(kind, text) };
            &&& pieces.state == whole.state
            &&& whole.events == opening + seq![addition(first + second)]
            &&& pieces.events == opening + seq![addition(first), addition(second)]
            &&& all_written(kind, pieces.events) == first + second
            &&& all_written(kind, whole.events) == first + second
        }),
{
    let begun = outcome::write(s, kind, first);
    let continued = outcome::write(begun.state, kind, second);
    let whole = outcome::write(s, kind, first + second);
    let opening = outcome::open_block(s, kind).events;
    let index = whole.state.next_index;
    let one = EventView::ContentBlockDelta { index, delta: outcome::block_delta(kind, first) };
    let two = EventView::ContentBlockDelta { index, delta: outcome::block_delta(kind, second) };
    assert(continued.events == seq![two]);
    assert(begun.events + continued.events == opening + seq![one, two]);
    lemma_write_writes(kind, s, kind, first);
    lemma_write_writes(kind, begun.state, kind, second);
    lemma_write_writes(kind, s, kind, first + second);
    lemma_written_concat(kind, begun.events, continued.events);
}

/// Law: what a chunk offers as thinking and as text is what its events add to thinking and to text
/// blocks, whole and in order.
pub proof fn law_chunk_keeps_content(kind: BlockView, s: StreamView, chunk: ChunkView)
    ensures
        all_written(kind, outcome::chunk_outcome(s, chunk).events) == offered(kind, chunk),
{
    if chunk.choices.len() > 0 {
        let choice = chunk.choices[0];
        let delta = choice.delta;
        let started = outcome::start_message(outcome::learn(s, chunk));
        if started.events.len() > 0 {
            lemma_written_event(kind, started.events[0]);
            assert(started.events == seq![started.events[0]]);
        }
        assert(all_written(kind, started.events) == Seq::<char>::empty());

        let thinks = outcome::think(started.state, delta.reasoning);
        lemma_think_writes(kind, started.state, delta.reasoning);
        lemma_written_concat(kind, started.events, thinks.events);
        let thought = started.extend(thinks);

        let reflects = outcome::think(thought.state, delta.reasoning_content);
        lemma_think_writes(kind, thought.state, delta.reasoning_content);
        lemma_written_concat(kind, thought.events, reflects.events);
        let reflected = thought.extend(reflects);

        let speaks = outcome::speak(reflected.state, delta.content);
        lemma_speak_writes(kind, reflected.state, delta.content);
        lemma_written_concat(kind, reflected.events, speaks.events);
        let spoken = reflected.extend(speaks);

        let collects = outcome::collect(spoken.state, delta.tool_calls);
        lemma_close_writes_nothing(kind, spoken.state);
        assert(collects.events == outcome::close_block(spoken.state).events || collects.events
            == Seq::<EventView>::empty());
        lemma_written_concat(kind, spoken.events, collects.events);
        let collected = spoken.extend(collects);

        let concludes = outcome::conclude(collected.state, choice.finish_reason, chunk.usage);
        if let Some(reason) = choice.finish_reason {
            let flushed = outcome::flush(collected.state);
            lemma_flush_writes_nothing(kind, collected.state);
            lemma_close_writes_nothing(kind, flushed.state);
            let ending = outcome::ending(reason, chunk.usage);
            let closed = outcome::close_block(flushed.state);
            lemma_written_event(kind, ending);
            lemma_written_concat(kind, closed.events, seq![ending]);
            lemma_written_concat(kind, flushed.events, closed.events + seq![ending]);
        }
        assert(all_written(kind, concludes.events) == Seq::<char>::empty());
        lemma_written_concat(kind, collected.events, concludes.events);
    }
}

/// Law: the thinking and the text of a whole stream arrive whole and in order, however they were
/// cut into chunks.
pub proof fn law_session_keeps_content(kind: BlockView, s: StreamView, chunks: Seq<ChunkView>)
    ensures
        all_written(kind, order::session(s, chunks).events) == all_offered(kind, chunks),
    decreases chunks.len(),
{
    if chunks.len() > 0 {
        law_session_keeps_content(kind, s, chunks.drop_last());
        let before = order::session(s, chunks.drop_last());
        law_chunk_keeps_content(kind, before.state, chunks.last());
        lemma_written_concat(
            kind,
            before.events,
            outcome::chunk_outcome(before.state, chunks.last()).events,
        );
    }
}

} // verus!
