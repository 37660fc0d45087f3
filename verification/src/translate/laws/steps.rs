//! What single steps leave alone, and what they make of what is missing or empty.

use vstd::prelude::*;

use super::order;
use crate::models::anthropic::{BlockDeltaView, EventView};
use crate::models::openai::{ChoiceView, ChunkView, DeltaView};
use crate::translate::finish;
use crate::translate::outcome;
use crate::translate::outcome::{BlockView, Outcome, StreamView};

verus! {

/// Law: the id and the model of a message, once known, stay what they are, and so does the
/// fallback.
pub proof fn law_metadata_stays(s: StreamView, chunks: Seq<ChunkView>)
    ensures
        ({
            let after = order::session(s, chunks).state;
            &&& s.message_id is Some ==> after.message_id == s.message_id
            &&& s.model is Some ==> after.model == s.model
            &&& after.fallback_model == s.fallback_model
        }),
    decreases chunks.len(),
{
    if chunks.len() > 0 {
        law_metadata_stays(s, chunks.drop_last());
    }
}

/// Law: the first id and the first model that chunks give are learned as they are given, whatever
/// else the chunk carries; where one is known already, or none is given, nothing changes.
pub proof fn law_metadata_is_learned(s: StreamView, chunk: ChunkView)
    ensures
        ({
            let after = outcome::chunk_outcome(s, chunk).state;
            &&& s.message_id is None && chunk.id is Some ==> after.message_id == chunk.id
            &&& s.message_id is Some || chunk.id is None ==> after.message_id == s.message_id
            &&& s.model is None && chunk.model is Some ==> after.model == chunk.model
            &&& s.model is Some || chunk.model is None ==> after.model == s.model
            &&& after.fallback_model == s.fallback_model
        }),
{
}

/// Law: the chunk that starts the message starts it under its own id and its own model, where it
/// gives them and none were known.
pub proof fn law_message_bears_given_names(s: StreamView, chunk: ChunkView)
    requires
        !s.message_started,
        chunk.choices.len() > 0,
    ensures
        ({
            let events = outcome::chunk_outcome(s, chunk).events;
            &&& events.len() > 0
            &&& events[0] matches EventView::MessageStart { message }
            &&& s.message_id is None && chunk.id is Some ==> message.id == chunk.id->0
            &&& s.message_id is None && chunk.id is None ==> message.id == "msg_proxy"@
            &&& s.message_id is Some ==> message.id == s.message_id->0
            &&& s.model is None && chunk.model is Some ==> message.model == chunk.model->0
            &&& s.model is None && chunk.model is None ==> message.model == s.fallback_model
            &&& s.model is Some ==> message.model == s.model->0
        }),
{
    order::law_chunk_starts_message(s, chunk);
}

/// Law: the id of a message is the first one that any chunk of its stream gives.
pub proof fn law_first_id_wins(s: StreamView, chunks: Seq<ChunkView>, i: int)
    requires
        s.message_id is None,
        0 <= i < chunks.len(),
        chunks[i].id is Some,
        forall|j: int| 0 <= j < i ==> (#[trigger] chunks[j]).id is None,
    ensures
        order::session(s, chunks).state.message_id == chunks[i].id,
    decreases chunks.len(),
{
    let earlier = chunks.drop_last();
    law_metadata_is_learned(order::session(s, earlier).state, chunks.last());
    if i < earlier.len() {
        assert(earlier[i] == chunks[i]);
        law_first_id_wins(s, earlier, i);
    } else {
        lemma_no_id_learned(s, earlier);
    }
}

proof fn lemma_no_id_learned(s: StreamView, chunks: Seq<ChunkView>)
    requires
        s.message_id is None,
        forall|j: int| 0 <= j < chunks.len() ==> (#[trigger] chunks[j]).id is None,
    ensures
        order::session(s, chunks).state.message_id is None,
    decreases chunks.len(),
{
    if chunks.len() > 0 {
        lemma_no_id_learned(s, chunks.drop_last());
        assert(chunks[chunks.len() - 1].id is None);
    }
}

/// Law: the model of a message is the first one that any chunk of its stream gives.
pub proof fn law_first_model_wins(s: StreamView, chunks: Seq<ChunkView>, i: int)
    requires
        s.model is None,
        0 <= i < chunks.len(),
        chunks[i].model is Some,
        forall|j: int| 0 <= j < i ==> (#[trigger] chunks[j]).model is None,
    ensures
        order::session(s, chunks).state.model == chunks[i].model,
    decreases chunks.len(),
{
    let earlier = chunks.drop_last();
    law_metadata_is_learned(order::session(s, earlier).state, chunks.last());
    if i < earlier.len() {
        assert(earlier[i] == chunks[i]);
        law_first_model_wins(s, earlier, i);
    } else {
        lemma_no_model_learned(s, earlier);
    }
}

proof fn lemma_no_model_learned(s: StreamView, chunks: Seq<ChunkView>)
    requires
        s.model is None,
        forall|j: int| 0 <= j < chunks.len() ==> (#[trigger] chunks[j]).model is None,
    ensures
        order::session(s, chunks).state.model is None,
    decreases chunks.len(),
{
    if chunks.len() > 0 {
        lemma_no_model_learned(s, chunks.drop_last());
        assert(chunks[chunks.len() - 1].model is None);
    }
}

/// Law: a chunk without choices causes no event and changes nothing but the metadata.
pub proof fn law_no_choices_no_events(s: StreamView, chunk: ChunkView)
    requires
        chunk.choices.len() == 0,
    ensures
        outcome::chunk_outcome(s, chunk) == outcome::unchanged(outcome::learn(s, chunk)),
        outcome::chunk_outcome(s, chunk).events.len() == 0,
        only_metadata_differs(s, outcome::chunk_outcome(s, chunk).state),
{
}

/// Whether two states are the same but for the id and the model.
pub open spec fn only_metadata_differs(before: StreamView, after: StreamView) -> bool {
    after == (StreamView { message_id: after.message_id, model: after.model, ..before })
}

/// Law: of the choices in a chunk only the first one counts.
pub proof fn law_only_first_choice(s: StreamView, chunk: ChunkView)
    requires
        chunk.choices.len() > 0,
    ensures
        outcome::chunk_outcome(s, chunk) == outcome::chunk_outcome(
            s,
            ChunkView { choices: seq![chunk.choices[0]], ..chunk },
        ),
{
}

/// Law: an empty text, and an empty list of tool calls, are as good as none.
pub proof fn law_empty_is_absent(s: StreamView, chunk: ChunkView)
    requires
        chunk.choices.len() > 0,
    ensures
        ({
            let choice = chunk.choices[0];
            let with = |delta: DeltaView|
                ChunkView { choices: seq![ChoiceView { delta, ..choice }], ..chunk };
            &&& outcome::chunk_outcome(
                s,
                with(DeltaView { content: Some(Seq::empty()), ..choice.delta }),
            ) == outcome::chunk_outcome(s, with(DeltaView { content: None, ..choice.delta }))
            &&& outcome::chunk_outcome(
                s,
                with(DeltaView { tool_calls: Some(Seq::empty()), ..choice.delta }),
            ) == outcome::chunk_outcome(s, with(DeltaView { tool_calls: None, ..choice.delta }))
        }),
{
}

/// Law: while a block is open and nothing is buffered, a chunk that brings only more of the same
/// goes into that block: one event, and no change but of the metadata.
pub proof fn law_open_block_is_continued(s: StreamView, chunk: ChunkView, text: Seq<char>)
    requires
        s.message_started,
        s.buffered.len() == 0,
        chunk.choices.len() > 0,
        chunk.choices[0].finish_reason is None,
        text.len() > 0,
        match s.block {
            BlockView::Idle => false,
            BlockView::Thinking => chunk.choices[0].delta == (DeltaView {
                content: None,
                reasoning: Some(text),
                reasoning_content: None,
                tool_calls: None,
            }),
            BlockView::Text => chunk.choices[0].delta == (DeltaView {
                content: Some(text),
                reasoning: None,
                reasoning_content: None,
                tool_calls: None,
            }),
        },
    ensures
        outcome::chunk_outcome(s, chunk) == (Outcome {
            state: outcome::learn(s, chunk),
            events: seq![
                EventView::ContentBlockDelta {
                    index: s.next_index,
                    delta: outcome::block_delta(s.block, text),
                },
            ],
        }),
        only_metadata_differs(s, outcome::chunk_outcome(s, chunk).state),
        outcome::chunk_outcome(s, chunk).events == seq![
            EventView::ContentBlockDelta {
                index: s.next_index,
                delta: if s.block is Thinking {
                    BlockDeltaView::ThinkingDelta { thinking: text }
                } else {
                    BlockDeltaView::TextDelta { text }
                },
            },
        ],
{
    assert(outcome::chunk_outcome(s, chunk).events == seq![
        EventView::ContentBlockDelta {
            index: s.next_index,
            delta: outcome::block_delta(s.block, text),
        },
    ]);
}

/// Law: block numbers never go back, and a chunk takes no more of them than it is allowed for.
pub proof fn law_block_numbers_bounded(s: StreamView, chunk: ChunkView)
    ensures
        ({
            let after = outcome::chunk_outcome(s, chunk).state;
            s.next_index <= after.next_index <= outcome::reach(after) <= outcome::reach(s)
                + outcome::blocks_in(chunk)
        }),
{
    if chunk.choices.len() > 0 {
        let known = outcome::learn(s, chunk);
        let choice = chunk.choices[0];
        let delta = choice.delta;
        let started = outcome::start_message(known).state;
        let thought = outcome::think(started, delta.reasoning).state;
        let reflected = outcome::think(thought, delta.reasoning_content).state;
        outcome::lemma_choice_bounded(known, choice);
        outcome::lemma_flush_bounded(started);
        outcome::lemma_flush_bounded(thought);
        outcome::lemma_flush_bounded(reflected);
        outcome::lemma_flush_bounded(outcome::progress(known, delta).state);
    }
}

/// Law: a finish reason of `tool_calls` stands for the stop reason `tool_use`, `length` stands for
/// `max_tokens`, and any other for `end_turn`.
pub proof fn law_stop_reasons(reason: Seq<char>)
    ensures
        finish::stop_reason("tool_calls"@) == "tool_use"@,
        finish::stop_reason("length"@) == "max_tokens"@,
        reason != "tool_calls"@ && reason != "length"@ ==> finish::stop_reason(reason)
            == "end_turn"@,
{
    reveal_strlit("tool_calls");
    reveal_strlit("length");
    assert("tool_calls"@.len() != "length"@.len());
}

/// Law: there is room for a chunk wherever there are numbers for the calls buffered, for its
/// fragments and for three blocks more, and for a flush wherever there are numbers for the calls
/// buffered.
pub proof fn law_room(s: StreamView, chunk: ChunkView)
    ensures
        ({
            let fragments = if chunk.choices.len() == 0 {
                0
            } else {
                match chunk.choices[0].delta.tool_calls {
                    Some(fragments) => fragments.len(),
                    None => 0,
                }
            };
            &&& s.next_index + s.buffered.len() + fragments + 3 <= usize::MAX ==> outcome::has_room(
                s,
                outcome::blocks_in(chunk),
            )
            &&& outcome::has_room(s, outcome::blocks_in(chunk)) ==> outcome::has_room(s, 0)
            &&& outcome::has_room(s, 0) <==> s.next_index + s.buffered.len() <= usize::MAX
        }),
{
}

/// Law: where no block is open there is nothing to close, so closing twice is closing once.
pub proof fn law_close_twice(s: StreamView)
    ensures
        s.block is Idle ==> outcome::close_block(s) == outcome::unchanged(s),
        outcome::close_block(outcome::close_block(s).state) == outcome::unchanged(
            outcome::close_block(s).state,
        ),
{
}

/// Law: with nothing buffered, the end of a stream stops the message and changes nothing: an open
/// block stays open.
pub proof fn law_done_with_nothing_buffered(s: StreamView)
    requires
        s.buffered.len() == 0,
    ensures
        outcome::done_outcome(s) == (Outcome { state: s, events: seq![EventView::MessageStop] }),
{
    assert(outcome::done_outcome(s).events == seq![EventView::MessageStop]);
}

/// Law: the end of a stream leaves no call buffered, and said twice it only stops the message
/// again.
pub proof fn law_done_twice(s: StreamView)
    ensures
        ({
            let after = outcome::done_outcome(s).state;
            &&& after.buffered.len() == 0
            &&& outcome::done_outcome(after) == (Outcome {
                state: after,
                events: seq![EventView::MessageStop],
            })
        }),
{
    law_done_with_nothing_buffered(outcome::done_outcome(s).state);
}

} // verus!
