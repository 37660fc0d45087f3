//! What the models hold of the values that they stand for: all of it.

use vstd::prelude::*;

use crate::models::anthropic::{
    BlockDeltaView, BlockStartView, ContentBlockStart, Delta, ErrorView, EventView,
    MessageDeltaView, MessageStartView, StreamEvent,
};
use crate::models::openai::{
    CallDeltaView, ChoiceDelta, DeltaToolCall, FunctionDeltaView, StreamChunk,
};
use crate::translate::stream::BufferedToolCall;

verus! {

/// The text in an optional string.
pub open spec fn text_in(text: Option<String>) -> Option<Seq<char>> {
    match text {
        Some(text) => Some(text@),
        None => None,
    }
}

/// Law: the model of a chunk holds its id, its model, its counts and each of its choices.
pub proof fn law_chunk_view(chunk: StreamChunk)
    ensures
        ({
            let view = chunk.deep_view();
            &&& view.id == text_in(chunk.id)
            &&& view.model == text_in(chunk.model)
            &&& view.usage == chunk.usage
            &&& view.choices.len() == chunk.choices@.len()
            &&& forall|i: int|
                #![trigger view.choices[i]]
                0 <= i < view.choices.len() ==> {
                    &&& view.choices[i].index == chunk.choices@[i].index
                    &&& view.choices[i].finish_reason == text_in(chunk.choices@[i].finish_reason)
                    &&& view.choices[i].delta == chunk.choices@[i].delta.deep_view()
                }
        }),
{
}

/// Law: the model of a delta holds its text, its thinking and each of its fragments.
pub proof fn law_delta_view(delta: ChoiceDelta)
    ensures
        ({
            let view = delta.deep_view();
            &&& view.content == text_in(delta.content)
            &&& view.reasoning == text_in(delta.reasoning)
            &&& view.reasoning_content == text_in(delta.reasoning_content)
            &&& view.tool_calls is Some <==> delta.tool_calls is Some
            &&& delta.tool_calls is Some ==> {
                let fragments = view.tool_calls->0;
                &&& fragments.len() == delta.tool_calls->0@.len()
                &&& forall|i: int|
                    0 <= i < fragments.len() ==> #[trigger] fragments[i]
                        == delta.tool_calls->0@[i].deep_view()
            }
        }),
{
}

/// Law: the model of a fragment holds its number, its id, its type, and the name and the argument
/// text of its function.
pub proof fn law_fragment_view(fragment: DeltaToolCall)
    ensures
        fragment.deep_view() == (CallDeltaView {
            index: fragment.index,
            id: text_in(fragment.id),
            call_type: text_in(fragment.call_type),
            function: match fragment.function {
                Some(function) => Some(
                    FunctionDeltaView {
                        name: text_in(function.name),
                        arguments: text_in(function.arguments),
                    },
                ),
                None => None,
            },
        }),
{
}

/// Law: the model of a buffered call holds all its fields.
pub proof fn law_call_view(call: BufferedToolCall)
    ensures
        call.deep_view().id == call.id@,
        call.deep_view().name == call.name@,
        call.deep_view().arguments == call.arguments@,
        call.deep_view().openai_index == call.openai_index,
{
}

/// Law: the model of an event holds all that the event holds.
pub proof fn law_event_view(event: StreamEvent)
    ensures
        event matches StreamEvent::MessageStart { message } ==> event.deep_view() == (
        EventView::MessageStart {
            message: MessageStartView {
                id: message.id@,
                message_type: message.message_type@,
                role: message.role@,
                model: message.model@,
                usage: message.usage,
            },
        }),
        event matches StreamEvent::ContentBlockStart { index, content_block } ==> {
            &&& event.deep_view() matches EventView::ContentBlockStart {
                index: number,
                content_block: block,
            }
            &&& number == index
            &&& content_block matches ContentBlockStart::Text { text } ==> block == (
            BlockStartView::Text { text: text@ })
            &&& content_block matches ContentBlockStart::Thinking { thinking } ==> block == (
            BlockStartView::Thinking { thinking: thinking@ })
            &&& content_block matches ContentBlockStart::ToolUse { id, name } ==> block == (
            BlockStartView::ToolUse { id: id@, name: name@ })
        },
        event matches StreamEvent::ContentBlockDelta { index, delta } ==> {
            &&& event.deep_view() matches EventView::ContentBlockDelta {
                index: number,
                delta: addition,
            }
            &&& number == index
            &&& delta matches Delta::TextDelta { text } ==> addition == (
            BlockDeltaView::TextDelta { text: text@ })
            &&& delta matches Delta::ThinkingDelta { thinking } ==> addition == (
            BlockDeltaView::ThinkingDelta { thinking: thinking@ })
            &&& delta matches Delta::InputJsonDelta { partial_json } ==> addition == (
            BlockDeltaView::InputJsonDelta { partial_json: partial_json@ })
        },
        event matches StreamEvent::ContentBlockStop { index } ==> event.deep_view() == (
        EventView::ContentBlockStop { index: index as int }),
        event matches StreamEvent::MessageDelta { delta, usage } ==> event.deep_view() == (
        EventView::MessageDelta {
            delta: MessageDeltaView {
                stop_reason: text_in(delta.stop_reason),
                stop_sequence: text_in(delta.stop_sequence),
            },
            usage,
        }),
        event is MessageStop ==> event.deep_view() is MessageStop,
        event matches StreamEvent::Error { error } ==> event.deep_view() == (EventView::Error {
            error: ErrorView { error_type: error.error_type@, message: error.message@ },
        }),
{
}

/// Law: the name of an event goes by its kind alone.
pub proof fn law_event_type(event: EventView)
    ensures
        event is MessageStart ==> event.event_type() == "message_start"@,
        event is ContentBlockStart ==> event.event_type() == "content_block_start"@,
        event is ContentBlockDelta ==> event.event_type() == "content_block_delta"@,
        event is ContentBlockStop ==> event.event_type() == "content_block_stop"@,
        event is MessageDelta ==> event.event_type() == "message_delta"@,
        event is MessageStop ==> event.event_type() == "message_stop"@,
        event is Error ==> event.event_type() == "error"@,
{
}

} // verus!
