//! The events that a client of the messages protocol receives, and their mathematical models.

use vstd::prelude::*;

verus! {

/// One event of a streamed message.
#[allow(inconsistent_fields)]
#[derive(Debug)]
pub enum StreamEvent {
    MessageStart { message: MessageStartData },
    ContentBlockStart { index: usize, content_block: ContentBlockStart },
    ContentBlockDelta { index: usize, delta: Delta },
    ContentBlockStop { index: usize },
    MessageDelta { delta: MessageDeltaData, usage: DeltaUsage },
    MessageStop,
    Error { error: ErrorData },
}

/// The head of a message.
#[derive(Debug)]
pub struct MessageStartData {
    pub id: String,
    pub message_type: String,
    pub role: String,
    pub model: String,
    pub usage: Usage,
}

/// Token counts at the head of a message.
#[derive(Debug, Clone, Copy, PartialEq, Eq, Structural)]
pub struct Usage {
    pub input_tokens: u32,
    pub output_tokens: u32,
}

/// What kind of content block opens, with what it holds from the start.
#[derive(Debug)]
pub enum ContentBlockStart {
    Text { text: String },
    Thinking { thinking: String },
    ToolUse { id: String, name: String },
}

/// What is added to an open content block.
#[derive(Debug)]
pub enum Delta {
    TextDelta { text: String },
    ThinkingDelta { thinking: String },
    InputJsonDelta { partial_json: String },
}

/// Why a message ends.
#[derive(Debug)]
pub struct MessageDeltaData {
    pub stop_reason: Option<String>,
    pub stop_sequence: Option<String>,
}

/// Token counts at the end of a message.
#[derive(Debug, Clone, Copy, PartialEq, Eq, Structural)]
pub struct DeltaUsage {
    pub input_tokens: Option<u32>,
    pub output_tokens: u32,
}

/// What went wrong with a stream.
#[derive(Debug)]
pub struct ErrorData {
    pub error_type: String,
    pub message: String,
}

/// Model of [`StreamEvent`].
#[allow(inconsistent_fields)]
#[verifier::ext_equal]
pub enum EventView {
    MessageStart { message: MessageStartView },
    ContentBlockStart { index: int, content_block: BlockStartView },
    ContentBlockDelta { index: int, delta: BlockDeltaView },
    ContentBlockStop { index: int },
    MessageDelta { delta: MessageDeltaView, usage: DeltaUsage },
    MessageStop,
    Error { error: ErrorView },
}

/// Model of [`MessageStartData`].
#[verifier::ext_equal]
pub struct MessageStartView {
    pub id: Seq<char>,
    pub message_type: Seq<char>,
    pub role: Seq<char>,
    pub model: Seq<char>,
    pub usage: Usage,
}

/// Model of [`ContentBlockStart`].
#[verifier::ext_equal]
pub enum BlockStartView {
    Text { text: Seq<char> },
    Thinking { thinking: Seq<char> },
    ToolUse { id: Seq<char>, name: Seq<char> },
}

/// Model of [`Delta`].
#[verifier::ext_equal]
pub enum BlockDeltaView {
    TextDelta { text: Seq<char> },
    ThinkingDelta { thinking: Seq<char> },
    InputJsonDelta { partial_json: Seq<char> },
}

/// Model of [`MessageDeltaData`].
#[verifier::ext_equal]
pub struct MessageDeltaView {
    pub stop_reason: Option<Seq<char>>,
    pub stop_sequence: Option<Seq<char>>,
}

/// Model of [`ErrorData`].
#[verifier::ext_equal]
pub struct ErrorView {
    pub error_type: Seq<char>,
    pub message: Seq<char>,
}

impl EventView {
    /// The name by which the protocol knows this kind of event.
    pub open spec fn event_type(self) -> Seq<char> {
        match self {
            EventView::MessageStart { .. } => "message_start"@,
            EventView::ContentBlockStart { .. } => "content_block_start"@,
            EventView::ContentBlockDelta { .. } => "content_block_delta"@,
            EventView::ContentBlockStop { .. } => "content_block_stop"@,
            EventView::MessageDelta { .. } => "message_delta"@,
            EventView::MessageStop => "message_stop"@,
            EventView::Error { .. } => "error"@,
        }
    }
}

impl StreamEvent {
    /// The name by which the protocol knows this kind of event.
    pub fn event_type(&self) -> (name: &'static str)
        ensures
            name@ == self.deep_view().event_type(),
    {
        match self {
            StreamEvent::MessageStart { .. } => "message_start",
            StreamEvent::ContentBlockStart { .. } => "content_block_start",
            StreamEvent::ContentBlockDelta { .. } => "content_block_delta",
            StreamEvent::ContentBlockStop { .. } => "content_block_stop",
            StreamEvent::MessageDelta { .. } => "message_delta",
            StreamEvent::MessageStop => "message_stop",
            StreamEvent::Error { .. } => "error",
        }
    }
}

impl DeepView for StreamEvent {
    type V = EventView;

    open spec fn deep_view(&self) -> EventView {
        match *self {
            StreamEvent::MessageStart { message } => EventView::MessageStart {
                message: message.deep_view(),
            },
            StreamEvent::ContentBlockStart { index, content_block } => {
                EventView::ContentBlockStart {
                    index: index as int,
                    content_block: content_block.deep_view(),
                }
            },
            StreamEvent::ContentBlockDelta { index, delta } => EventView::ContentBlockDelta {
                index: index as int,
                delta: delta.deep_view(),
            },
            StreamEvent::ContentBlockStop { index } => EventView::ContentBlockStop {
                index: index as int,
            },
            StreamEvent::MessageDelta { delta, usage } => EventView::MessageDelta {
                delta: delta.deep_view(),
                usage,
            },
            StreamEvent::MessageStop => EventView::MessageStop,
            StreamEvent::Error { error } => EventView::Error { error: error.deep_view() },
        }
    }
}

impl DeepView for MessageStartData {
    type V = MessageStartView;

    open spec fn deep_view(&self) -> MessageStartView {
        MessageStartView {
            id: self.id@,
            message_type: self.message_type@,
            role: self.role@,
            model: self.model@,
            usage: self.usage,
        }
    }
}

impl DeepView for ContentBlockStart {
    type V = BlockStartView;

    open spec fn deep_view(&self) -> BlockStartView {
        match *self {
            ContentBlockStart::Text { text } => BlockStartView::Text { text: text@ },
            ContentBlockStart::Thinking { thinking } => BlockStartView::Thinking {
                thinking: thinking@,
            },
            ContentBlockStart::ToolUse { id, name } => BlockStartView::ToolUse {
                id: id@,
                name: name@,
            },
        }
    }
}

impl DeepView for Delta {
    type V = BlockDeltaView;

    open spec fn deep_view(&self) -> BlockDeltaView {
        match *self {
            Delta::TextDelta { text } => BlockDeltaView::TextDelta { text: text@ },
            Delta::ThinkingDelta { thinking } => BlockDeltaView::ThinkingDelta {
                thinking: thinking@,
            },
            Delta::InputJsonDelta { partial_json } => BlockDeltaView::InputJsonDelta {
                partial_json: partial_json@,
            },
        }
    }
}

impl DeepView for MessageDeltaData {
    type V = MessageDeltaView;

    open spec fn deep_view(&self) -> MessageDeltaView {
        MessageDeltaView {
            stop_reason: self.stop_reason.deep_view(),
            stop_sequence: self.stop_sequence.deep_view(),
        }
    }
}

impl DeepView for ErrorData {
    type V = ErrorView;

    open spec fn deep_view(&self) -> ErrorView {
        ErrorView { error_type: self.error_type@, message: self.message@ }
    }
}

} // verus!
