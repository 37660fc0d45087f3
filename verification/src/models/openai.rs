//! The chunks that a chat-completion backend streams, and their mathematical models.

use vstd::prelude::*;

verus! {

/// One chunk of a streamed completion.
#[derive(Debug)]
pub struct StreamChunk {
    pub id: Option<String>,
    pub model: Option<String>,
    pub choices: Vec<StreamChoice>,
    pub usage: Option<Usage>,
}

/// One of the alternative answers that a chunk continues.
#[derive(Debug)]
pub struct StreamChoice {
    pub index: usize,
    pub delta: ChoiceDelta,
    pub finish_reason: Option<String>,
}

/// What a chunk adds to an answer.
#[derive(Debug)]
pub struct ChoiceDelta {
    pub content: Option<String>,
    pub reasoning: Option<String>,
    pub reasoning_content: Option<String>,
    pub tool_calls: Option<Vec<DeltaToolCall>>,
}

/// A fragment of the tool call numbered `index`.
#[derive(Debug)]
pub struct DeltaToolCall {
    pub index: usize,
    pub id: Option<String>,
    pub call_type: Option<String>,
    pub function: Option<DeltaFunction>,
}

/// The part of a tool call fragment that concerns the function called.
#[derive(Debug)]
pub struct DeltaFunction {
    pub name: Option<String>,
    pub arguments: Option<String>,
}

/// Token counts of a whole completion.
#[derive(Debug, Clone, Copy, PartialEq, Eq, Structural)]
pub struct Usage {
    pub prompt_tokens: u32,
    pub completion_tokens: u32,
    pub total_tokens: u32,
}

/// Model of [`StreamChunk`].
#[verifier::ext_equal]
pub struct ChunkView {
    pub id: Option<Seq<char>>,
    pub model: Option<Seq<char>>,
    pub choices: Seq<ChoiceView>,
    pub usage: Option<Usage>,
}

/// Model of [`StreamChoice`].
#[verifier::ext_equal]
pub struct ChoiceView {
    pub index: usize,
    pub delta: DeltaView,
    pub finish_reason: Option<Seq<char>>,
}

/// Model of [`ChoiceDelta`].
#[verifier::ext_equal]
pub struct DeltaView {
    pub content: Option<Seq<char>>,
    pub reasoning: Option<Seq<char>>,
    pub reasoning_content: Option<Seq<char>>,
    pub tool_calls: Option<Seq<CallDeltaView>>,
}

/// Model of [`DeltaToolCall`].
#[verifier::ext_equal]
pub struct CallDeltaView {
    pub index: usize,
    pub id: Option<Seq<char>>,
    pub call_type: Option<Seq<char>>,
    pub function: Option<FunctionDeltaView>,
}

/// Model of [`DeltaFunction`].
#[verifier::ext_equal]
pub struct FunctionDeltaView {
    pub name: Option<Seq<char>>,
    pub arguments: Option<Seq<char>>,
}

impl DeepView for StreamChunk {
    type V = ChunkView;

    open spec fn deep_view(&self) -> ChunkView {
        ChunkView {
            id: self.id.deep_view(),
            model: self.model.deep_view(),
            choices: self.choices.deep_view(),
            usage: self.usage,
        }
    }
}

impl DeepView for StreamChoice {
    type V = ChoiceView;

    open spec fn deep_view(&self) -> ChoiceView {
        ChoiceView {
            index: self.index,
            delta: self.delta.deep_view(),
            finish_reason: self.finish_reason.deep_view(),
        }
    }
}

impl DeepView for ChoiceDelta {
    type V = DeltaView;

    open spec fn deep_view(&self) -> DeltaView {
        DeltaView {
            content: self.content.deep_view(),
            reasoning: self.reasoning.deep_view(),
            reasoning_content: self.reasoning_content.deep_view(),
            tool_calls: self.tool_calls.deep_view(),
        }
    }
}

impl DeepView for DeltaToolCall {
    type V = CallDeltaView;

    open spec fn deep_view(&self) -> CallDeltaView {
        CallDeltaView {
            index: self.index,
            id: self.id.deep_view(),
            call_type: self.call_type.deep_view(),
            function: self.function.deep_view(),
        }
    }
}

impl DeepView for DeltaFunction {
    type V = FunctionDeltaView;

    open spec fn deep_view(&self) -> FunctionDeltaView {
        FunctionDeltaView { name: self.name.deep_view(), arguments: self.arguments.deep_view() }
    }
}

} // verus!
