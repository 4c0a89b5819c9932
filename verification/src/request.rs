//! The request and response facts that the learners read.
use serde_json::Value;
use vstd::prelude::*;

verus! {

/// One part of a structured message content.
#[derive(Debug)]
pub enum ContentPart {
    /// A piece of text.
    Text {
        /// The text.
        text: String,
    },
    /// A reference to an image.
    ImageUrl {
        /// Where the image is.
        url: String,
    },
}

/// Content of one message.
#[derive(Debug)]
pub enum MessageContent {
    /// Plain text.
    Text(String),
    /// A list of parts.
    Parts(Vec<ContentPart>),
}

/// One message of a conversation.
#[derive(Debug)]
#[allow(inconsistent_fields)]
pub enum Message {
    /// Instructions to the model.
    System {
        /// What the message says.
        content: MessageContent,
    },
    /// A turn of the user.
    User {
        /// What the message says.
        content: MessageContent,
    },
    /// A turn of the model.
    Assistant {
        /// What the message says, when it says anything.
        content: Option<MessageContent>,
    },
    /// The result of a tool call.
    Tool {
        /// What the message says.
        content: MessageContent,
        /// The tool call that this message answers.
        tool_call_id: String,
    },
}

/// A tool offered to the model.
#[derive(Debug)]
pub struct ToolDefinition {
    /// Name of the tool.
    pub name: String,
}

/// Sampling parameters of a request.
#[derive(Debug)]
pub struct GenerationParams {
    /// Upper bound on generated tokens, when set.
    pub max_tokens: Option<u64>,
}

/// A decoded LLM request.
#[derive(Debug)]
pub struct AnnotatedLlmRequest {
    /// Conversation so far.
    pub messages: Vec<Message>,
    /// Requested model, when named.
    pub model: Option<String>,
    /// Sampling parameters, when present.
    pub params: Option<GenerationParams>,
    /// Offered tools, when present.
    pub tools: Option<Vec<ToolDefinition>>,
    /// Upper bound on output tokens, when set.
    pub max_output_tokens: Option<u64>,
    /// Fields that no other member stands for.
    pub extra: serde_json::Map<String, Value>,
}

/// A tool call that a response asks for.
#[derive(Debug)]
pub struct ResponseToolCall {
    /// Correlation identifier of the call.
    pub id: String,
    /// Name of the tool.
    pub name: String,
}

/// Token counts that a provider reported.
#[derive(Debug, Clone, Copy, PartialEq, Eq, Structural)]
pub struct Usage {
    /// Tokens of the prompt.
    pub prompt_tokens: Option<u64>,
    /// Tokens of the completion.
    pub completion_tokens: Option<u64>,
    /// Tokens in all.
    pub total_tokens: Option<u64>,
}

/// Why a model stopped generating.
#[derive(Debug)]
pub enum FinishReason {
    /// A natural end.
    Stop,
    /// A length limit.
    Length,
    /// A request for tool calls.
    ToolCalls,
    /// A content filter.
    ContentFilter,
    /// Anything else, in the provider's words.
    Other(String),
}

/// A decoded LLM response.
#[derive(Debug)]
pub struct AnnotatedLlmResponse {
    /// Model that answered, when named.
    pub model: Option<String>,
    /// Tool calls that the response asks for, when present.
    pub tool_calls: Option<Vec<ResponseToolCall>>,
    /// Why generation stopped, when reported.
    pub finish_reason: Option<FinishReason>,
    /// Token counts, when reported.
    pub usage: Option<Usage>,
    /// Fields that no other member stands for.
    pub extra: serde_json::Map<String, Value>,
}

/// An LLM request as it goes over the wire.
#[derive(Debug)]
pub struct LlmRequest {
    /// Request headers.
    pub headers: serde_json::Map<String, Value>,
    /// Request body.
    pub content: Value,
}

/// Copies a finish reason.
pub fn copy_finish_reason(reason: &Option<FinishReason>) -> (r: Option<FinishReason>)
    ensures
        r == *reason,
{
    match reason {
        None => None,
        Some(FinishReason::Stop) => Some(FinishReason::Stop),
        Some(FinishReason::Length) => Some(FinishReason::Length),
        Some(FinishReason::ToolCalls) => Some(FinishReason::ToolCalls),
        Some(FinishReason::ContentFilter) => Some(FinishReason::ContentFilter),
        Some(FinishReason::Other(text)) => Some(FinishReason::Other(text.clone())),
    }
}

} // verus!
