//! Chunks of a streamed chat completion.
//!
//! What is only passed on is left to type parameters: `P` is a
//! part of a multi-part content, `L` the log probabilities of a choice, `N` the
//! extension data of a response, `M` its metrics and `E` an error.

use vstd::prelude::*;

verus! {

/// Why a choice ended.
#[derive(Clone, Copy, Debug, PartialEq, Eq, Structural)]
pub enum FinishReason {
    Stop,
    Length,
    ToolCalls,
    ContentFilter,
    FunctionCall,
}

#[derive(Clone, Copy, Debug, PartialEq, Eq, Structural)]
pub enum Role {
    System,
    Developer,
    User,
    Assistant,
    Tool,
    Function,
}

#[derive(Clone, Copy, Debug, PartialEq, Eq, Structural)]
pub enum ServiceTier {
    Auto,
    Default,
    Flex,
    Scale,
    Priority,
}

#[derive(Debug, PartialEq, Eq)]
pub enum ChatCompletionMessageContent<P> {
    Text(String),
    Parts(Vec<P>),
}

/// Part of a function's name and arguments.
#[derive(Debug, PartialEq, Eq)]
pub struct FunctionCallStream {
    pub name: Option<String>,
    pub arguments: Option<String>,
}

/// Part of a call of a tool.
#[derive(Debug, PartialEq, Eq)]
pub struct ChatCompletionMessageToolCallChunk {
    pub index: u32,
    pub id: Option<String>,
    pub function: Option<FunctionCallStream>,
}

/// What a chunk adds to a choice.
#[derive(Debug, PartialEq, Eq)]
pub struct ChatCompletionStreamResponseDelta<P> {
    pub role: Option<Role>,
    pub content: Option<ChatCompletionMessageContent<P>>,
    pub tool_calls: Option<Vec<ChatCompletionMessageToolCallChunk>>,
    pub function_call: Option<FunctionCallStream>,
    pub refusal: Option<String>,
    pub reasoning_content: Option<String>,
}

#[derive(Debug, PartialEq, Eq)]
pub struct ChatChoiceStream<P, L> {
    pub index: u32,
    pub delta: ChatCompletionStreamResponseDelta<P>,
    pub finish_reason: Option<FinishReason>,
    pub logprobs: Option<L>,
}

#[derive(Clone, Copy, Debug, PartialEq, Eq)]
pub struct PromptTokensDetails {
    pub audio_tokens: Option<u32>,
    pub cached_tokens: Option<u32>,
}

#[derive(Clone, Copy, Debug, PartialEq, Eq)]
pub struct CompletionTokensDetails {
    pub accepted_prediction_tokens: Option<u32>,
    pub audio_tokens: Option<u32>,
    pub reasoning_tokens: Option<u32>,
    pub rejected_prediction_tokens: Option<u32>,
}

#[derive(Clone, Copy, Debug, PartialEq, Eq)]
pub struct CompletionUsage {
    pub prompt_tokens: u32,
    pub completion_tokens: u32,
    pub total_tokens: u32,
    pub prompt_tokens_details: Option<PromptTokensDetails>,
    pub completion_tokens_details: Option<CompletionTokensDetails>,
}

#[derive(Debug, PartialEq, Eq)]
pub struct CreateChatCompletionStreamResponse<P, L> {
    pub id: String,
    pub choices: Vec<ChatChoiceStream<P, L>>,
    pub created: u32,
    pub model: String,
    pub service_tier: Option<ServiceTier>,
    pub system_fingerprint: Option<String>,
    pub object: String,
    pub usage: Option<CompletionUsage>,
}

#[derive(Debug, PartialEq, Eq)]
pub struct NvCreateChatCompletionStreamResponse<P, L, N, M> {
    pub inner: CreateChatCompletionStreamResponse<P, L>,
    pub nvext: Option<N>,
    pub llm_metrics: Option<M>,
}

/// A message of a stream, with what travels beside its data.
#[derive(Debug, PartialEq, Eq)]
pub struct Annotated<R, E> {
    pub data: Option<R>,
    pub id: Option<String>,
    pub event: Option<String>,
    pub comment: Option<Vec<String>>,
    pub error: Option<E>,
}

} // verus!
