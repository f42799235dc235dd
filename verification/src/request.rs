//! Inference requests, the chunks of a streamed answer, and what routing looks at.

use vstd::prelude::*;

use crate::ids::{BackendId, BackendView, RequestId, SessionId, TenantId};
use crate::metrics::RealBits;

verus! {

/// A chat message.
#[derive(Debug, PartialEq, Eq)]
pub struct ChatMessage {
    /// Who speaks: `system`, `user` or `assistant`.
    pub role: String,
    /// What they say.
    pub content: String,
}

impl Clone for ChatMessage {
    fn clone(&self) -> (copy: Self)
        ensures
            copy == *self,
    {
        ChatMessage { role: self.role.clone(), content: self.content.clone() }
    }
}

/// A tool that a model may call.
#[derive(Debug, PartialEq, Eq)]
pub struct ToolDefinition {
    /// Its name.
    pub name: String,
    /// What it does.
    pub description: String,
    /// JSON schema of its parameters.
    pub parameters_schema: String,
}

impl Clone for ToolDefinition {
    fn clone(&self) -> (copy: Self)
        ensures
            copy == *self,
    {
        ToolDefinition {
            name: self.name.clone(),
            description: self.description.clone(),
            parameters_schema: self.parameters_schema.clone(),
        }
    }
}

/// An inference request.
#[derive(Clone, Debug)]
pub struct InferenceRequest {
    /// The request.
    pub request_id: RequestId,
    /// Model that is asked.
    pub model: String,
    /// The conversation.
    pub messages: Vec<ChatMessage>,
    /// The prompt as tokens, beside the messages or in place of them.
    pub token_ids: Vec<u32>,
    /// Most tokens to generate.
    pub max_tokens: u32,
    /// Sampling temperature.
    pub temperature: RealBits,
    /// Whether the answer is streamed.
    pub stream: bool,
    /// Tools that may be called.
    pub tools: Vec<ToolDefinition>,
    /// LoRA adapter.
    pub lora_name: Option<String>,
}

/// The temperature of a request that names none: one.
pub fn default_temperature() -> (temperature: RealBits)
    ensures
        temperature == RealBits(0x3FF0_0000_0000_0000),
{
    RealBits(0x3FF0_0000_0000_0000)
}

/// A piece of a streamed answer.
#[derive(Clone, Debug, PartialEq, Eq)]
pub enum InferenceChunk {
    /// More text.
    Delta {
        /// The text.
        text: String,
        /// Why the answer ends here, if it does.
        finish_reason: Option<String>,
    },
    /// A call of a tool.
    ToolCall {
        /// The call.
        id: String,
        /// Name of the tool.
        function: String,
        /// Arguments as JSON text.
        args: String,
    },
    /// The end of the stream.
    Done {
        /// Backend that answered.
        backend_id: BackendId,
        /// Time from the request to the end, in milliseconds.
        latency_ms: u64,
    },
    /// A failure.
    Error {
        /// Code, with the meaning of an HTTP status.
        code: u16,
        /// What went wrong.
        message: String,
    },
}

/// What a piece of a streamed answer says.
pub enum ChunkView {
    /// More text.
    Delta {
        /// The text.
        text: Seq<char>,
        /// Why the answer ends here, if it does.
        finish_reason: Option<Seq<char>>,
    },
    /// A call of a tool.
    ToolCall {
        /// The call.
        id: Seq<char>,
        /// Name of the tool.
        function: Seq<char>,
        /// Arguments as JSON text.
        args: Seq<char>,
    },
    /// The end of the stream.
    Done {
        /// Backend that answered.
        backend_id: BackendView,
        /// Time from the request to the end, in milliseconds.
        latency_ms: u64,
    },
    /// A failure.
    Error {
        /// Code, with the meaning of an HTTP status.
        code: u16,
        /// What went wrong.
        message: Seq<char>,
    },
}

/// The view of a text that may be missing.
pub open spec fn optional(text: Option<String>) -> Option<Seq<char>> {
    match text {
        Some(given) => Some(given@),
        None => None,
    }
}

impl View for InferenceChunk {
    type V = ChunkView;

    open spec fn view(&self) -> ChunkView {
        match *self {
            InferenceChunk::Delta { text, finish_reason } => ChunkView::Delta {
                text: text@,
                finish_reason: optional(finish_reason),
            },
            InferenceChunk::ToolCall { id, function, args } => ChunkView::ToolCall {
                id: id@,
                function: function@,
                args: args@,
            },
            InferenceChunk::Done { backend_id, latency_ms } => ChunkView::Done {
                backend_id: backend_id@,
                latency_ms,
            },
            InferenceChunk::Error { code, message } => ChunkView::Error {
                code,
                message: message@,
            },
        }
    }
}

/// How a strategy ranks a backend.
#[derive(Clone, Debug)]
pub struct ScoredBackend {
    /// The backend.
    pub backend_id: BackendId,
    /// Score; more is better.
    pub score: RealBits,
    /// Cost; less is better.
    pub raw_cost: RealBits,
    /// Version of the metadata that the score was made from.
    pub meta_version: u64,
}

/// What routing looks at.
#[derive(Clone, Debug)]
pub struct RoutingContext {
    /// The request.
    pub request_id: Option<RequestId>,
    /// Its session.
    pub session_id: Option<SessionId>,
    /// Its tenant.
    pub tenant_id: Option<TenantId>,
    /// Model that is asked.
    pub model_name: Option<String>,
    /// The prompt as tokens.
    pub token_ids: Vec<u32>,
    /// Hashes of the prompt's blocks.
    pub block_hashes: Vec<u64>,
    /// Tokens per block.
    pub block_size: u32,
    /// LoRA adapter.
    pub lora_name: Option<String>,
    /// Namespace of the cache.
    pub cache_namespace: Option<String>,
    /// Tokens that the answer is expected to have.
    pub estimated_output_tokens: u32,
    /// Whether the backend must be able to call tools.
    pub requires_tool_calling: bool,
}

impl Default for RoutingContext {
    fn default() -> (context: Self)
        ensures
            context.request_id is None,
            context.session_id is None,
            context.tenant_id is None,
            context.model_name is None,
            context.token_ids@.len() == 0,
            context.block_hashes@.len() == 0,
            context.block_size == 0,
            context.lora_name is None,
            context.cache_namespace is None,
            context.estimated_output_tokens == 0,
            !context.requires_tool_calling,
    {
        RoutingContext {
            request_id: None,
            session_id: None,
            tenant_id: None,
            model_name: None,
            token_ids: Vec::new(),
            block_hashes: Vec::new(),
            block_size: 0,
            lora_name: None,
            cache_namespace: None,
            estimated_output_tokens: 0,
            requires_tool_calling: false,
        }
    }
}

/// A piece of an answer is read as it is.
pub proof fn a_piece_is_read_as_it_is(chunk: InferenceChunk)
    ensures
        match chunk {
            InferenceChunk::Delta { text, finish_reason } => chunk@ matches ChunkView::Delta {
                text: read,
                finish_reason: why,
            } && read == text@ && (why is Some) == (finish_reason is Some) && (finish_reason is Some
                ==> why->0 == finish_reason->0@),
            InferenceChunk::ToolCall { id, function, args } => chunk@ == (ChunkView::ToolCall {
                id: id@,
                function: function@,
                args: args@,
            }),
            InferenceChunk::Done { backend_id, latency_ms } => chunk@ == (ChunkView::Done {
                backend_id: backend_id@,
                latency_ms,
            }),
            InferenceChunk::Error { code, message } => chunk@ == (ChunkView::Error {
                code,
                message: message@,
            }),
        },
{
}

} // verus!
