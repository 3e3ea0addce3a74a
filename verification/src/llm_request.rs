//! What is sent to a model provider and what comes back from its stream.

use vstd::prelude::*;
use crate::error::AgentCoreResult;
use crate::json::{Json, JsonNumber};
use crate::llm_model::ModelId;
use crate::message::{messages_view, MessageV, RunMessage};
use crate::tool_schema::ToolSchema;
use crate::text::owned;

verus! {

/// Sampling and storage options of a request. The temperature is kept as the JSON number
/// it is sent as.
#[derive(Debug, Clone, PartialEq)]
pub struct LlmRequestOptions {
    pub temperature: Option<JsonNumber>,
    pub max_output_tokens: Option<u32>,
    pub parallel_tool_calls: Option<bool>,
    pub store: bool,
    pub previous_response_id: Option<String>,
}

impl Default for LlmRequestOptions {
    fn default() -> (r: LlmRequestOptions)
        ensures
            r.temperature is None && r.max_output_tokens is None && r.parallel_tool_calls is None && !r.store
                && r.previous_response_id is None,
    {
        LlmRequestOptions { temperature: None, max_output_tokens: None, parallel_tool_calls: None, store: false, previous_response_id: None }
    }
}

/// The role of an input message.
#[derive(Debug, Clone, Copy, PartialEq, Eq, Structural)]
pub enum LlmMessageRole {
    User,
    Assistant,
    Developer,
    Diagnostic,
    Tool,
}

/// One part of an input message.
#[derive(Debug, Clone, PartialEq)]
pub enum LlmContentPart {
    Text { text: String },
    Reasoning { text: String },
    Json { value: Json },
    Custom { value: Json },
    ImageRef { uri: String },
    FileRef { uri: String },
    Diagnostic { message: String },
}

/// One item of a request's input.
#[derive(Debug, Clone, PartialEq)]
pub enum LlmInputItem {
    Message { role: LlmMessageRole, content: Vec<LlmContentPart>, metadata: Vec<(String, Json)> },
    FunctionCall { call_id: String, name: String, arguments: Json },
    FunctionCallOutput { call_id: String, output: Json, is_error: bool },
    Custom { value: Json },
}

/// A request to a model.
#[derive(Debug, Clone, PartialEq)]
pub struct LlmRequest {
    pub model: ModelId,
    pub api: Option<String>,
    pub instructions: Option<String>,
    pub messages: Vec<RunMessage>,
    pub input: Vec<LlmInputItem>,
    pub tools: Vec<ToolSchema>,
    pub options: LlmRequestOptions,
    pub metadata: Vec<(String, Json)>,
    pub headers: Vec<(String, String)>,
}

impl LlmRequest {
    /// An empty request for a model.
    pub fn new(model: &str) -> (r: LlmRequest)
        ensures
            r.model.0@ == model@,
            r.api is None && r.instructions is None,
            r.messages@.len() == 0 && r.input@.len() == 0 && r.tools@.len() == 0 && r.metadata@.len() == 0 && r.headers@.len() == 0,
            r.options.temperature is None && r.options.max_output_tokens is None && r.options.parallel_tool_calls is None
                && !r.options.store && r.options.previous_response_id is None,
    {
        LlmRequest {
            model: ModelId::new(model),
            api: None,
            instructions: None,
            messages: Vec::new(),
            input: Vec::new(),
            tools: Vec::new(),
            options: LlmRequestOptions::default(),
            metadata: Vec::new(),
            headers: Vec::new(),
        }
    }

    pub fn push_message(&mut self, message: RunMessage)
        ensures
            final(self).messages@ == old(self).messages@.push(message),
            final(self).model == old(self).model && final(self).api == old(self).api && final(self).instructions == old(self).instructions
                && final(self).input == old(self).input && final(self).tools == old(self).tools && final(self).options == old(self).options
                && final(self).metadata == old(self).metadata && final(self).headers == old(self).headers,
    {
        self.messages.push(message);
    }

    pub fn extend_messages(&mut self, messages: Vec<RunMessage>)
        ensures
            final(self).messages@ == old(self).messages@ + messages@,
            final(self).model == old(self).model && final(self).api == old(self).api && final(self).instructions == old(self).instructions
                && final(self).input == old(self).input && final(self).tools == old(self).tools && final(self).options == old(self).options
                && final(self).metadata == old(self).metadata && final(self).headers == old(self).headers,
    {
        let mut messages = messages;
        self.messages.append(&mut messages);
    }
}

/// Token counts a provider reports.
#[derive(Debug, Clone, Copy, PartialEq, Eq, Structural, Default)]
pub struct LlmUsage {
    pub input_tokens: u64,
    pub output_tokens: u64,
    pub total_tokens: u64,
}

/// One event of a provider's stream.
#[derive(Debug, Clone, PartialEq)]
pub enum LlmStreamEvent {
    PreparedRequest { provider: String, body: Json },
    ResponseCreated { response_id: String },
    TextDelta { text: String },
    ReasoningDelta { text: String },
    ToolCallDelta { call_id: String, name: Option<String>, arguments_delta: String },
    ToolCallCompleted { call_id: String, name: String, arguments: Json },
    Usage { usage: LlmUsage },
    Completed { response_id: Option<String> },
    Error { message: String, recoverable: bool },
}

/// The mathematical value of a [`LlmStreamEvent`].
pub enum EventV {
    PreparedRequest { provider: Seq<char>, body: crate::json::JsonV },
    ResponseCreated { response_id: Seq<char> },
    TextDelta { text: Seq<char> },
    ReasoningDelta { text: Seq<char> },
    ToolCallDelta { call_id: Seq<char>, name: Option<Seq<char>>, arguments_delta: Seq<char> },
    ToolCallCompleted { call_id: Seq<char>, name: Seq<char>, arguments: crate::json::JsonV },
    Usage { usage: LlmUsage },
    Completed { response_id: Option<Seq<char>> },
    Error { message: Seq<char>, recoverable: bool },
}

impl View for LlmStreamEvent {
    type V = EventV;

    open spec fn view(&self) -> EventV {
        match self {
            LlmStreamEvent::PreparedRequest { provider, body } => EventV::PreparedRequest { provider: provider@, body: body.view() },
            LlmStreamEvent::ResponseCreated { response_id } => EventV::ResponseCreated { response_id: response_id@ },
            LlmStreamEvent::TextDelta { text } => EventV::TextDelta { text: text@ },
            LlmStreamEvent::ReasoningDelta { text } => EventV::ReasoningDelta { text: text@ },
            LlmStreamEvent::ToolCallDelta { call_id, name, arguments_delta } => EventV::ToolCallDelta {
                call_id: call_id@,
                name: crate::message::opt_view(*name),
                arguments_delta: arguments_delta@,
            },
            LlmStreamEvent::ToolCallCompleted { call_id, name, arguments } => EventV::ToolCallCompleted {
                call_id: call_id@,
                name: name@,
                arguments: arguments.view(),
            },
            LlmStreamEvent::Usage { usage } => EventV::Usage { usage: *usage },
            LlmStreamEvent::Completed { response_id } => EventV::Completed { response_id: crate::message::opt_view(*response_id) },
            LlmStreamEvent::Error { message, recoverable } => EventV::Error { message: message@, recoverable: *recoverable },
        }
    }
}

pub open spec fn events_view(v: Seq<LlmStreamEvent>) -> Seq<EventV> {
    Seq::new(v.len(), |i: int| v[i]@)
}

/// A request as a provider will send it.
#[derive(Debug, Clone, PartialEq)]
pub struct PreparedLlmRequest {
    pub provider: String,
    pub api: String,
    pub endpoint: String,
    pub headers: Vec<(String, String)>,
    pub body: Json,
    pub metadata: Vec<(String, Json)>,
}

/// A model provider: maps requests onto its wire format. Providers are implemented by the
/// library's users as well.
pub trait LlmProvider {
    /// Whether `a` may be the API the provider names. By default any text may be; a
    /// provider verified with the library can say which.
    open spec fn gives_api(&self, a: Seq<char>) -> bool {
        true
    }

    fn provider_id(&self) -> &str;

    fn api(&self) -> (r: &str)
        ensures
            self.gives_api(r@);

    fn prepare_request(&self, request: &LlmRequest) -> AgentCoreResult<PreparedLlmRequest>;
}

/// The events of a provider's default stream: the prepared request alone.
pub fn prepared_stream(prepared: PreparedLlmRequest) -> (r: Vec<LlmStreamEvent>)
    ensures
        r@.len() == 1,
        r@[0] == (LlmStreamEvent::PreparedRequest { provider: prepared.provider, body: prepared.body }),
{
    let mut v: Vec<LlmStreamEvent> = Vec::new();
    v.push(LlmStreamEvent::PreparedRequest { provider: prepared.provider, body: prepared.body });
    v
}

} // verus!
