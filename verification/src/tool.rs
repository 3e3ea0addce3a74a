//! Tools: what a tool declares about itself, how it is invoked, what it answers, and the
//! permission decisions taken before it runs.

use vstd::prelude::*;
use crate::definition::ToolVisibility;
use crate::error::{error_detail, error_prefix, AgentCoreError, AgentCoreResult};
use crate::json::{dup_fields, empty_object, fields_insert, fields_set, json_dup, keys_sorted, object_view, Json, JsonV, array_view};
use crate::message::{blocks_view, BlockV, MessageRole, MessageStatus, RunMessage};
use crate::text::{dup_string, owned};
use crate::tool_schema::ToolSchema;

verus! {

/// What a tool may do.
#[derive(Debug, Clone, Copy, PartialEq, Eq, Structural)]
pub struct ToolCapabilities {
    pub read_only: bool,
    pub idempotent: bool,
    pub destructive: bool,
    pub requires_network: bool,
    pub supports_streaming: bool,
}

impl Default for ToolCapabilities {
    fn default() -> (r: ToolCapabilities)
        ensures
            !r.read_only && !r.idempotent && !r.destructive && !r.requires_network && !r.supports_streaming,
    {
        ToolCapabilities { read_only: false, idempotent: false, destructive: false, requires_network: false, supports_streaming: false }
    }
}

/// What the model is shown of a tool's result.
#[derive(Debug, Clone, Copy, PartialEq, Eq, Structural)]
pub enum ToolResultPolicy {
    ReturnFull,
    ReturnSummary,
    Hidden,
}

/// How a tool is run.
#[derive(Debug, Clone, Copy, PartialEq, Eq, Structural)]
pub struct ToolExecutionMetadata {
    pub timeout_ms: Option<u64>,
    pub interruptible: bool,
    pub result_policy: ToolResultPolicy,
}

impl Default for ToolExecutionMetadata {
    fn default() -> (r: ToolExecutionMetadata)
        ensures
            r.timeout_ms is None && r.interruptible && r.result_policy == ToolResultPolicy::ReturnFull,
    {
        ToolExecutionMetadata { timeout_ms: None, interruptible: true, result_policy: ToolResultPolicy::ReturnFull }
    }
}

/// What a tool declares: its schema, how it is offered by default, what it may do and how
/// it is run.
#[derive(Debug)]
pub struct ToolMetadata {
    pub schema: ToolSchema,
    pub default_visibility: ToolVisibility,
    pub capabilities: ToolCapabilities,
    pub execution: ToolExecutionMetadata,
}

impl ToolMetadata {
    pub fn new(schema: ToolSchema, default_visibility: ToolVisibility) -> (r: ToolMetadata)
        ensures
            r.schema == schema && r.default_visibility == default_visibility,
            !r.capabilities.read_only && !r.capabilities.idempotent && !r.capabilities.destructive
                && !r.capabilities.requires_network && !r.capabilities.supports_streaming,
            r.execution.timeout_ms is None && r.execution.interruptible && r.execution.result_policy == ToolResultPolicy::ReturnFull,
    {
        ToolMetadata { schema, default_visibility, capabilities: ToolCapabilities::default(), execution: ToolExecutionMetadata::default() }
    }

    pub fn name(&self) -> (r: &str)
        ensures
            r@ == self.schema.name@,
    {
        self.schema.name.as_str()
    }

    /// A tool may run ahead of time when it only reads, is idempotent and destroys nothing.
    pub fn can_preexecute(&self) -> (r: bool)
        ensures
            r == (self.capabilities.read_only && self.capabilities.idempotent && !self.capabilities.destructive),
    {
        self.capabilities.read_only && self.capabilities.idempotent && !self.capabilities.destructive
    }

    pub fn dup(&self) -> (r: ToolMetadata)
        ensures
            r.schema@ == self.schema@ && r.default_visibility == self.default_visibility && r.capabilities == self.capabilities
                && r.execution == self.execution,
    {
        ToolMetadata { schema: self.schema.dup(), default_visibility: self.default_visibility, capabilities: self.capabilities, execution: self.execution }
    }
}

/// One call of a tool.
#[derive(Debug)]
pub struct ToolInvocation {
    pub call_id: String,
    pub tool_name: String,
    pub arguments: Json,
    pub metadata: Vec<(String, Json)>,
}

impl ToolInvocation {
    pub fn new(call_id: &str, tool_name: &str, arguments: Json) -> (r: ToolInvocation)
        ensures
            r.call_id@ == call_id@ && r.tool_name@ == tool_name@ && r.arguments == arguments && r.metadata@.len() == 0,
    {
        ToolInvocation { call_id: owned(call_id), tool_name: owned(tool_name), arguments, metadata: Vec::new() }
    }
}

/// What a tool answers.
#[derive(Debug)]
pub struct ToolOutput {
    pub output: Json,
    pub metadata: Vec<(String, Json)>,
}

impl ToolOutput {
    pub fn new(output: Json) -> (r: ToolOutput)
        ensures
            r.output == output && r.metadata@.len() == 0,
    {
        ToolOutput { output, metadata: Vec::new() }
    }
}

/// A tool: its declaration and its behaviour, both the implementer's.
pub trait Tool {
    /// Whether `m` may be what the tool declares. By default anything may be; a tool
    /// verified with the library can say what it declares.
    open spec fn declares(&self, m: ToolMetadata) -> bool {
        true
    }

    /// Whether the tool, handed `invocation`, may give `r`. By default any outcome may
    /// come; a tool verified with the library can say more.
    open spec fn invokes(&self, invocation: ToolInvocation, r: AgentCoreResult<ToolOutput>) -> bool {
        true
    }

    fn metadata(&self) -> (r: &ToolMetadata)
        ensures
            self.declares(*r);

    fn invoke(&self, invocation: ToolInvocation) -> (r: AgentCoreResult<ToolOutput>)
        ensures
            self.invokes(invocation, r);
}

/// How a tool call ended.
#[derive(Debug, Clone, Copy, PartialEq, Eq, Structural)]
pub enum ToolResultStatus {
    Success,
    Denied,
    Error,
}

pub open spec fn status_name(s: ToolResultStatus) -> Seq<char> {
    match s {
        ToolResultStatus::Success => "success"@,
        ToolResultStatus::Denied => "denied"@,
        ToolResultStatus::Error => "error"@,
    }
}

fn status_text(s: ToolResultStatus) -> (r: &'static str)
    ensures
        r@ == status_name(s),
{
    match s {
        ToolResultStatus::Success => "success",
        ToolResultStatus::Denied => "denied",
        ToolResultStatus::Error => "error",
    }
}

/// A piece of a tool result: text or a JSON value.
#[derive(Debug)]
pub enum ToolResultContent {
    Text(String),
    Json(Json),
}

pub enum ContentV {
    Text(Seq<char>),
    Json(JsonV),
}

impl ToolResultContent {
    pub open spec fn view(&self) -> ContentV {
        match self {
            ToolResultContent::Text(t) => ContentV::Text(t@),
            ToolResultContent::Json(v) => ContentV::Json(v.view()),
        }
    }

    /// The piece as one JSON value: text becomes a string.
    pub fn to_value(&self) -> (r: Json)
        ensures
            r.view() == content_value(self@),
    {
        match self {
            ToolResultContent::Text(t) => Json::str_of(t.as_str()),
            ToolResultContent::Json(v) => json_dup(v),
        }
    }

    /// The piece as it is serialized: its kind and its value.
    pub fn to_json(&self) -> (r: Json)
        ensures
            r.view() == content_json(self@),
    {
        let mut o = Json::new_object();
        match self {
            ToolResultContent::Text(t) => {
                o.set("kind", Json::str_of("text"));
                o.set("value", Json::str_of(t.as_str()));
            },
            ToolResultContent::Json(v) => {
                o.set("kind", Json::str_of("json"));
                o.set("value", json_dup(v));
            },
        }
        o
    }
}

pub open spec fn content_value(c: ContentV) -> JsonV {
    match c {
        ContentV::Text(t) => JsonV::Str(t),
        ContentV::Json(v) => v,
    }
}

pub open spec fn content_json(c: ContentV) -> JsonV {
    match c {
        ContentV::Text(t) => empty_object().with("kind"@, JsonV::Str("text"@)).with("value"@, JsonV::Str(t)),
        ContentV::Json(v) => empty_object().with("kind"@, JsonV::Str("json"@)).with("value"@, v),
    }
}

pub open spec fn contents_view(v: Seq<ToolResultContent>) -> Seq<ContentV> {
    Seq::new(v.len(), |i: int| v[i]@)
}

/// Why a call failed, and whether another try may succeed.
#[derive(Debug, PartialEq, Eq)]
pub struct ToolResultError {
    pub message: String,
    pub recoverable: bool,
}

/// The result of one tool call.
#[derive(Debug)]
pub struct ToolResult {
    pub call_id: String,
    pub tool_name: String,
    pub status: ToolResultStatus,
    pub content: Vec<ToolResultContent>,
    pub raw_output: Option<Json>,
    pub error: Option<ToolResultError>,
    pub metadata: Vec<(String, Json)>,
}

pub struct ResultV {
    pub call_id: Seq<char>,
    pub tool_name: Seq<char>,
    pub status: ToolResultStatus,
    pub content: Seq<ContentV>,
    pub raw_output: Option<JsonV>,
    pub error: Option<(Seq<char>, bool)>,
    pub metadata: Seq<(Seq<char>, JsonV)>,
}

/// What the model is given of a result: its raw output, else its one piece, else all its
/// pieces as an array.
pub open spec fn output_for_model_of(r: ResultV) -> JsonV {
    match r.raw_output {
        Some(v) => v,
        None => if r.content.len() == 1 {
            content_value(r.content[0])
        } else {
            JsonV::Array(Seq::new(r.content.len(), |i: int| content_value(r.content[i])))
        },
    }
}

pub open spec fn error_json(e: Option<(Seq<char>, bool)>) -> JsonV {
    match e {
        Some((m, rec)) => empty_object().with("message"@, JsonV::Str(m)).with("recoverable"@, JsonV::Bool(rec)),
        None => JsonV::Null,
    }
}

/// The serialized content block of a result.
pub open spec fn content_block_json(r: ResultV) -> JsonV {
    empty_object()
        .with("type"@, JsonV::Str("tool_result"@))
        .with("call_id"@, JsonV::Str(r.call_id))
        .with("tool_name"@, JsonV::Str(r.tool_name))
        .with("is_error"@, JsonV::Bool(r.status != ToolResultStatus::Success))
        .with("status"@, JsonV::Str(status_name(r.status)))
        .with("content"@, JsonV::Array(Seq::new(r.content.len(), |i: int| content_json(r.content[i]))))
        .with("output"@, output_for_model_of(r))
        .with("error"@, error_json(r.error))
        .with("metadata"@, JsonV::Object(r.metadata))
}

/// The serialized tool message carrying a result.
pub open spec fn run_message_json(r: ResultV) -> JsonV {
    empty_object()
        .with("role"@, JsonV::Str("tool"@))
        .with("content"@, JsonV::Array(seq![content_block_json(r)]))
        .with("metadata"@, empty_object().with("tool_name"@, JsonV::Str(r.tool_name)).with("call_id"@, JsonV::Str(r.call_id)))
}

impl ToolResult {
    pub open spec fn view(&self) -> ResultV {
        ResultV {
            call_id: self.call_id@,
            tool_name: self.tool_name@,
            status: self.status,
            content: contents_view(self.content@),
            raw_output: match self.raw_output {
                Some(v) => Some(v.view()),
                None => None,
            },
            error: match self.error {
                Some(e) => Some((e.message@, e.recoverable)),
                None => None,
            },
            metadata: object_view(self.metadata@),
        }
    }

    /// A successful call: the output is its one piece and its raw output.
    pub fn success(call_id: &str, tool_name: &str, output: Json) -> (r: ToolResult)
        ensures
            r@ == (ResultV {
                call_id: call_id@,
                tool_name: tool_name@,
                status: ToolResultStatus::Success,
                content: seq![ContentV::Json(output.view())],
                raw_output: Some(output.view()),
                error: None,
                metadata: Seq::empty(),
            }),
    {
        let copy = json_dup(&output);
        let r = ToolResult {
            call_id: owned(call_id),
            tool_name: owned(tool_name),
            status: ToolResultStatus::Success,
            content: vec![ToolResultContent::Json(copy)],
            raw_output: Some(output),
            error: None,
            metadata: Vec::new(),
        };
        assert(contents_view(r.content@) =~= seq![ContentV::Json(output.view())]);
        assert(object_view(r.metadata@) =~= Seq::empty());
        r
    }

    /// A call the permission policy refused: the reason is its text and its recoverable error.
    pub fn denied(call_id: &str, tool_name: &str, reason: &str) -> (r: ToolResult)
        ensures
            r@ == (ResultV {
                call_id: call_id@,
                tool_name: tool_name@,
                status: ToolResultStatus::Denied,
                content: seq![ContentV::Text(reason@)],
                raw_output: None,
                error: Some((reason@, true)),
                metadata: Seq::empty(),
            }),
    {
        let r = ToolResult {
            call_id: owned(call_id),
            tool_name: owned(tool_name),
            status: ToolResultStatus::Denied,
            content: vec![ToolResultContent::Text(owned(reason))],
            raw_output: None,
            error: Some(ToolResultError { message: owned(reason), recoverable: true }),
            metadata: Vec::new(),
        };
        assert(contents_view(r.content@) =~= seq![ContentV::Text(reason@)]);
        assert(object_view(r.metadata@) =~= Seq::empty());
        r
    }

    /// A call that failed: the message is its text and its error.
    pub fn failed(call_id: &str, tool_name: &str, message: &str, recoverable: bool) -> (r: ToolResult)
        ensures
            r@ == (ResultV {
                call_id: call_id@,
                tool_name: tool_name@,
                status: ToolResultStatus::Error,
                content: seq![ContentV::Text(message@)],
                raw_output: None,
                error: Some((message@, recoverable)),
                metadata: Seq::empty(),
            }),
    {
        let r = ToolResult {
            call_id: owned(call_id),
            tool_name: owned(tool_name),
            status: ToolResultStatus::Error,
            content: vec![ToolResultContent::Text(owned(message))],
            raw_output: None,
            error: Some(ToolResultError { message: owned(message), recoverable }),
            metadata: Vec::new(),
        };
        assert(contents_view(r.content@) =~= seq![ContentV::Text(message@)]);
        assert(object_view(r.metadata@) =~= Seq::empty());
        r
    }

    pub fn is_error(&self) -> (r: bool)
        ensures
            r == (self.status != ToolResultStatus::Success),
    {
        match self.status {
            ToolResultStatus::Success => false,
            _ => true,
        }
    }

    pub fn output_for_model(&self) -> (r: Json)
        ensures
            r.view() == output_for_model_of(self@),
    {
        match &self.raw_output {
            Some(v) => {
                return json_dup(v);
            },
            None => {},
        }
        if self.content.len() == 1 {
            return self.content[0].to_value();
        }
        let mut values: Vec<Json> = Vec::new();
        let mut i: usize = 0;
        while i < self.content.len()
            invariant
                i <= self.content@.len(),
                values@.len() == i,
                forall|k: int| 0 <= k < i ==> (#[trigger] values@[k]).view() == content_value(self.content@[k]@),
            decreases self.content.len() - i,
        {
            values.push(self.content[i].to_value());
            i += 1;
        }
        let r = Json::Array(values);
        proof {
            crate::json::lemma_view_parts(r);
            assert(array_view(values@) =~= Seq::new(self@.content.len(), |k: int| content_value(self@.content[k])));
        }
        r
    }

    /// The result as a serialized content block.
    pub fn to_content_block_value(&self) -> (r: Json)
        ensures
            r.view() == content_block_json(self@),
    {
        let mut contents: Vec<Json> = Vec::new();
        let mut i: usize = 0;
        while i < self.content.len()
            invariant
                i <= self.content@.len(),
                contents@.len() == i,
                forall|k: int| 0 <= k < i ==> (#[trigger] contents@[k]).view() == content_json(self.content@[k]@),
            decreases self.content.len() - i,
        {
            contents.push(self.content[i].to_json());
            i += 1;
        }
        let content = Json::Array(contents);
        proof {
            crate::json::lemma_view_parts(content);
            assert(array_view(contents@) =~= Seq::new(self@.content.len(), |k: int| content_json(self@.content[k])));
        }
        let error = match &self.error {
            Some(e) => {
                let mut o = Json::new_object();
                o.set("message", Json::str_of(e.message.as_str()));
                o.set("recoverable", Json::Bool(e.recoverable));
                o
            },
            None => Json::Null,
        };
        let metadata = Json::Object(dup_fields(&self.metadata));
        proof {
            crate::json::lemma_view_parts(metadata);
        }
        let mut o = Json::new_object();
        o.set("type", Json::str_of("tool_result"));
        o.set("call_id", Json::str_of(self.call_id.as_str()));
        o.set("tool_name", Json::str_of(self.tool_name.as_str()));
        o.set("is_error", Json::Bool(self.is_error()));
        o.set("status", Json::str_of(status_text(self.status)));
        o.set("content", content);
        o.set("output", self.output_for_model());
        o.set("error", error);
        o.set("metadata", metadata);
        o
    }

    /// The result as a serialized tool message.
    pub fn to_run_message_value(&self) -> (r: Json)
        ensures
            r.view() == run_message_json(self@),
    {
        let block = self.to_content_block_value();
        let ghost bv = block.view();
        let mut items: Vec<Json> = Vec::new();
        items.push(block);
        proof {
            assert(array_view(items@) =~= seq![bv]);
        }
        let content = Json::Array(items);
        proof {
            crate::json::lemma_view_parts(content);
        }
        let mut meta = Json::new_object();
        meta.set("tool_name", Json::str_of(self.tool_name.as_str()));
        meta.set("call_id", Json::str_of(self.call_id.as_str()));
        let mut o = Json::new_object();
        o.set("role", Json::str_of("tool"));
        o.set("content", content);
        o.set("metadata", meta);
        o
    }

    /// The result as a tool message answering its call.
    pub fn into_run_message(&self) -> (r: AgentCoreResult<RunMessage>)
        ensures
            r matches Ok(m) && m.role == MessageRole::Tool && m.status == MessageStatus::Finalized
                && blocks_view(m.content@) == seq![BlockV::ToolResult {
                    call_id: self@.call_id,
                    tool_name: Some(self@.tool_name),
                    output: output_for_model_of(self@),
                    is_error: self@.status != ToolResultStatus::Success,
                }],
    {
        let name = dup_string(&self.tool_name);
        let ghost nv = name@;
        let r = RunMessage::tool_result(self.call_id.as_str(), Some(name), self.output_for_model(), self.is_error());
        proof {
            assert(crate::message::opt_view(Some(name)) == Some(nv));
        }
        r
    }
}

/// What a permission policy is shown of a call.
#[derive(Debug)]
pub struct ToolPermissionContext {
    pub agent_name: String,
    pub call_id: String,
    pub tool_name: String,
    pub arguments: Json,
    pub metadata: Vec<(String, Json)>,
}

impl ToolPermissionContext {
    pub fn new(agent_name: &str, call_id: &str, tool_name: &str, arguments: Json) -> (r: ToolPermissionContext)
        ensures
            r.agent_name@ == agent_name@ && r.call_id@ == call_id@ && r.tool_name@ == tool_name@ && r.arguments == arguments
                && r.metadata@.len() == 0,
    {
        ToolPermissionContext { agent_name: owned(agent_name), call_id: owned(call_id), tool_name: owned(tool_name), arguments, metadata: Vec::new() }
    }
}

/// A permission policy's decision on a call.
#[derive(Debug)]
pub enum ToolPermissionDecision {
    /// Run it, with replaced arguments when given.
    Allow { arguments: Option<Json> },
    Ask { reason: String },
    Deny { reason: String },
    /// Run it as it is.
    Passthrough,
}

impl ToolPermissionDecision {
    /// The arguments to run with, if the call may run.
    pub fn allowed_arguments(self, original: Json) -> (r: Option<Json>)
        ensures
            self matches ToolPermissionDecision::Allow { arguments: Some(a) } ==> r == Some(a),
            self matches ToolPermissionDecision::Allow { arguments: None } ==> r == Some(original),
            self is Passthrough ==> r == Some(original),
            (self is Ask || self is Deny) ==> r is None,
    {
        match self {
            ToolPermissionDecision::Allow { arguments } => match arguments {
                Some(a) => Some(a),
                None => Some(original),
            },
            ToolPermissionDecision::Passthrough => Some(original),
            ToolPermissionDecision::Ask { .. } | ToolPermissionDecision::Deny { .. } => None,
        }
    }
}

/// Decides whether a tool call may run. Its decisions are the implementer's.
pub trait ToolPermissionPolicy {
    /// Whether the policy, handed `context`, may decide `r`. By default any decision may
    /// come; a policy verified with the library can say more.
    open spec fn decides(&self, context: ToolPermissionContext, r: AgentCoreResult<ToolPermissionDecision>) -> bool {
        true
    }

    fn decide(&self, context: &ToolPermissionContext) -> (r: AgentCoreResult<ToolPermissionDecision>)
        ensures
            self.decides(*context, r);
}

/// The policy that lets every call run as it is asked.
#[derive(Debug, Clone, Copy)]
pub struct AllowAllToolPermissionPolicy;

impl ToolPermissionPolicy for AllowAllToolPermissionPolicy {
    fn decide(&self, context: &ToolPermissionContext) -> (r: AgentCoreResult<ToolPermissionDecision>)
        ensures
            r matches Ok(ToolPermissionDecision::Allow { arguments: None }),
    {
        Ok(ToolPermissionDecision::Allow { arguments: None })
    }
}

} // verus!
