//! The pieces of a small chat agent that talks to a chat-completions API and runs tools on
//! the host platform: its errors, its tool catalog, the request it sends, how a provider
//! response becomes an assistant turn, and the decisions of its tool-calling loop. The
//! network exchange and the platform calls are made by the caller, between the steps.

use vstd::prelude::*;
use crate::builder::{finishable, push_text_like, AssistantBuilder, TextLikeKind};
use crate::context::{ContextBuildInput, ContextBuilder};
use crate::deepseek::DeepSeekChatProvider;
use crate::definition::{definition_error, AgentDefinition, AgentDefinitionBuilder, ToolVisibility};
use crate::error::{error_detail, error_prefix, serde_error_text, AgentCoreError};
use crate::json::{Json, JsonV, json_dup, json_parse, json_text, parse_text, to_text};
use crate::llm_request::{EventV, LlmProvider, LlmStreamEvent, PreparedLlmRequest, events_view};
use crate::message::{blocks_view, BlockV, ContentBlock, MessageRole, MessageStatus, MessageUsage, RunMessage};
use crate::text::{decimal, dup_string, is_blank, owned, str_eq, str_is_blank, to_decimal, trim_seq, trim_str};
use crate::tool_schema::{schema_error, ToolSchema};

verus! {

/// The provider's base URL when none is given.
pub const DEFAULT_API_BASE: &'static str = "https://api.xiaomimimo.com/v1";

/// The model used when none is given.
pub const DEFAULT_MODEL: &'static str = "mimo-v2.5-pro";

/// The errors of the agent.
#[derive(Debug, PartialEq, Eq)]
pub enum AgentError {
    Http { detail: String },
    Api { status: String, body: String },
    Parse { detail: String },
    EmptyResponse,
    StateLock,
    Tool { detail: String },
}

impl AgentError {
    /// The error's display text.
    pub open spec fn text(&self) -> Seq<char> {
        match self {
            AgentError::Http { detail } => "HTTP request failed: "@ + detail@,
            AgentError::Api { status, body } => "Model API returned "@ + status@ + ": "@ + body@,
            AgentError::Parse { detail } => "Failed to parse data: "@ + detail@,
            AgentError::EmptyResponse => "Model response did not contain assistant content"@,
            AgentError::StateLock => "Agent state lock is poisoned"@,
            AgentError::Tool { detail } => "Tool execution failed: "@ + detail@,
        }
    }

    pub fn describe(&self) -> (r: String)
        ensures
            r@ == self.text(),
    {
        match self {
            AgentError::Http { detail } => {
                let mut t = owned("HTTP request failed: ");
                t.append(detail.as_str());
                t
            },
            AgentError::Api { status, body } => {
                let mut t = owned("Model API returned ");
                t.append(status.as_str());
                t.append(": ");
                t.append(body.as_str());
                t
            },
            AgentError::Parse { detail } => {
                let mut t = owned("Failed to parse data: ");
                t.append(detail.as_str());
                t
            },
            AgentError::EmptyResponse => owned("Model response did not contain assistant content"),
            AgentError::StateLock => owned("Agent state lock is poisoned"),
            AgentError::Tool { detail } => {
                let mut t = owned("Tool execution failed: ");
                t.append(detail.as_str());
                t
            },
        }
    }
}

/// A tool the platform offers: its name, description and input schema as JSON text.
#[derive(Debug, PartialEq, Eq)]
pub struct ToolSpec {
    pub name: String,
    pub description: String,
    pub input_schema_json: String,
}

pub struct SpecV {
    pub name: Seq<char>,
    pub description: Seq<char>,
    pub schema: Seq<char>,
}

impl ToolSpec {
    pub open spec fn view(&self) -> SpecV {
        SpecV { name: self.name@, description: self.description@, schema: self.input_schema_json@ }
    }

    pub fn dup(&self) -> (r: ToolSpec)
        ensures
            r@ == self@,
    {
        ToolSpec { name: dup_string(&self.name), description: dup_string(&self.description), input_schema_json: dup_string(&self.input_schema_json) }
    }
}

pub open spec fn specs_view(v: Seq<ToolSpec>) -> Seq<SpecV> {
    Seq::new(v.len(), |i: int| v[i]@)
}

/// One tool execution: the tool, the input it got and what it answered.
#[derive(Debug, PartialEq, Eq)]
pub struct ToolTrace {
    pub name: String,
    pub input_json: String,
    pub output: String,
}

/// The agent's answer to a prompt, with the tool executions and the tokens it took.
#[derive(Debug, PartialEq, Eq)]
pub struct AgentResponse {
    pub answer: String,
    pub message_count: u32,
    pub tool_traces: Vec<ToolTrace>,
    pub input_tokens: u64,
    pub output_tokens: u64,
    pub total_tokens: u64,
}

/// The platform side that executes tools.
pub trait PlatformToolHost {
    fn execute_tool(&self, name: String, input_json: String) -> Result<String, AgentError>;
}

/// A tool call the model completed.
#[derive(Debug)]
pub struct CompletedToolCall {
    pub call_id: String,
    pub name: String,
    pub arguments: Json,
}

pub struct CallV {
    pub call_id: Seq<char>,
    pub name: Seq<char>,
    pub arguments: JsonV,
}

impl CompletedToolCall {
    pub open spec fn view(&self) -> CallV {
        CallV { call_id: self.call_id@, name: self.name@, arguments: self.arguments.view() }
    }
}

pub open spec fn calls_view(v: Seq<CompletedToolCall>) -> Seq<CallV> {
    Seq::new(v.len(), |i: int| v[i]@)
}

/// One assistant turn: its message, the answer text, the completed tool calls and the usage.
#[derive(Debug)]
pub struct AssistantTurn {
    pub message: RunMessage,
    pub answer: String,
    pub tool_calls: Vec<CompletedToolCall>,
    pub usage: Option<MessageUsage>,
}

/// A turn being read from events: the message content so far, the answer text, the tool
/// calls, the last usage, and the first error, if one came.
pub struct TurnV {
    pub content: Seq<BlockV>,
    pub answer: Seq<char>,
    pub calls: Seq<CallV>,
    pub usage: Option<MessageUsage>,
    pub error: Option<Seq<char>>,
}

pub open spec fn turn_step(t: TurnV, e: EventV) -> TurnV {
    if t.error is Some {
        t
    } else {
        match e {
            EventV::TextDelta { text } => TurnV { content: push_text_like(t.content, text, TextLikeKind::Text), answer: t.answer + text, ..t },
            EventV::ReasoningDelta { text } => TurnV { content: push_text_like(t.content, text, TextLikeKind::Reasoning), ..t },
            EventV::ToolCallCompleted { call_id, name, arguments } => TurnV {
                content: t.content.push(BlockV::ToolCall { call_id, tool_name: name, arguments }),
                calls: t.calls.push(CallV { call_id, name, arguments }),
                ..t
            },
            EventV::Usage { usage } => TurnV {
                usage: Some(MessageUsage { input_tokens: usage.input_tokens, output_tokens: usage.output_tokens, total_tokens: usage.total_tokens }),
                ..t
            },
            EventV::Error { message, .. } => TurnV { error: Some(message), ..t },
            _ => t,
        }
    }
}

pub open spec fn turn_of(evs: Seq<EventV>) -> TurnV
    decreases evs.len(),
{
    if evs.len() == 0 {
        TurnV { content: Seq::empty(), answer: Seq::empty(), calls: Seq::empty(), usage: None, error: None }
    } else {
        turn_step(turn_of(evs.drop_last()), evs.last())
    }
}

/// Once an error event came, later events change nothing.
proof fn lemma_turn_error_stays(evs: Seq<EventV>, k: int)
    requires
        0 <= k <= evs.len(),
        turn_of(evs.subrange(0, k)).error is Some,
    ensures
        turn_of(evs) == turn_of(evs.subrange(0, k)),
    decreases evs.len() - k,
{
    if k < evs.len() {
        assert(evs.drop_last().subrange(0, k) =~= evs.subrange(0, k));
        lemma_turn_error_stays(evs.drop_last(), k);
        assert(turn_of(evs.drop_last()).error is Some);
    } else {
        assert(evs.subrange(0, k) =~= evs);
    }
}

/// The text of an agent-core error handed on as a parse error.
pub open spec fn core_error_detail(prefix: Seq<char>, detail: Seq<char>) -> Seq<char> {
    "agent-core: "@ + prefix + detail
}

/// Hands an agent-core error on as a parse error carrying its display text.
pub fn map_core_error(error: AgentCoreError) -> (r: AgentError)
    ensures
        r is Parse,
        error_detail(&error) matches Some(d) ==> r->Parse_detail@ == core_error_detail(error_prefix(&error), d),
{
    let mut detail = owned("agent-core: ");
    detail.append(error.describe().as_str());
    AgentError::Parse { detail }
}

/// An assistant turn from a provider's events: text deltas make the answer and the
/// message's text, reasoning deltas its reasoning, completed tool calls its tool calls, the
/// last usage its usage; the first error event refuses the turn, as does a message left
/// with no content.
pub fn assistant_turn_from_events(events: Vec<LlmStreamEvent>) -> (r: Result<AssistantTurn, AgentError>)
    ensures
        ({
            let t = turn_of(events_view(events@));
            &&& t.error matches Some(m) ==> (r matches Err(AgentError::Api { status, body }) && status@ == "provider_error"@ && body@ == m)
            &&& (t.error is None && !finishable(t.content)) ==> (r matches Err(AgentError::Parse { detail })
                    && detail@ == "agent-core: invalid input: assistant message cannot be empty"@)
            &&& (t.error is None && finishable(t.content)) ==> (r matches Ok(turn) && {
                    &&& turn.message.view().content == t.content
                    &&& turn.message.role == MessageRole::Assistant && turn.message.status == MessageStatus::Finalized
                    &&& turn.message.usage == t.usage && turn.usage == t.usage
                    &&& turn.answer@ == t.answer && calls_view(turn.tool_calls@) == t.calls
                })
        }),
{
    let ghost evs = events_view(events@);
    let mut builder = AssistantBuilder::new();
    let mut answer = String::new();
    let mut tool_calls: Vec<CompletedToolCall> = Vec::new();
    let mut usage: Option<MessageUsage> = None;
    proof {
        assert(evs.subrange(0, 0) =~= Seq::<EventV>::empty());
        assert(calls_view(tool_calls@) =~= Seq::empty());
    }
    let mut i: usize = 0;
    while i < events.len()
        invariant
            i <= events@.len(),
            evs == events_view(events@),
            builder.wf(),
            builder.view().role == MessageRole::Assistant,
            builder.view().status == MessageStatus::Streaming,
            builder.view().usage is None,
            builder.view().content == turn_of(evs.subrange(0, i as int)).content,
            answer@ == turn_of(evs.subrange(0, i as int)).answer,
            calls_view(tool_calls@) == turn_of(evs.subrange(0, i as int)).calls,
            usage == turn_of(evs.subrange(0, i as int)).usage,
            turn_of(evs.subrange(0, i as int)).error is None,
        decreases events.len() - i,
    {
        proof {
            assert(evs.subrange(0, i + 1).drop_last() =~= evs.subrange(0, i as int));
            assert(evs.subrange(0, i + 1).last() == events@[i as int]@);
        }
        let ghost before = calls_view(tool_calls@);
        match &events[i] {
            LlmStreamEvent::TextDelta { text } => {
                answer.append(text.as_str());
                builder.push_text_delta(text.as_str());
            },
            LlmStreamEvent::ReasoningDelta { text } => {
                builder.push_reasoning_delta(text.as_str());
            },
            LlmStreamEvent::ToolCallCompleted { call_id, name, arguments } => {
                builder.push_tool_call(call_id.as_str(), name.as_str(), json_dup(arguments));
                tool_calls.push(CompletedToolCall { call_id: dup_string(call_id), name: dup_string(name), arguments: json_dup(arguments) });
                proof {
                    assert(calls_view(tool_calls@) =~= before.push(CallV { call_id: call_id@, name: name@, arguments: arguments.view() }));
                }
            },
            LlmStreamEvent::Usage { usage: u } => {
                usage = Some(MessageUsage { input_tokens: u.input_tokens, output_tokens: u.output_tokens, total_tokens: u.total_tokens });
            },
            LlmStreamEvent::Error { message, .. } => {
                proof {
                    lemma_turn_error_stays(evs, i + 1);
                }
                return Err(AgentError::Api { status: owned("provider_error"), body: dup_string(message) });
            },
            _ => {},
        }
        i += 1;
    }
    proof {
        assert(evs.subrange(0, i as int) =~= evs);
    }
    let message = match builder.finish() {
        Ok(m) => m,
        Err(e) => {
            let r = map_core_error(e);
            proof {
                reveal_strlit("agent-core: ");
                reveal_strlit("invalid input: ");
                reveal_strlit("assistant message cannot be empty");
                reveal_strlit("agent-core: invalid input: assistant message cannot be empty");
                assert(r->Parse_detail@ =~= "agent-core: invalid input: assistant message cannot be empty"@);
            }
            return Err(r);
        },
    };
    let message = match usage {
        Some(u) => message.with_usage(u),
        None => message,
    };
    Ok(AssistantTurn { message, answer, tool_calls, usage })
}

/// The parse error text for JSON that does not parse.
pub fn parse_json(input: &str, label: &str) -> (r: Result<Json, AgentError>)
    ensures
        json_parse(input@) matches Some(v) ==> (r matches Ok(j) && j.view() == v),
        json_parse(input@) is None ==> (r matches Err(AgentError::Parse { detail }) && detail@.len() >= label@.len() + 18
            && detail@.subrange(0, label@.len() + 18int) == label@ + " is invalid JSON: "@),
{
    match parse_text(input) {
        Ok(v) => Ok(v),
        Err(e) => {
            let mut detail = owned(label);
            detail.append(" is invalid JSON: ");
            let ghost head = detail@;
            detail.append(serde_error_text(&e).as_str());
            proof {
                reveal_strlit(" is invalid JSON: ");
                assert(detail@.subrange(0, label@.len() + 18int) =~= head);
            }
            Err(AgentError::Parse { detail })
        },
    }
}

/// Tool input as compact JSON text: blank input is the empty object; input that is not
/// JSON, or not an object, is refused.
pub fn normalize_json_object(input: &str) -> (r: Result<String, AgentError>)
    ensures
        ({
            let trimmed = trim_seq(input@);
            &&& trimmed.len() == 0 ==> (r matches Ok(s) && s@ == "{}"@)
            &&& (trimmed.len() > 0 && json_parse(trimmed) is None) ==> (r matches Err(AgentError::Parse { detail })
                    && detail@.len() >= 28 && detail@.subrange(0, 28) == "tool input is invalid JSON: "@)
            &&& (trimmed.len() > 0 && json_parse(trimmed) is Some && !(json_parse(trimmed)->0 is Object)) ==> (r matches Err(AgentError::Parse { detail })
                    && detail@ == "tool input must be a JSON object: "@ + trimmed)
            &&& (trimmed.len() > 0 && json_parse(trimmed) is Some && json_parse(trimmed)->0 is Object) ==> (r matches Ok(s) && s@ == json_text(json_parse(trimmed)->0))
        }),
{
    let trimmed = trim_str(input);
    if trimmed.as_str().is_empty() {
        return Ok(owned("{}"));
    }
    let value = match parse_text(trimmed.as_str()) {
        Ok(v) => v,
        Err(e) => {
            let mut detail = owned("tool input is invalid JSON: ");
            let ghost head = detail@;
            detail.append(serde_error_text(&e).as_str());
            detail.append("; input=");
            detail.append(trimmed.as_str());
            proof {
                reveal_strlit("tool input is invalid JSON: ");
                assert(detail@.subrange(0, 28) =~= head);
            }
            return Err(AgentError::Parse { detail });
        },
    };
    if !value.is_object() {
        let mut detail = owned("tool input must be a JSON object: ");
        detail.append(trimmed.as_str());
        return Err(AgentError::Parse { detail });
    }
    Ok(to_text(&value))
}

/// The agent's definition: `android_agent`, with a short system prompt and its device tools
/// offered directly, the settings tool on search.
pub fn default_definition() -> (r: AgentDefinition)
    ensures
        r.name_view() == "android_agent"@,
        r.prompt_view() == "You are a concise helpful assistant."@,
{
    let b = AgentDefinitionBuilder::new()
        .name("android_agent")
        .system_prompt("You are a concise helpful assistant.")
        .tool_visibility("android_device_info", ToolVisibility::Direct)
        .tool_visibility("android_battery", ToolVisibility::Direct)
        .tool_visibility("android_show_toast", ToolVisibility::Direct)
        .tool_visibility("android_set_clipboard", ToolVisibility::Direct)
        .tool_visibility("android_open_settings", ToolVisibility::Searchable);
    proof {
        reveal_strlit("android_agent");
        reveal_strlit("You are a concise helpful assistant.");
        assert(!is_blank("android_agent"@)) by {
            assert(!crate::text::is_ws("android_agent"@[0]));
        }
        assert(!is_blank("You are a concise helpful assistant."@)) by {
            assert(!crate::text::is_ws("You are a concise helpful assistant."@[0]));
        }
    }
    let r = b.build();
    r.unwrap()
}

/// The tool catalog: each registered tool once, in registration order.
#[derive(Debug)]
pub struct ToolCatalog {
    tools: Vec<ToolSpec>,
}

/// `s` with `x` registered: it replaces the first tool of the same name, or is appended.
pub open spec fn upsert_tool(s: Seq<SpecV>, x: SpecV) -> Seq<SpecV>
    decreases s.len(),
{
    if s.len() == 0 {
        seq![x]
    } else if s[0].name == x.name {
        s.update(0, x)
    } else {
        seq![s[0]] + upsert_tool(s.drop_first(), x)
    }
}

proof fn lemma_upsert_at(s: Seq<SpecV>, x: SpecV, p: int)
    requires
        0 <= p <= s.len(),
        forall|k: int| 0 <= k < p ==> (#[trigger] s[k]).name != x.name,
        p < s.len() ==> s[p].name == x.name,
    ensures
        upsert_tool(s, x) == if p < s.len() { s.update(p, x) } else { s.push(x) },
    decreases p,
{
    if p > 0 {
        assert(s[0].name != x.name);
        lemma_upsert_at(s.drop_first(), x, p - 1);
        if p < s.len() {
            assert(seq![s[0]] + s.drop_first().update(p - 1, x) =~= s.update(p, x));
        } else {
            assert(seq![s[0]] + s.drop_first().push(x) =~= s.push(x));
        }
    } else if s.len() == 0 {
        assert(seq![x] =~= s.push(x));
    }
}

/// Why a tool registration is refused, if it is: its schema text is not JSON, or the schema
/// it gives is refused.
pub open spec fn registration_refused(name: Seq<char>, description: Seq<char>, schema: Seq<char>) -> bool {
    match json_parse(schema) {
        None => true,
        Some(v) => schema_error(name, description, v) is Some,
    }
}

impl ToolCatalog {
    pub closed spec fn view(&self) -> Seq<SpecV> {
        specs_view(self.tools@)
    }

    pub fn new() -> (r: ToolCatalog)
        ensures
            r@ == Seq::<SpecV>::empty(),
    {
        let r = ToolCatalog { tools: Vec::new() };
        assert(specs_view(r.tools@) =~= Seq::empty());
        r
    }

    /// Registers a tool after checking its schema; a tool of the same name is replaced.
    pub fn register_tool(&mut self, name: &str, description: &str, input_schema_json: &str) -> (r: Result<(), AgentError>)
        ensures
            registration_refused(name@, description@, input_schema_json@) <==> r is Err,
            r matches Err(e) ==> e is Parse && final(self)@ == old(self)@,
            (json_parse(input_schema_json@) is Some && schema_error(name@, description@, json_parse(input_schema_json@)->0) is Some)
                ==> r->Err_0->Parse_detail@ == "agent-core: invalid configuration: "@ + schema_error(name@, description@, json_parse(input_schema_json@)->0)->0,
            r is Ok ==> final(self)@ == upsert_tool(old(self)@, SpecV { name: name@, description: description@, schema: input_schema_json@ }),
    {
        let schema = match parse_json(input_schema_json, "tool schema") {
            Ok(s) => s,
            Err(e) => {
                return Err(e);
            },
        };
        match ToolSchema::new(name, description, schema) {
            Ok(_) => {},
            Err(e) => {
                let r = map_core_error(e);
                proof {
                    reveal_strlit("agent-core: ");
                    reveal_strlit("invalid configuration: ");
                    reveal_strlit("agent-core: invalid configuration: ");
                    assert(r->Parse_detail@ =~= "agent-core: invalid configuration: "@ + schema_error(name@, description@, json_parse(input_schema_json@)->0)->0);
                }
                return Err(r);
            },
        }
        let ghost s0 = self@;
        let spec = ToolSpec { name: owned(name), description: owned(description), input_schema_json: owned(input_schema_json) };
        let mut p: usize = 0;
        while p < self.tools.len() && !str_eq(self.tools[p].name.as_str(), name)
            invariant
                p <= self.tools@.len(),
                s0 == specs_view(self.tools@),
                forall|k: int| 0 <= k < p ==> (#[trigger] s0[k]).name != name@,
            decreases self.tools.len() - p,
        {
            p += 1;
        }
        proof {
            lemma_upsert_at(s0, spec@, p as int);
        }
        if p < self.tools.len() {
            self.tools.set(p, spec);
            proof {
                assert(specs_view(self.tools@) =~= s0.update(p as int, spec@));
            }
        } else {
            self.tools.push(spec);
            proof {
                assert(specs_view(self.tools@) =~= s0.push(spec@));
            }
        }
        Ok(())
    }

    /// The registered tools, in order.
    pub fn list_tools(&self) -> (r: Vec<ToolSpec>)
        ensures
            specs_view(r@) == self@,
    {
        let mut out: Vec<ToolSpec> = Vec::new();
        let mut i: usize = 0;
        while i < self.tools.len()
            invariant
                i <= self.tools@.len(),
                specs_view(out@) == specs_view(self.tools@).subrange(0, i as int),
            decreases self.tools.len() - i,
        {
            let ghost o0 = specs_view(out@);
            out.push(self.tools[i].dup());
            proof {
                assert(specs_view(out@) =~= o0.push(self.tools@[i as int]@));
                assert(specs_view(out@) =~= specs_view(self.tools@).subrange(0, i + 1));
            }
            i += 1;
        }
        proof {
            assert(specs_view(self.tools@).subrange(0, i as int) =~= specs_view(self.tools@));
        }
        out
    }

    /// Whether a tool is registered; an unregistered one is refused as a tool error.
    pub fn check_registered(&self, name: &str) -> (r: Result<(), AgentError>)
        ensures
            (exists|i: int| 0 <= i < self@.len() && self@[i].name == name@) <==> r is Ok,
            r matches Err(e) ==> e matches AgentError::Tool { detail } && detail@ == "tool is not registered: "@ + name@,
    {
        let mut i: usize = 0;
        while i < self.tools.len()
            invariant
                i <= self.tools@.len(),
                forall|k: int| 0 <= k < i ==> (#[trigger] specs_view(self.tools@)[k]).name != name@,
            decreases self.tools.len() - i,
        {
            if str_eq(self.tools[i].name.as_str(), name) {
                assert(self@[i as int].name == name@);
                return Ok(());
            }
            i += 1;
        }
        let mut detail = owned("tool is not registered: ");
        detail.append(name);
        Err(AgentError::Tool { detail })
    }

    /// The schemas of the registered tools, in order; the first tool whose schema does not
    /// parse or is refused refuses them all.
    pub fn visible_tool_schemas(&self) -> (r: Result<Vec<ToolSchema>, AgentError>)
        ensures
            (forall|i: int| 0 <= i < self@.len() ==> !registration_refused(#[trigger] self@[i].name, self@[i].description, self@[i].schema)) <==> r is Ok,
            r matches Err(e) ==> e is Parse,
            r matches Ok(v) ==> v@.len() == self@.len() && forall|i: int| 0 <= i < v@.len() ==> {
                &&& (#[trigger] v@[i]).name@ == self@[i].name && v@[i].description@ == self@[i].description
                &&& Some(v@[i].input_schema.view()) == json_parse(self@[i].schema)
            },
    {
        let mut out: Vec<ToolSchema> = Vec::new();
        let mut i: usize = 0;
        while i < self.tools.len()
            invariant
                i <= self.tools@.len(),
                out@.len() == i,
                forall|k: int| 0 <= k < i ==> !registration_refused(#[trigger] specs_view(self.tools@)[k].name, specs_view(self.tools@)[k].description, specs_view(self.tools@)[k].schema),
                forall|k: int| 0 <= k < i ==> {
                    &&& (#[trigger] out@[k]).name@ == specs_view(self.tools@)[k].name && out@[k].description@ == specs_view(self.tools@)[k].description
                    &&& Some(out@[k].input_schema.view()) == json_parse(specs_view(self.tools@)[k].schema)
                },
            decreases self.tools.len() - i,
        {
            let tool = &self.tools[i];
            assert(specs_view(self.tools@)[i as int] == tool@);
            let schema = match parse_json(tool.input_schema_json.as_str(), "tool schema") {
                Ok(s) => s,
                Err(e) => {
                    assert(registration_refused(self@[i as int].name, self@[i as int].description, self@[i as int].schema));
                    return Err(e);
                },
            };
            match ToolSchema::new(tool.name.as_str(), tool.description.as_str(), schema) {
                Ok(s) => out.push(s),
                Err(e) => {
                    assert(registration_refused(self@[i as int].name, self@[i as int].description, self@[i as int].schema));
                    return Err(map_core_error(e));
                },
            }
            i += 1;
        }
        Ok(out)
    }
}

/// The rounds a tool loop may take: the asked number, at least one and at most 128.
pub open spec fn round_limit(max_tool_rounds: u32) -> u32 {
    if max_tool_rounds < 1 {
        1
    } else if max_tool_rounds > 128 {
        128
    } else {
        max_tool_rounds
    }
}

/// What the tool loop does after a model turn.
pub enum LoopStep {
    /// The model answered: the response to return.
    Answered(AgentResponse),
    /// The model asked for tools: run them, in order, then ask the model again.
    RunTools(Vec<CompletedToolCall>),
}

/// The state of a prompt answered with tools: the traces of the tools run, the tokens
/// used so far, the rounds taken and the limit.
#[derive(Debug)]
pub struct ToolLoop {
    pub tool_traces: Vec<ToolTrace>,
    pub usage: MessageUsage,
    pub rounds: u32,
    pub limit: u32,
}

/// The usage with a turn's usage added.
pub open spec fn add_usage(a: MessageUsage, b: Option<MessageUsage>) -> MessageUsage {
    match b {
        Some(u) => MessageUsage {
            input_tokens: (a.input_tokens + u.input_tokens) as u64,
            output_tokens: (a.output_tokens + u.output_tokens) as u64,
            total_tokens: (a.total_tokens + u.total_tokens) as u64,
        },
        None => a,
    }
}

/// The sums fit in 64 bits.
pub open spec fn usage_fits(a: MessageUsage, b: Option<MessageUsage>) -> bool {
    match b {
        Some(u) => a.input_tokens + u.input_tokens <= u64::MAX && a.output_tokens + u.output_tokens <= u64::MAX
            && a.total_tokens + u.total_tokens <= u64::MAX,
        None => true,
    }
}

impl ToolLoop {
    /// A loop that has taken no round, with the limit the asked number gives.
    pub fn new(max_tool_rounds: u32) -> (r: ToolLoop)
        ensures
            r.tool_traces@.len() == 0,
            r.usage == (MessageUsage { input_tokens: 0, output_tokens: 0, total_tokens: 0 }),
            r.rounds == 0,
            r.limit == round_limit(max_tool_rounds),
    {
        let limit = if max_tool_rounds < 1 {
            1
        } else if max_tool_rounds > 128 {
            128
        } else {
            max_tool_rounds
        };
        ToolLoop { tool_traces: Vec::new(), usage: MessageUsage { input_tokens: 0, output_tokens: 0, total_tokens: 0 }, rounds: 0, limit }
    }

    /// Whether the model may be asked again.
    pub fn may_continue(&self) -> (r: bool)
        ensures
            r == (self.rounds < self.limit),
    {
        self.rounds < self.limit
    }

    /// The error once every round was taken.
    pub fn exhausted(&self) -> (r: AgentError)
        ensures
            r matches AgentError::Tool { detail } && detail@ == "too many tool-call rounds: limit="@ + decimal(self.limit as nat),
    {
        let mut detail = owned("too many tool-call rounds: limit=");
        detail.append(to_decimal(self.limit as u64).as_str());
        AgentError::Tool { detail }
    }

    /// After a model turn: its usage is added; without tool calls, a blank answer is
    /// refused and otherwise the turn's message is kept and the response returned; with tool
    /// calls, the message is kept, the round counted and the calls handed back to be run.
    pub fn after_turn(&mut self, messages: &mut Vec<RunMessage>, turn: AssistantTurn) -> (r: Result<LoopStep, AgentError>)
        requires
            usage_fits(old(self).usage, turn.usage),
            old(self).rounds < old(self).limit,
        ensures
            final(self).usage == add_usage(old(self).usage, turn.usage),
            final(self).limit == old(self).limit,
            turn.tool_calls@.len() == 0 && is_blank(turn.answer@) ==> (r matches Err(AgentError::EmptyResponse) && final(messages)@ == old(messages)@
                && final(self).tool_traces == old(self).tool_traces),
            turn.tool_calls@.len() == 0 && !is_blank(turn.answer@) ==> (r matches Ok(LoopStep::Answered(resp)) && {
                &&& final(messages)@ == old(messages)@.push(turn.message)
                &&& resp.answer@ == turn.answer@
                &&& resp.message_count == final(messages)@.len() as u32
                &&& resp.tool_traces == old(self).tool_traces
                &&& final(self).tool_traces@.len() == 0
                &&& resp.input_tokens == final(self).usage.input_tokens
                &&& resp.output_tokens == final(self).usage.output_tokens
                &&& resp.total_tokens == final(self).usage.total_tokens
            }),
            turn.tool_calls@.len() > 0 ==> (r matches Ok(LoopStep::RunTools(calls)) && calls == turn.tool_calls
                && final(messages)@ == old(messages)@.push(turn.message) && final(self).rounds == old(self).rounds + 1
                && final(self).tool_traces == old(self).tool_traces),
            turn.tool_calls@.len() == 0 ==> final(self).rounds == old(self).rounds,
    {
        match turn.usage {
            Some(u) => {
                self.usage.input_tokens = self.usage.input_tokens + u.input_tokens;
                self.usage.output_tokens = self.usage.output_tokens + u.output_tokens;
                self.usage.total_tokens = self.usage.total_tokens + u.total_tokens;
            },
            None => {},
        }
        let AssistantTurn { message, answer, tool_calls, usage: _ } = turn;
        if tool_calls.len() == 0 {
            if str_is_blank(answer.as_str()) {
                return Err(AgentError::EmptyResponse);
            }
            messages.push(message);
            let mut traces: Vec<ToolTrace> = Vec::new();
            std::mem::swap(&mut traces, &mut self.tool_traces);
            let resp = AgentResponse {
                answer,
                message_count: messages.len() as u32,
                tool_traces: traces,
                input_tokens: self.usage.input_tokens,
                output_tokens: self.usage.output_tokens,
                total_tokens: self.usage.total_tokens,
            };
            return Ok(LoopStep::Answered(resp));
        }
        messages.push(message);
        self.rounds = self.rounds + 1;
        Ok(LoopStep::RunTools(tool_calls))
    }

    /// After a tool ran: its output goes back to the model in a tool message answering the
    /// call (as JSON when it parses, else as a string), and its trace is kept.
    pub fn after_tool(&mut self, messages: &mut Vec<RunMessage>, call: CompletedToolCall, trace: ToolTrace) -> (r: Result<(), AgentError>)
        ensures
            r is Ok,
            final(self).tool_traces@ == old(self).tool_traces@.push(trace),
            final(self).usage == old(self).usage && final(self).rounds == old(self).rounds && final(self).limit == old(self).limit,
            final(messages)@.len() == old(messages)@.len() + 1,
            final(messages)@.subrange(0, old(messages)@.len() as int) == old(messages)@,
            final(messages)@.last().role == MessageRole::Tool && final(messages)@.last().status == MessageStatus::Finalized,
            blocks_view(final(messages)@.last().content@) == seq![BlockV::ToolResult {
                call_id: call.call_id@,
                tool_name: Some(call.name@),
                output: tool_output(trace.output@),
                is_error: false,
            }],
    {
        let output = match parse_json(trace.output.as_str(), "tool output") {
            Ok(v) => v,
            Err(_) => Json::Str(dup_string(&trace.output)),
        };
        let ghost ov = output.view();
        let ghost n0 = messages@;
        let CompletedToolCall { call_id, name, arguments: _ } = call;
        let ghost nv = name@;
        let message = match RunMessage::tool_result(call_id.as_str(), Some(name), output, false) {
            Ok(m) => m,
            Err(e) => {
                return Err(map_core_error(e));
            },
        };
        proof {
            assert(crate::message::opt_view(Some(name)) == Some(nv));
        }
        messages.push(message);
        proof {
            assert(messages@.subrange(0, n0.len() as int) =~= n0);
        }
        self.tool_traces.push(trace);
        Ok(())
    }
}

/// What a tool's output becomes in the tool message: its JSON value when it parses, else
/// the text as a JSON string.
pub open spec fn tool_output(output: Seq<char>) -> JsonV {
    match json_parse(output) {
        Some(v) => v,
        None => JsonV::Str(output),
    }
}

/// A prompt answered without tools: a blank answer is refused; otherwise the turn's message
/// is kept and the answer returned with the turn's usage (zero when none was reported).
pub fn answer_without_tools(messages: &mut Vec<RunMessage>, turn: AssistantTurn) -> (r: Result<AgentResponse, AgentError>)
    ensures
        is_blank(turn.answer@) ==> (r matches Err(AgentError::EmptyResponse) && final(messages)@ == old(messages)@),
        !is_blank(turn.answer@) ==> (r matches Ok(resp) && {
            &&& final(messages)@ == old(messages)@.push(turn.message)
            &&& resp.answer@ == turn.answer@
            &&& resp.message_count == final(messages)@.len() as u32
            &&& resp.tool_traces@.len() == 0
            &&& resp.input_tokens == (match turn.usage { Some(u) => u.input_tokens, None => 0 })
            &&& resp.output_tokens == (match turn.usage { Some(u) => u.output_tokens, None => 0 })
            &&& resp.total_tokens == (match turn.usage { Some(u) => u.total_tokens, None => 0 })
        }),
{
    let AssistantTurn { message, answer, tool_calls: _, usage } = turn;
    if str_is_blank(answer.as_str()) {
        return Err(AgentError::EmptyResponse);
    }
    messages.push(message);
    let (input_tokens, output_tokens, total_tokens) = match usage {
        Some(u) => (u.input_tokens, u.output_tokens, u.total_tokens),
        None => (0, 0, 0),
    };
    Ok(AgentResponse { answer, message_count: messages.len() as u32, tool_traces: Vec::new(), input_tokens, output_tokens, total_tokens })
}

} // verus!

verus! {

/// `str::trim_end_matches(c)`: every trailing `c` removed.
pub open spec fn trim_trailing(s: Seq<char>, c: char) -> Seq<char>
    decreases s.len(),
{
    if s.len() > 0 && s.last() == c {
        trim_trailing(s.drop_last(), c)
    } else {
        s
    }
}

proof fn lemma_trim_trailing_at(s: Seq<char>, c: char, b: int)
    requires
        0 <= b <= s.len(),
        forall|k: int| b <= k < s.len() ==> #[trigger] s[k] == c,
        b == 0 || s[b - 1] != c,
    ensures
        trim_trailing(s, c) == s.subrange(0, b),
    decreases s.len() - b,
{
    if b < s.len() {
        assert(s.drop_last().subrange(0, b) =~= s.subrange(0, b));
        lemma_trim_trailing_at(s.drop_last(), c, b);
    } else {
        assert(s.subrange(0, b) =~= s);
    }
}

/// The chat-completions endpoint under a base URL.
pub open spec fn chat_endpoint(api_base: Seq<char>) -> Seq<char> {
    trim_trailing(api_base, '/') + "/chat/completions"@
}

pub fn chat_endpoint_for(api_base: &str) -> (r: String)
    ensures
        r@ == chat_endpoint(api_base@),
{
    let cs = crate::text::chars_of(api_base);
    let mut b: usize = cs.len();
    while b > 0 && cs[b - 1] == '/'
        invariant
            cs@ == api_base@,
            b <= cs.len(),
            forall|k: int| b <= k < cs.len() ==> #[trigger] cs@[k] == '/',
        decreases b,
    {
        b -= 1;
    }
    proof {
        lemma_trim_trailing_at(api_base@, '/', b as int);
    }
    let mut r = String::new();
    let mut i: usize = 0;
    while i < b
        invariant
            cs@ == api_base@,
            i <= b <= cs.len(),
            r@ == api_base@.subrange(0, i as int),
        decreases b - i,
    {
        crate::text::push_char(&mut r, cs[i]);
        proof {
            assert(r@ =~= api_base@.subrange(0, i + 1));
        }
        i += 1;
    }
    r.append("/chat/completions");
    r
}

/// The request for one model turn: the conversation so far, with streaming and thinking
/// off; with tools, an instruction to use them added to the system prompt and the registered
/// tools offered (the model choosing among them), sent to the chat-completions endpoint
/// under the base URL with the key.
pub fn prepare_chat_request(
    api_base: &str,
    api_key: &str,
    model: &str,
    definition: &AgentDefinition,
    history: &Vec<RunMessage>,
    include_tools: bool,
    catalog: &ToolCatalog,
) -> (r: Result<PreparedLlmRequest, AgentError>)
    ensures
        (include_tools && exists|i: int| 0 <= i < catalog@.len()
            && registration_refused(#[trigger] catalog@[i].name, catalog@[i].description, catalog@[i].schema)) ==> r matches Err(AgentError::Parse { .. }),
        r matches Ok(p) ==> p.endpoint@ == chat_endpoint(api_base@) && p.provider@ == "deepseek"@ && p.api@ == crate::deepseek::DEEPSEEK_CHAT_API@,
        r matches Err(e) ==> e is Parse,
{
    let mut input = ContextBuildInput::new(model);
    input.messages = crate::message::dup_messages(history);
    proof {
        assert(crate::json::keys_sorted(crate::json::object_view(input.metadata@)));
    }
    crate::json::fields_set(&mut input.metadata, "deepseek.stream", Json::Bool(false));
    let mut thinking = Json::new_object();
    thinking.set("type", Json::str_of("disabled"));
    crate::json::fields_set(&mut input.metadata, "deepseek.thinking", thinking);
    if include_tools {
        let mut instructions = owned(definition.system_prompt());
        instructions.append(" Use registered tools for Android device actions. Never claim a device action happened unless a tool result confirms it.");
        input.instructions_override = Some(instructions);
        let schemas = match catalog.visible_tool_schemas() {
            Ok(v) => v,
            Err(e) => {
                return Err(e);
            },
        };
        let offered = schemas.len() > 0;
        input.visible_tool_schemas = schemas;
        if offered {
            crate::json::fields_set(&mut input.metadata, "deepseek.tool_choice", Json::str_of("auto"));
        }
    }
    let request = match ContextBuilder::new().build(definition, input) {
        Ok(q) => q,
        Err(e) => {
            return Err(map_core_error(e));
        },
    };
    let endpoint = chat_endpoint_for(api_base);
    let provider = DeepSeekChatProvider::new().with_endpoint(endpoint.as_str()).with_api_key(api_key);
    match provider.prepare_request(&request) {
        Ok(p) => Ok(p),
        Err(e) => Err(map_core_error(e)),
    }
}

} // verus!
