//! The OpenAI Responses wire format: request bodies and stream events.

use vstd::prelude::*;
use crate::error::{AgentCoreError, AgentCoreResult};
use crate::json::{
    array_view, at_or_null, empty_object, json_parse, json_text, parse_text, str_at, to_text, u64_at, Json, JsonNumber, JsonV,
    NumV, object_view, lemma_view_parts, lemma_get_with, dup_fields,
};
use crate::llm_model::{LlmApi, LlmModel};
use crate::llm_request::{LlmProvider, LlmRequest, LlmStreamEvent, LlmUsage, PreparedLlmRequest};
use crate::message::{blocks_view, messages_view, BlockV, ContentBlock, MessageRole, MessageV, RunMessage};
use crate::text::{dup_string, owned, seq_lt, str_eq};
use crate::tool_schema::function_tool_json;

verus! {

pub const OPENAI_RESPONSES_API: &'static str = "openai_responses";

/// The role a message is sent with.
pub open spec fn openai_role(role: MessageRole) -> Seq<char> {
    match role {
        MessageRole::User => "user"@,
        MessageRole::Assistant => "assistant"@,
        MessageRole::Tool => "user"@,
        MessageRole::Diagnostic => "developer"@,
    }
}

pub fn map_role(role: MessageRole) -> (r: &'static str)
    ensures
        r@ == openai_role(role),
        role == MessageRole::User ==> r@ == "user"@,
        role == MessageRole::Assistant ==> r@ == "assistant"@,
        role == MessageRole::Tool ==> r@ == "user"@,
        role == MessageRole::Diagnostic ==> r@ == "developer"@,
{
    match role {
        MessageRole::User => "user",
        MessageRole::Assistant => "assistant",
        MessageRole::Tool => "user",
        MessageRole::Diagnostic => "developer",
    }
}

/// A value as text: a string as itself, anything else as its JSON text.
pub open spec fn value_text(v: JsonV) -> Seq<char> {
    match v {
        JsonV::Str(s) => s,
        _ => json_text(v),
    }
}

fn text_of(v: &Json) -> (r: String)
    ensures
        r@ == value_text(v.view()),
{
    match v {
        Json::Str(s) => s.clone(),
        _ => to_text(v),
    }
}

pub open spec fn is_call_or_result(b: BlockV) -> bool {
    b is ToolCall || b is ToolResult
}

/// The input part a non-call block is sent as.
pub open spec fn openai_part(b: BlockV) -> JsonV {
    match b {
        BlockV::Text(t) => empty_object().with("type"@, JsonV::Str("input_text"@)).with("text"@, JsonV::Str(t)),
        BlockV::Reasoning(t) => empty_object().with("type"@, JsonV::Str("input_text"@)).with("text"@, JsonV::Str(t)),
        BlockV::FileReference { uri, .. } => empty_object().with("type"@, JsonV::Str("input_file"@)).with("file_url"@, JsonV::Str(uri)),
        BlockV::ImageReference { uri, .. } => empty_object().with("type"@, JsonV::Str("input_image"@)).with("image_url"@, JsonV::Str(uri)),
        BlockV::AudioReference { uri, mime_type } => empty_object().with("type"@, JsonV::Str("audio_reference"@)).with(
            "uri"@,
            JsonV::Str(uri),
        ).with("mime_type"@, crate::graph_query::opt_str_json(mime_type)),
        BlockV::Diagnostic { message, .. } => empty_object().with("type"@, JsonV::Str("input_text"@)).with("text"@, JsonV::Str(message)),
        BlockV::Custom { value } => value,
        _ => empty_object().with("type"@, JsonV::Str("input_text"@)).with("text"@, JsonV::Str(Seq::empty())),
    }
}

/// The item a tool-call or tool-result block is sent as.
pub open spec fn openai_call_item(b: BlockV) -> JsonV {
    match b {
        BlockV::ToolCall { call_id, tool_name, arguments } => empty_object().with("type"@, JsonV::Str("function_call"@)).with(
            "call_id"@,
            JsonV::Str(call_id),
        ).with("name"@, JsonV::Str(tool_name)).with("arguments"@, JsonV::Str(value_text(arguments))),
        BlockV::ToolResult { call_id, output, is_error, .. } => {
            let o = empty_object().with("type"@, JsonV::Str("function_call_output"@)).with("call_id"@, JsonV::Str(call_id)).with(
                "output"@,
                JsonV::Str(value_text(output)),
            );
            if is_error {
                o.with("is_error"@, JsonV::Bool(true))
            } else {
                o
            }
        },
        _ => JsonV::Null,
    }
}

/// The input parts of the non-call blocks, in order.
pub open spec fn openai_parts(blocks: Seq<BlockV>) -> Seq<JsonV>
    decreases blocks.len(),
{
    if blocks.len() == 0 {
        Seq::empty()
    } else if is_call_or_result(blocks.last()) {
        openai_parts(blocks.drop_last())
    } else {
        openai_parts(blocks.drop_last()).push(openai_part(blocks.last()))
    }
}

/// The items of the call and result blocks, in order.
pub open spec fn openai_calls(blocks: Seq<BlockV>) -> Seq<JsonV>
    decreases blocks.len(),
{
    if blocks.len() == 0 {
        Seq::empty()
    } else if is_call_or_result(blocks.last()) {
        openai_calls(blocks.drop_last()).push(openai_call_item(blocks.last()))
    } else {
        openai_calls(blocks.drop_last())
    }
}

/// The input items of a message: one message item holding its other parts (when there
/// are any), then one item per tool call or tool result.
pub open spec fn openai_message_items(m: MessageV) -> Seq<JsonV> {
    let parts = openai_parts(m.content);
    let head = if parts.len() > 0 {
        seq![empty_object().with("role"@, JsonV::Str(openai_role(m.role))).with("content"@, JsonV::Array(parts))]
    } else {
        Seq::empty()
    };
    head + openai_calls(m.content)
}

/// A message with parts to send goes first as one item whose "role" is the literal role
/// name: "user" for user and tool messages, "assistant" for the model's own replies, and
/// "developer" for diagnostics; its "content" holds the parts.
pub proof fn lemma_openai_item_role(m: MessageV)
    requires
        openai_parts(m.content).len() > 0,
    ensures
        openai_message_items(m)[0].get("content"@) == Some(JsonV::Array(openai_parts(m.content))),
        m.role == MessageRole::User ==> openai_message_items(m)[0].get("role"@) == Some(JsonV::Str("user"@)),
        m.role == MessageRole::Assistant ==> openai_message_items(m)[0].get("role"@) == Some(JsonV::Str("assistant"@)),
        m.role == MessageRole::Tool ==> openai_message_items(m)[0].get("role"@) == Some(JsonV::Str("user"@)),
        m.role == MessageRole::Diagnostic ==> openai_message_items(m)[0].get("role"@) == Some(JsonV::Str("developer"@)),
{
    reveal_strlit("role");
    reveal_strlit("content");
    let parts = openai_parts(m.content);
    let inner = empty_object().with("role"@, JsonV::Str(openai_role(m.role)));
    assert(inner == JsonV::Object(seq![("role"@, JsonV::Str(openai_role(m.role)))]));
    assert(seq_lt("content"@, "role"@)) by {
        assert("content"@[0] == 'c' && "role"@[0] == 'r');
    }
    let f1 = seq![("role"@, JsonV::Str(openai_role(m.role)))];
    assert("role"@ != "content"@) by {
        assert("role"@.len() != "content"@.len());
    }
    assert(crate::json::fields_insert(f1, "content"@, JsonV::Array(parts)) =~= seq![("content"@, JsonV::Array(parts))] + f1);
    assert(seq![("content"@, JsonV::Array(parts))] + f1 =~= seq![("content"@, JsonV::Array(parts)), ("role"@, JsonV::Str(openai_role(m.role)))]);
    let item = inner.with("content"@, JsonV::Array(parts));
    assert(item == JsonV::Object(seq![("content"@, JsonV::Array(parts)), ("role"@, JsonV::Str(openai_role(m.role)))]));
    assert(openai_message_items(m)[0] == item);
    let f = seq![("content"@, JsonV::Array(parts)), ("role"@, JsonV::Str(openai_role(m.role)))];
    assert(f[0].0 != "role"@);
    assert(f.drop_first() =~= seq![("role"@, JsonV::Str(openai_role(m.role)))]);
    assert(crate::json::fields_get(f.drop_first(), "role"@) == Some(JsonV::Str(openai_role(m.role))));
    assert(item.get("role"@) == Some(JsonV::Str(openai_role(m.role))));
}

/// A tool call is sent as a "function_call" item with its call id, tool name and arguments
/// as text; a tool result as a "function_call_output" item with its call id and output as
/// text, flagged "is_error": true exactly when the result is an error.
pub proof fn lemma_openai_call_items(
    call_id: Seq<char>,
    tool_name: Seq<char>,
    arguments: JsonV,
    result_tool: Option<Seq<char>>,
    output: JsonV,
    is_error: bool,
)
    ensures
        ({
            let it = openai_call_item(BlockV::ToolCall { call_id, tool_name, arguments });
            &&& it.get("type"@) == Some(JsonV::Str("function_call"@))
            &&& it.get("call_id"@) == Some(JsonV::Str(call_id))
            &&& it.get("name"@) == Some(JsonV::Str(tool_name))
            &&& it.get("arguments"@) == Some(JsonV::Str(value_text(arguments)))
        }),
        ({
            let it = openai_call_item(BlockV::ToolResult { call_id, tool_name: result_tool, output, is_error });
            &&& it.get("type"@) == Some(JsonV::Str("function_call_output"@))
            &&& it.get("call_id"@) == Some(JsonV::Str(call_id))
            &&& it.get("output"@) == Some(JsonV::Str(value_text(output)))
            &&& is_error ==> it.get("is_error"@) == Some(JsonV::Bool(true))
            &&& !is_error ==> it.get("is_error"@) == None::<JsonV>
        }),
{
    reveal_strlit("type");
    reveal_strlit("call_id");
    reveal_strlit("name");
    reveal_strlit("arguments");
    reveal_strlit("output");
    reveal_strlit("is_error");
    let e = empty_object();
    let t = JsonV::Str("function_call"@);
    let c = JsonV::Str(call_id);
    let n = JsonV::Str(tool_name);
    let a = JsonV::Str(value_text(arguments));
    let o1 = e.with("type"@, t);
    let o2 = o1.with("call_id"@, c);
    let o3 = o2.with("name"@, n);
    lemma_get_with(e, "type"@, t, "type"@);
    lemma_get_with(o1, "call_id"@, c, "type"@);
    lemma_get_with(o2, "name"@, n, "type"@);
    lemma_get_with(o2, "name"@, n, "call_id"@);
    lemma_get_with(o3, "arguments"@, a, "type"@);
    lemma_get_with(o3, "arguments"@, a, "call_id"@);
    lemma_get_with(o3, "arguments"@, a, "name"@);
    let t2 = JsonV::Str("function_call_output"@);
    let out = JsonV::Str(value_text(output));
    let p1 = e.with("type"@, t2);
    let p2 = p1.with("call_id"@, c);
    let p3 = p2.with("output"@, out);
    lemma_get_with(e, "type"@, t2, "type"@);
    lemma_get_with(e, "type"@, t2, "is_error"@);
    lemma_get_with(p1, "call_id"@, c, "type"@);
    lemma_get_with(p1, "call_id"@, c, "is_error"@);
    lemma_get_with(p2, "output"@, out, "type"@);
    lemma_get_with(p2, "output"@, out, "call_id"@);
    lemma_get_with(p2, "output"@, out, "is_error"@);
    lemma_get_with(p3, "is_error"@, JsonV::Bool(true), "type"@);
    lemma_get_with(p3, "is_error"@, JsonV::Bool(true), "call_id"@);
    lemma_get_with(p3, "is_error"@, JsonV::Bool(true), "output"@);
}

/// The items of all messages, in order.
pub open spec fn openai_input(ms: Seq<MessageV>) -> Seq<JsonV>
    decreases ms.len(),
{
    if ms.len() == 0 {
        Seq::empty()
    } else {
        openai_input(ms.drop_last()) + openai_message_items(ms.last())
    }
}

pub open spec fn tools_json(tools: Seq<crate::tool_schema::ToolSchema>) -> Seq<JsonV> {
    Seq::new(tools.len(), |i: int| function_tool_json(tools[i].name@, tools[i].description@, tools[i].input_schema.view()))
}

/// The request body.
pub open spec fn openai_body(r: LlmRequest) -> JsonV {
    let o = empty_object().with("model"@, JsonV::Str(r.model.0@));
    let o = match r.instructions {
        Some(i) => o.with("instructions"@, JsonV::Str(i@)),
        None => o,
    };
    let o = o.with("input"@, JsonV::Array(openai_input(messages_view(r.messages@))));
    let o = if r.tools@.len() > 0 {
        o.with("tools"@, JsonV::Array(tools_json(r.tools@)))
    } else {
        o
    };
    let o = match r.options.temperature {
        Some(t) => o.with("temperature"@, JsonV::Number(t.view())),
        None => o,
    };
    let o = match r.options.max_output_tokens {
        Some(n) => o.with("max_output_tokens"@, JsonV::Number(NumV::PosInt(n as u64))),
        None => o,
    };
    let o = match r.options.parallel_tool_calls {
        Some(b) => o.with("parallel_tool_calls"@, JsonV::Bool(b)),
        None => o,
    };
    let o = if r.options.store {
        o.with("store"@, JsonV::Bool(true))
    } else {
        o
    };
    let o = match r.options.previous_response_id {
        Some(p) => o.with("previous_response_id"@, JsonV::Str(p@)),
        None => o,
    };
    if r.metadata@.len() > 0 {
        o.with("metadata"@, JsonV::Object(object_view(r.metadata@)))
    } else {
        o
    }
}

fn tagged_text(kind: &str, key: &str, text: &str) -> (r: Json)
    ensures
        r.view() == empty_object().with("type"@, JsonV::Str(kind@)).with(key@, JsonV::Str(text@)),
        r.view() matches JsonV::Object(f) && crate::json::keys_sorted(f),
{
    let mut o = Json::new_object();
    o.set("type", Json::str_of(kind));
    o.set(key, Json::str_of(text));
    o
}

fn map_content_block(block: &ContentBlock) -> (r: Json)
    ensures
        r.view() == openai_part(block.view()),
{
    proof {
        reveal_strlit("");
        assert(""@ =~= Seq::<char>::empty());
    }
    let r = match block {
        ContentBlock::Text { text } => tagged_text("input_text", "text", text.as_str()),
        ContentBlock::Reasoning { text } => tagged_text("input_text", "text", text.as_str()),
        ContentBlock::FileReference { uri, .. } => tagged_text("input_file", "file_url", uri.as_str()),
        ContentBlock::ImageReference { uri, .. } => tagged_text("input_image", "image_url", uri.as_str()),
        ContentBlock::AudioReference { uri, mime_type } => {
            let mut o = tagged_text("audio_reference", "uri", uri.as_str());
            let m = match mime_type {
                Some(s) => Json::str_of(s.as_str()),
                None => Json::Null,
            };
            o.set("mime_type", m);
            o
        },
        ContentBlock::Diagnostic { message, .. } => tagged_text("input_text", "text", message.as_str()),
        ContentBlock::Custom { value } => value.dup(),
        _ => tagged_text("input_text", "text", ""),
    };
    r
}

fn map_tool_call(call_id: &str, name: &str, arguments: &Json) -> (r: Json)
    ensures
        r.view() == empty_object().with("type"@, JsonV::Str("function_call"@)).with("call_id"@, JsonV::Str(call_id@)).with(
            "name"@,
            JsonV::Str(name@),
        ).with("arguments"@, JsonV::Str(value_text(arguments.view()))),
{
    let mut o = tagged_text("function_call", "call_id", call_id);
    o.set("name", Json::str_of(name));
    o.set("arguments", Json::Str(text_of(arguments)));
    o
}

fn map_tool_result(call_id: &str, output: &Json, is_error: bool) -> (r: Json)
    ensures
        ({
            let o = empty_object().with("type"@, JsonV::Str("function_call_output"@)).with("call_id"@, JsonV::Str(call_id@)).with(
                "output"@,
                JsonV::Str(value_text(output.view())),
            );
            r.view() == if is_error { o.with("is_error"@, JsonV::Bool(true)) } else { o }
        }),
{
    let mut o = tagged_text("function_call_output", "call_id", call_id);
    o.set("output", Json::Str(text_of(output)));
    if is_error {
        o.set("is_error", Json::Bool(true));
    }
    o
}

/// The input items of one message.
fn map_message_items(message: &RunMessage) -> (r: Vec<Json>)
    ensures
        array_view(r@) == openai_message_items(message.view()),
{
    let mut items: Vec<Json> = Vec::new();
    let mut content: Vec<Json> = Vec::new();
    let ghost blocks = blocks_view(message.content@);
    let mut i: usize = 0;
    proof {
        assert(array_view(items@) =~= Seq::<JsonV>::empty());
        assert(array_view(content@) =~= Seq::<JsonV>::empty());
        assert(blocks.subrange(0, 0) =~= Seq::<BlockV>::empty());
    }
    while i < message.content.len()
        invariant
            i <= message.content.len(),
            blocks == blocks_view(message.content@),
            array_view(items@) == openai_calls(blocks.subrange(0, i as int)),
            array_view(content@) == openai_parts(blocks.subrange(0, i as int)),
        decreases message.content.len() - i,
    {
        let ghost pre_items = array_view(items@);
        let ghost pre_content = array_view(content@);
        proof {
            assert(blocks.subrange(0, i + 1).drop_last() =~= blocks.subrange(0, i as int));
            assert(blocks.subrange(0, i + 1).last() == message.content@[i as int].view());
        }
        match &message.content[i] {
            ContentBlock::ToolCall { call_id, tool_name, arguments } => {
                let item = map_tool_call(call_id.as_str(), tool_name.as_str(), arguments);
                items.push(item);
                proof {
                    assert(array_view(items@) =~= pre_items.push(item.view()));
                }
            },
            ContentBlock::ToolResult { call_id, output, is_error, .. } => {
                let item = map_tool_result(call_id.as_str(), output, *is_error);
                items.push(item);
                proof {
                    assert(array_view(items@) =~= pre_items.push(item.view()));
                }
            },
            other => {
                let part = map_content_block(other);
                content.push(part);
                proof {
                    assert(array_view(content@) =~= pre_content.push(part.view()));
                }
            },
        }
        i += 1;
    }
    proof {
        assert(blocks.subrange(0, i as int) =~= blocks);
    }
    if content.len() > 0 {
        let ghost parts = array_view(content@);
        let mut head = Json::new_object();
        head.set("role", Json::str_of(map_role(message.role)));
        let arr = Json::Array(content);
        proof {
            lemma_view_parts(arr);
        }
        head.set("content", arr);
        let ghost rest = array_view(items@);
        items.insert(0, head);
        proof {
            assert(array_view(items@) =~= seq![head.view()] + rest);
        }
    } else {
        proof {
            assert(array_view(items@) =~= Seq::<JsonV>::empty() + array_view(items@));
        }
    }
    items
}

/// The OpenAI Responses provider.
#[derive(Debug, Clone, PartialEq, Eq)]
pub struct OpenAiResponsesProvider {
    provider_id: String,
    endpoint: String,
}

impl OpenAiResponsesProvider {
    pub closed spec fn id_view(&self) -> Seq<char> {
        self.provider_id@
    }

    pub closed spec fn endpoint_view(&self) -> Seq<char> {
        self.endpoint@
    }

    /// The `openai` provider at the public Responses endpoint.
    pub fn new() -> (r: OpenAiResponsesProvider)
        ensures
            r.id_view() == "openai"@ && r.endpoint_view() == "https://api.openai.com/v1/responses"@,
    {
        OpenAiResponsesProvider { provider_id: owned("openai"), endpoint: owned("https://api.openai.com/v1/responses") }
    }

    pub fn with_endpoint(self, endpoint: &str) -> (r: OpenAiResponsesProvider)
        ensures
            r.id_view() == self.id_view() && r.endpoint_view() == endpoint@,
    {
        let mut p = self;
        p.endpoint = owned(endpoint);
        p
    }

    /// A model served by this provider.
    pub fn default_model(model_id: &str) -> (r: LlmModel)
        ensures
            r.id.0@ == model_id@ && r.provider@ == "openai"@ && r.api == LlmApi::OpenAiResponses,
            r.capabilities == (crate::llm_model::LlmModelCapabilities {
                text_input: true,
                text_output: true,
                image_input: false,
                file_input: false,
                function_tools: true,
                parallel_tool_calls: true,
                streaming: true,
                reasoning: false,
            }),
            r.context_window is None && r.metadata@.len() == 0,
    {
        LlmModel::new(model_id, "openai", LlmApi::OpenAiResponses)
    }

    /// The request body: model, instructions, input items, tools, options and metadata.
    pub fn request_body(request: &LlmRequest) -> (r: AgentCoreResult<Json>)
        ensures
            r matches Ok(b) && b.view() == openai_body(*request),
    {
        let mut body = Json::new_object();
        body.set("model", Json::str_of(request.model.as_str()));
        match &request.instructions {
            Some(i) => body.set("instructions", Json::str_of(i.as_str())),
            None => {},
        }
        let ghost ms = messages_view(request.messages@);
        let mut input: Vec<Json> = Vec::new();
        let mut i: usize = 0;
        proof {
            assert(array_view(input@) =~= Seq::<JsonV>::empty());
            assert(ms.subrange(0, 0) =~= Seq::<MessageV>::empty());
        }
        while i < request.messages.len()
            invariant
                i <= request.messages.len(),
                ms == messages_view(request.messages@),
                array_view(input@) == openai_input(ms.subrange(0, i as int)),
            decreases request.messages.len() - i,
        {
            let mut items = map_message_items(&request.messages[i]);
            let ghost pre = array_view(input@);
            let ghost add = array_view(items@);
            input.append(&mut items);
            proof {
                assert(array_view(input@) =~= pre + add);
                assert(ms.subrange(0, i + 1).drop_last() =~= ms.subrange(0, i as int));
            }
            i += 1;
        }
        proof {
            assert(ms.subrange(0, i as int) =~= ms);
        }
        let arr = Json::Array(input);
        proof {
            lemma_view_parts(arr);
        }
        body.set("input", arr);
        if request.tools.len() > 0 {
            let mut tools: Vec<Json> = Vec::new();
            let mut k: usize = 0;
            while k < request.tools.len()
                invariant
                    k <= request.tools.len(),
                    tools.len() == k,
                    forall|q: int| 0 <= q < k ==> (#[trigger] tools@[q]).view() == function_tool_json(
                        request.tools@[q].name@,
                        request.tools@[q].description@,
                        request.tools@[q].input_schema.view(),
                    ),
                decreases request.tools.len() - k,
            {
                tools.push(request.tools[k].to_function_tool_schema());
                k += 1;
            }
            let tarr = Json::Array(tools);
            proof {
                lemma_view_parts(tarr);
                assert(array_view(tools@) =~= tools_json(request.tools@));
            }
            body.set("tools", tarr);
        }
        match &request.options.temperature {
            Some(t) => body.set("temperature", Json::Number(t.dup())),
            None => {},
        }
        match request.options.max_output_tokens {
            Some(n) => body.set("max_output_tokens", Json::Number(JsonNumber::PosInt(n as u64))),
            None => {},
        }
        match request.options.parallel_tool_calls {
            Some(b) => body.set("parallel_tool_calls", Json::Bool(b)),
            None => {},
        }
        if request.options.store {
            body.set("store", Json::Bool(true));
        }
        match &request.options.previous_response_id {
            Some(p) => body.set("previous_response_id", Json::str_of(p.as_str())),
            None => {},
        }
        if request.metadata.len() > 0 {
            let md = Json::Object(dup_fields(&request.metadata));
            proof {
                lemma_view_parts(md);
            }
            body.set("metadata", md);
        }
        Ok(body)
    }

    /// Maps one streamed event by its `type`; events of other types are skipped.
    pub fn stream_event_from_value(value: &Json) -> (r: AgentCoreResult<Option<LlmStreamEvent>>)
        ensures
            openai_event_holds(value.view(), r),
    {
        proof {
            reveal_strlit("");
            assert(""@ =~= Seq::<char>::empty());
        }
        let event_type = match value.get_str("type") {
            Some(t) => t,
            None => "",
        };
        if str_eq(event_type, "response.created") {
            let response_id = match value.get("response") {
                Some(resp) => match resp.get_str("id") {
                    Some(id) => owned(id),
                    None => owned(""),
                },
                None => owned(""),
            };
            return Ok(Some(LlmStreamEvent::ResponseCreated { response_id }));
        }
        if str_eq(event_type, "response.output_text.delta") {
            let text = match value.get_str("delta") {
                Some(t) => owned(t),
                None => owned(""),
            };
            return Ok(Some(LlmStreamEvent::TextDelta { text }));
        }
        if str_eq(event_type, "response.reasoning_text.delta") {
            let text = match value.get_str("delta") {
                Some(t) => owned(t),
                None => owned(""),
            };
            return Ok(Some(LlmStreamEvent::ReasoningDelta { text }));
        }
        if str_eq(event_type, "response.output_item.done") {
            return map_output_item_done(value);
        }
        if str_eq(event_type, "response.completed") {
            let response_id = match value.get("response") {
                Some(resp) => match resp.get_str("id") {
                    Some(id) => Some(owned(id)),
                    None => None,
                },
                None => None,
            };
            return Ok(Some(LlmStreamEvent::Completed { response_id }));
        }
        if str_eq(event_type, "response.failed") {
            let message = match value.get("error") {
                Some(err) => match err.get_str("message") {
                    Some(m) => owned(m),
                    None => owned("provider request failed"),
                },
                None => owned("provider request failed"),
            };
            return Ok(Some(LlmStreamEvent::Error { message, recoverable: true }));
        }
        if str_eq(event_type, "response.usage") {
            let usage = match value.get("usage") {
                Some(u) => LlmUsage {
                    input_tokens: match u.get_u64("input_tokens") {
                        Some(n) => n,
                        None => 0,
                    },
                    output_tokens: match u.get_u64("output_tokens") {
                        Some(n) => n,
                        None => 0,
                    },
                    total_tokens: match u.get_u64("total_tokens") {
                        Some(n) => n,
                        None => 0,
                    },
                },
                None => LlmUsage { input_tokens: 0, output_tokens: 0, total_tokens: 0 },
            };
            return Ok(Some(LlmStreamEvent::Usage { usage }));
        }
        Ok(None)
    }
}

/// The text under `key`, or `default`.
pub open spec fn str_or(v: JsonV, key: Seq<char>, default: Seq<char>) -> Seq<char> {
    match str_at(v, key) {
        Some(s) => s,
        None => default,
    }
}

pub open spec fn u64_or_zero(v: JsonV, key: Seq<char>) -> u64 {
    match u64_at(v, key) {
        Some(n) => n,
        None => 0,
    }
}

/// What a finished output item maps to: a completed tool call for a function-call item,
/// nothing for others; a function call without id or name, or with arguments that are not
/// JSON, is refused.
pub open spec fn output_item_holds(value: JsonV, r: AgentCoreResult<Option<LlmStreamEvent>>) -> bool {
    let item = at_or_null(value, "item"@);
    if str_at(item, "type"@) != Some("function_call"@) {
        r matches Ok(None)
    } else if str_at(item, "call_id"@) is None {
        r matches Err(AgentCoreError::InvalidInput(t)) && t@ == "function_call call_id missing"@
    } else if str_at(item, "name"@) is None {
        r matches Err(AgentCoreError::InvalidInput(t)) && t@ == "function_call name missing"@
    } else {
        let raw = str_or(item, "arguments"@, "{}"@);
        match json_parse(raw) {
            None => r matches Err(AgentCoreError::Serialization(_)),
            Some(args) => r matches Ok(Some(LlmStreamEvent::ToolCallCompleted { call_id, name, arguments })) && call_id@ == str_at(
                item,
                "call_id"@,
            )->0 && name@ == str_at(item, "name"@)->0 && arguments.view() == args,
        }
    }
}

/// What a streamed event maps to, by its `type` (missing or not a string reads as empty).
pub open spec fn openai_event_holds(value: JsonV, r: AgentCoreResult<Option<LlmStreamEvent>>) -> bool {
    let t = str_or(value, "type"@, Seq::empty());
    if t == "response.created"@ {
        r matches Ok(Some(LlmStreamEvent::ResponseCreated { response_id })) && response_id@ == str_or(
            at_or_null(value, "response"@),
            "id"@,
            Seq::empty(),
        )
    } else if t == "response.output_text.delta"@ {
        r matches Ok(Some(LlmStreamEvent::TextDelta { text })) && text@ == str_or(value, "delta"@, Seq::empty())
    } else if t == "response.reasoning_text.delta"@ {
        r matches Ok(Some(LlmStreamEvent::ReasoningDelta { text })) && text@ == str_or(value, "delta"@, Seq::empty())
    } else if t == "response.output_item.done"@ {
        output_item_holds(value, r)
    } else if t == "response.completed"@ {
        r matches Ok(Some(LlmStreamEvent::Completed { response_id })) && crate::message::opt_view(response_id) == str_at(
            at_or_null(value, "response"@),
            "id"@,
        )
    } else if t == "response.failed"@ {
        r matches Ok(Some(LlmStreamEvent::Error { message, recoverable })) && recoverable && message@ == str_or(
            at_or_null(value, "error"@),
            "message"@,
            "provider request failed"@,
        )
    } else if t == "response.usage"@ {
        let u = at_or_null(value, "usage"@);
        r matches Ok(Some(LlmStreamEvent::Usage { usage })) && usage == (LlmUsage {
            input_tokens: u64_or_zero(u, "input_tokens"@),
            output_tokens: u64_or_zero(u, "output_tokens"@),
            total_tokens: u64_or_zero(u, "total_tokens"@),
        })
    } else {
        r matches Ok(None)
    }
}

fn map_output_item_done(value: &Json) -> (r: AgentCoreResult<Option<LlmStreamEvent>>)
    ensures
        output_item_holds(value.view(), r),
{
    let null = Json::Null;
    let item = match value.get("item") {
        Some(i) => i,
        None => &null,
    };
    let is_call = match item.get_str("type") {
        Some(t) => str_eq(t, "function_call"),
        None => false,
    };
    if !is_call {
        return Ok(None);
    }
    let call_id = match item.get_str("call_id") {
        Some(c) => owned(c),
        None => {
            return Err(AgentCoreError::InvalidInput(owned("function_call call_id missing")));
        },
    };
    let name = match item.get_str("name") {
        Some(n) => owned(n),
        None => {
            return Err(AgentCoreError::InvalidInput(owned("function_call name missing")));
        },
    };
    let raw = match item.get_str("arguments") {
        Some(a) => a,
        None => "{}",
    };
    match parse_text(raw) {
        Ok(arguments) => Ok(Some(LlmStreamEvent::ToolCallCompleted { call_id, name, arguments })),
        Err(e) => Err(AgentCoreError::Serialization(e)),
    }
}

impl LlmProvider for OpenAiResponsesProvider {
    fn provider_id(&self) -> (r: &str)
        ensures
            r@ == self.id_view(),
    {
        self.provider_id.as_str()
    }

    fn api(&self) -> (r: &str)
        ensures
            r@ == OPENAI_RESPONSES_API@,
    {
        OPENAI_RESPONSES_API
    }

    /// The prepared request: this provider, the Responses API, its endpoint, the request's
    /// headers and body.
    fn prepare_request(&self, request: &LlmRequest) -> (r: AgentCoreResult<PreparedLlmRequest>)
        ensures
            r matches Ok(p) && p.provider@ == self.id_view() && p.api@ == OPENAI_RESPONSES_API@ && p.endpoint@ == self.endpoint_view()
                && p.headers@.len() == request.headers@.len() && (forall|i: int| 0 <= i < p.headers@.len() ==> #[trigger] p.headers@[i].0@
                == request.headers@[i].0@ && p.headers@[i].1@ == request.headers@[i].1@) && p.body.view() == openai_body(*request)
                && p.metadata@.len() == 0,
    {
        let body = match OpenAiResponsesProvider::request_body(request) {
            Ok(b) => b,
            Err(e) => {
                return Err(e);
            },
        };
        Ok(PreparedLlmRequest {
            provider: dup_string(&self.provider_id),
            api: owned(OPENAI_RESPONSES_API),
            endpoint: dup_string(&self.endpoint),
            headers: dup_pairs(&request.headers),
            body,
            metadata: Vec::new(),
        })
    }
}

/// Copies string pairs.
pub fn dup_pairs(v: &Vec<(String, String)>) -> (r: Vec<(String, String)>)
    ensures
        r@.len() == v@.len(),
        forall|i: int| 0 <= i < r@.len() ==> #[trigger] r@[i].0@ == v@[i].0@ && r@[i].1@ == v@[i].1@,
{
    let mut out: Vec<(String, String)> = Vec::new();
    let mut i: usize = 0;
    while i < v.len()
        invariant
            i <= v.len(),
            out.len() == i,
            forall|k: int| 0 <= k < i ==> #[trigger] out@[k].0@ == v@[k].0@ && out@[k].1@ == v@[k].1@,
        decreases v.len() - i,
    {
        out.push((dup_string(&v[i].0), dup_string(&v[i].1)));
        i += 1;
    }
    out
}

} // verus!
