//! The DeepSeek chat-completions wire format: request bodies, stream chunks and whole
//! responses.

use vstd::prelude::*;
use crate::error::{AgentCoreError, AgentCoreResult};
use crate::json::{
    array_view, at_or_null, empty_object, fields_get, fields_lookup, json_parse, json_text, lemma_view_parts, object_view, parse_text,
    str_at, to_text, u64_at, Json, JsonNumber, JsonV, NumV,
};
use crate::llm_model::{LlmApi, LlmModel};
use crate::llm_request::{
    events_view, EventV, LlmContentPart, LlmInputItem, LlmMessageRole, LlmProvider, LlmRequest, LlmStreamEvent, LlmUsage,
    PreparedLlmRequest,
};
use crate::openai::{dup_pairs, str_or, u64_or_zero, value_text};
use crate::text::{dup_string, is_blank, join_seq, join_strings, owned, str_eq, str_is_blank, views_of};
use crate::tool_schema::ToolSchema;

verus! {

pub const DEEPSEEK_CHAT_API: &'static str = "deepseek_chat";

pub const DEEPSEEK_DEFAULT_ENDPOINT: &'static str = "https://api.deepseek.com/chat/completions";

pub const DEEPSEEK_API_KEY_ENV: &'static str = "DEEPSEEK_API_KEY";

pub open spec fn ds_role(role: LlmMessageRole) -> Seq<char> {
    match role {
        LlmMessageRole::User => "user"@,
        LlmMessageRole::Assistant => "assistant"@,
        LlmMessageRole::Developer => "system"@,
        LlmMessageRole::Diagnostic => "system"@,
        LlmMessageRole::Tool => "tool"@,
    }
}

pub fn map_role(role: LlmMessageRole) -> (r: &'static str)
    ensures
        r@ == ds_role(role),
        role == LlmMessageRole::User ==> r@ == "user"@,
        role == LlmMessageRole::Assistant ==> r@ == "assistant"@,
        role == LlmMessageRole::Developer ==> r@ == "system"@,
        role == LlmMessageRole::Diagnostic ==> r@ == "system"@,
        role == LlmMessageRole::Tool ==> r@ == "tool"@,
{
    match role {
        LlmMessageRole::User => "user",
        LlmMessageRole::Assistant => "assistant",
        LlmMessageRole::Developer => "system",
        LlmMessageRole::Diagnostic => "system",
        LlmMessageRole::Tool => "tool",
    }
}

/// A part goes to the reasoning only when it is reasoning in an assistant message.
pub open spec fn is_reasoning_part(role: LlmMessageRole, p: LlmContentPart) -> bool {
    role == LlmMessageRole::Assistant && p is Reasoning
}

/// The text a part contributes.
pub open spec fn part_text(p: LlmContentPart) -> Seq<char> {
    match p {
        LlmContentPart::Text { text } => text@,
        LlmContentPart::Reasoning { text } => text@,
        LlmContentPart::Json { value } => json_text(value.view()),
        LlmContentPart::Custom { value } => json_text(value.view()),
        LlmContentPart::ImageRef { uri } => "[image: "@ + uri@ + "]"@,
        LlmContentPart::FileRef { uri } => "[file: "@ + uri@ + "]"@,
        LlmContentPart::Diagnostic { message } => message@,
    }
}

/// The content texts of the parts, in order.
pub open spec fn content_texts(role: LlmMessageRole, parts: Seq<LlmContentPart>) -> Seq<Seq<char>>
    decreases parts.len(),
{
    if parts.len() == 0 {
        Seq::empty()
    } else if is_reasoning_part(role, parts.last()) {
        content_texts(role, parts.drop_last())
    } else {
        content_texts(role, parts.drop_last()).push(part_text(parts.last()))
    }
}

/// The reasoning texts of the parts, in order.
pub open spec fn reasoning_texts(role: LlmMessageRole, parts: Seq<LlmContentPart>) -> Seq<Seq<char>>
    decreases parts.len(),
{
    if parts.len() == 0 {
        Seq::empty()
    } else if is_reasoning_part(role, parts.last()) {
        reasoning_texts(role, parts.drop_last()).push(part_text(parts.last()))
    } else {
        reasoning_texts(role, parts.drop_last())
    }
}

/// A chat message: its role and its content texts joined by newlines; an assistant's
/// reasoning texts go to `reasoning_content`.
pub open spec fn ds_message(role: LlmMessageRole, parts: Seq<LlmContentPart>) -> JsonV {
    let m = empty_object().with("role"@, JsonV::Str(ds_role(role))).with(
        "content"@,
        JsonV::Str(join_seq(content_texts(role, parts), "\n"@)),
    );
    if role == LlmMessageRole::Assistant && reasoning_texts(role, parts).len() > 0 {
        m.with("reasoning_content"@, JsonV::Str(join_seq(reasoning_texts(role, parts), "\n"@)))
    } else {
        m
    }
}

/// A chat message carries its role as the literal role name: "user", "assistant", "tool",
/// and "system" for developer and diagnostic messages.
pub proof fn lemma_ds_message_role(role: LlmMessageRole, parts: Seq<LlmContentPart>)
    ensures
        role == LlmMessageRole::User ==> ds_message(role, parts).get("role"@) == Some(JsonV::Str("user"@)),
        role == LlmMessageRole::Assistant ==> ds_message(role, parts).get("role"@) == Some(JsonV::Str("assistant"@)),
        role == LlmMessageRole::Developer ==> ds_message(role, parts).get("role"@) == Some(JsonV::Str("system"@)),
        role == LlmMessageRole::Diagnostic ==> ds_message(role, parts).get("role"@) == Some(JsonV::Str("system"@)),
        role == LlmMessageRole::Tool ==> ds_message(role, parts).get("role"@) == Some(JsonV::Str("tool"@)),
{
    reveal_strlit("role");
    reveal_strlit("content");
    reveal_strlit("reasoning_content");
    let r = JsonV::Str(ds_role(role));
    let c = JsonV::Str(join_seq(content_texts(role, parts), "\n"@));
    let x = JsonV::Str(join_seq(reasoning_texts(role, parts), "\n"@));
    let m1 = empty_object().with("role"@, r);
    let m2 = m1.with("content"@, c);
    assert("role"@ != "content"@ && "role"@ != "reasoning_content"@) by {
        assert("role"@.len() == 4 && "content"@.len() == 7 && "reasoning_content"@.len() == 17);
    }
    crate::json::lemma_get_with(empty_object(), "role"@, r, "role"@);
    crate::json::lemma_get_with(m1, "content"@, c, "role"@);
    crate::json::lemma_get_with(m2, "reasoning_content"@, x, "role"@);
    assert(m2.get("role"@) == Some(r));
    assert(ds_message(role, parts).get("role"@) == Some(r));
}

pub open spec fn ds_tool_call(call_id: Seq<char>, name: Seq<char>, arguments: JsonV) -> JsonV {
    empty_object().with("id"@, JsonV::Str(call_id)).with("type"@, JsonV::Str("function"@)).with(
        "function"@,
        empty_object().with("name"@, JsonV::Str(name)).with("arguments"@, JsonV::Str(value_text(arguments))),
    )
}

pub open spec fn ds_call_message(tool_call: JsonV) -> JsonV {
    empty_object().with("role"@, JsonV::Str("assistant"@)).with("content"@, JsonV::Null).with(
        "tool_calls"@,
        JsonV::Array(seq![tool_call]),
    )
}

/// A tool call joins the last message when it is an assistant's (whose content becomes
/// null when it has none, and whose tool calls are extended), else it starts an assistant
/// message of its own.
pub open spec fn attach_tool_call(msgs: Seq<JsonV>, tool_call: JsonV) -> Seq<JsonV> {
    if msgs.len() > 0 && str_at(msgs.last(), "role"@) == Some("assistant"@) {
        let last = msgs.last();
        let last1 = if last.get("content"@) is None {
            last.with("content"@, JsonV::Null)
        } else {
            last
        };
        match last1.get("tool_calls"@) {
            None => msgs.update(msgs.len() - 1, last1.with("tool_calls"@, JsonV::Array(seq![tool_call]))),
            Some(JsonV::Array(a)) => msgs.update(msgs.len() - 1, last1.with("tool_calls"@, JsonV::Array(a.push(tool_call)))),
            Some(_) => msgs.update(msgs.len() - 1, last1).push(ds_call_message(tool_call)),
        }
    } else {
        msgs.push(ds_call_message(tool_call))
    }
}

pub open spec fn ds_output_message(call_id: Seq<char>, output: JsonV, is_error: bool) -> JsonV {
    empty_object().with("role"@, JsonV::Str("tool"@)).with("tool_call_id"@, JsonV::Str(call_id)).with(
        "content"@,
        JsonV::Str(if is_error { "tool returned error: "@ + value_text(output) } else { value_text(output) }),
    )
}

/// The messages after one more input item.
pub open spec fn ds_step(msgs: Seq<JsonV>, item: LlmInputItem) -> Seq<JsonV> {
    match item {
        LlmInputItem::Message { role, content, .. } => msgs.push(ds_message(role, content@)),
        LlmInputItem::FunctionCall { call_id, name, arguments } => attach_tool_call(msgs, ds_tool_call(call_id@, name@, arguments.view())),
        LlmInputItem::FunctionCallOutput { call_id, output, is_error } => msgs.push(ds_output_message(call_id@, output.view(), is_error)),
        LlmInputItem::Custom { value } => msgs.push(value.view()),
    }
}

pub open spec fn ds_fold(start: Seq<JsonV>, items: Seq<LlmInputItem>) -> Seq<JsonV>
    decreases items.len(),
{
    if items.len() == 0 {
        start
    } else {
        ds_step(ds_fold(start, items.drop_last()), items.last())
    }
}

/// The chat messages of a request: a system message with the instructions when they are not
/// blank, then the input items in order.
pub open spec fn ds_messages(r: LlmRequest) -> Seq<JsonV> {
    let start = match r.instructions {
        Some(i) => if !is_blank(i@) {
            seq![empty_object().with("role"@, JsonV::Str("system"@)).with("content"@, JsonV::Str(i@))]
        } else {
            Seq::empty()
        },
        None => Seq::empty(),
    };
    ds_fold(start, r.input@)
}

pub open spec fn ds_tool(t: ToolSchema) -> JsonV {
    let f = empty_object().with("name"@, JsonV::Str(t.name@)).with("description"@, JsonV::Str(t.description@)).with(
        "parameters"@,
        t.input_schema.view(),
    );
    let f = match fields_get(object_view(t.annotations@), "strict"@) {
        Some(v) => f.with("strict"@, v),
        None => f,
    };
    empty_object().with("type"@, JsonV::Str("function"@)).with("function"@, f)
}

pub open spec fn copy_field(body: JsonV, r: LlmRequest, metadata_key: Seq<char>, body_key: Seq<char>) -> JsonV {
    match fields_get(object_view(r.metadata@), metadata_key) {
        Some(v) => body.with(body_key, v),
        None => body,
    }
}

/// The request body, when the request has at least one message.
pub open spec fn ds_body(r: LlmRequest) -> JsonV {
    let b = empty_object().with("model"@, JsonV::Str(r.model.0@)).with("messages"@, JsonV::Array(ds_messages(r)));
    let b = if r.tools@.len() > 0 {
        b.with("tools"@, JsonV::Array(Seq::new(r.tools@.len(), |i: int| ds_tool(r.tools@[i]))))
    } else {
        b
    };
    let b = match r.options.temperature {
        Some(t) => b.with("temperature"@, JsonV::Number(t.view())),
        None => b,
    };
    let b = match r.options.max_output_tokens {
        Some(n) => b.with("max_tokens"@, JsonV::Number(NumV::PosInt(n as u64))),
        None => b,
    };
    let b = copy_field(b, r, "deepseek.thinking"@, "thinking"@);
    let b = copy_field(b, r, "deepseek.reasoning_effort"@, "reasoning_effort"@);
    let b = copy_field(b, r, "deepseek.response_format"@, "response_format"@);
    let b = copy_field(b, r, "deepseek.tool_choice"@, "tool_choice"@);
    let b = copy_field(b, r, "deepseek.stream"@, "stream"@);
    copy_field(b, r, "deepseek.stream_options"@, "stream_options"@)
}

fn text_of(v: &Json) -> (r: String)
    ensures
        r@ == value_text(v.view()),
{
    match v {
        Json::Str(s) => s.clone(),
        _ => to_text(v),
    }
}

fn object_with(pairs_key: &str, value: Json) -> (r: Json)
    ensures
        r.view() == empty_object().with(pairs_key@, value.view()),
        r.view() matches JsonV::Object(f) && crate::json::keys_sorted(f),
{
    let mut o = Json::new_object();
    o.set(pairs_key, value);
    o
}

fn map_message(role: LlmMessageRole, content: &Vec<LlmContentPart>) -> (r: Json)
    ensures
        r.view() == ds_message(role, content@),
{
    let mut texts: Vec<String> = Vec::new();
    let mut reasoning: Vec<String> = Vec::new();
    let mut i: usize = 0;
    proof {
        assert(content@.subrange(0, 0) =~= Seq::<LlmContentPart>::empty());
        assert(views_of(texts@) =~= Seq::<Seq<char>>::empty());
        assert(views_of(reasoning@) =~= Seq::<Seq<char>>::empty());
    }
    while i < content.len()
        invariant
            i <= content.len(),
            views_of(texts@) == content_texts(role, content@.subrange(0, i as int)),
            views_of(reasoning@) == reasoning_texts(role, content@.subrange(0, i as int)),
        decreases content.len() - i,
    {
        let ghost pt = views_of(texts@);
        let ghost pr = views_of(reasoning@);
        proof {
            assert(content@.subrange(0, i + 1).drop_last() =~= content@.subrange(0, i as int));
            assert(content@.subrange(0, i + 1).last() == content@[i as int]);
        }
        let piece: String = match &content[i] {
            LlmContentPart::Text { text } => text.clone(),
            LlmContentPart::Reasoning { text } => text.clone(),
            LlmContentPart::Json { value } => to_text(value),
            LlmContentPart::Custom { value } => to_text(value),
            LlmContentPart::ImageRef { uri } => {
                let mut t = owned("[image: ");
                t.append(uri.as_str());
                t.append("]");
                t
            },
            LlmContentPart::FileRef { uri } => {
                let mut t = owned("[file: ");
                t.append(uri.as_str());
                t.append("]");
                t
            },
            LlmContentPart::Diagnostic { message } => message.clone(),
        };
        let is_reasoning = match &content[i] {
            LlmContentPart::Reasoning { .. } => role == LlmMessageRole::Assistant,
            _ => false,
        };
        if is_reasoning {
            reasoning.push(piece);
            proof {
                assert(views_of(reasoning@) =~= pr.push(part_text(content@[i as int])));
            }
        } else {
            texts.push(piece);
            proof {
                assert(views_of(texts@) =~= pt.push(part_text(content@[i as int])));
            }
        }
        i += 1;
    }
    proof {
        assert(content@.subrange(0, i as int) =~= content@);
    }
    let mut m = object_with("role", Json::str_of(map_role(role)));
    m.set("content", Json::Str(join_strings(&texts, "\n")));
    if role == LlmMessageRole::Assistant && reasoning.len() > 0 {
        m.set("reasoning_content", Json::Str(join_strings(&reasoning, "\n")));
    }
    m
}

fn call_message(tool_call: Json) -> (r: Json)
    ensures
        r.view() == ds_call_message(tool_call.view()),
{
    let mut m = object_with("role", Json::str_of("assistant"));
    m.set("content", Json::Null);
    let mut calls: Vec<Json> = Vec::new();
    calls.push(tool_call);
    let arr = Json::Array(calls);
    proof {
        lemma_view_parts(arr);
        assert(array_view(calls@) =~= seq![calls@[0].view()]);
    }
    m.set("tool_calls", arr);
    m
}

/// Adds a tool call to the messages (see [`attach_tool_call`]).
fn attach_or_push_tool_call(messages: &mut Vec<Json>, tool_call: Json)
    ensures
        array_view(final(messages)@) == attach_tool_call(array_view(old(messages)@), tool_call.view()),
{
    let ghost msgs = array_view(messages@);
    let ghost tc = tool_call.view();
    let n = messages.len();
    if n > 0 {
        let is_assistant = match messages[n - 1].get_str("role") {
            Some(r) => str_eq(r, "assistant"),
            None => false,
        };
        if is_assistant {
            let mut last = messages.pop().unwrap();
            proof {
                assert(last.view() == msgs.last());
            }
            if last.get("content").is_none() {
                last.put("content", Json::Null);
            }
            let ghost last1 = last.view();
            let existing = match last.get("tool_calls") {
                Some(Json::Array(a)) => Some(crate::json::dup_array(a)),
                Some(_) => None,
                None => Some(Vec::new()),
            };
            match existing {
                Some(mut calls) => {
                    let ghost before_calls = array_view(calls@);
                    calls.push(tool_call);
                    let arr = Json::Array(calls);
                    proof {
                        lemma_view_parts(arr);
                        assert(array_view(calls@) =~= before_calls.push(tc));
                        if last1.get("tool_calls"@) is None {
                            assert(before_calls =~= Seq::<JsonV>::empty());
                            assert(before_calls.push(tc) =~= seq![tc]);
                        }
                    }
                    last.put("tool_calls", arr);
                    messages.push(last);
                    proof {
                        assert(array_view(messages@) =~= msgs.update(msgs.len() - 1, last.view()));
                    }
                },
                None => {
                    messages.push(last);
                    let ghost mid = array_view(messages@);
                    proof {
                        assert(mid =~= msgs.update(msgs.len() - 1, last1));
                    }
                    let cm = call_message(tool_call);
                    messages.push(cm);
                    proof {
                        assert(array_view(messages@) =~= mid.push(cm.view()));
                    }
                },
            }
            return;
        }
    }
    let cm = call_message(tool_call);
    messages.push(cm);
    proof {
        assert(array_view(messages@) =~= msgs.push(cm.view()));
    }
}

fn map_messages(request: &LlmRequest) -> (r: Vec<Json>)
    ensures
        array_view(r@) == ds_messages(*request),
{
    let mut messages: Vec<Json> = Vec::new();
    match &request.instructions {
        Some(i) => {
            if !str_is_blank(i.as_str()) {
                let mut m = object_with("role", Json::str_of("system"));
                m.set("content", Json::str_of(i.as_str()));
                messages.push(m);
            }
        },
        None => {},
    }
    let ghost start = array_view(messages@);
    proof {
        if request.instructions is Some && !is_blank(request.instructions->0@) {
            assert(start =~= seq![messages@[0].view()]);
        } else {
            assert(start =~= Seq::<JsonV>::empty());
        }
    }
    let mut i: usize = 0;
    proof {
        assert(request.input@.subrange(0, 0) =~= Seq::<LlmInputItem>::empty());
    }
    while i < request.input.len()
        invariant
            i <= request.input.len(),
            array_view(messages@) == ds_fold(start, request.input@.subrange(0, i as int)),
        decreases request.input.len() - i,
    {
        let ghost before = array_view(messages@);
        proof {
            assert(request.input@.subrange(0, i + 1).drop_last() =~= request.input@.subrange(0, i as int));
            assert(request.input@.subrange(0, i + 1).last() == request.input@[i as int]);
        }
        match &request.input[i] {
            LlmInputItem::Message { role, content, .. } => {
                let m = map_message(*role, content);
                messages.push(m);
                proof {
                    assert(array_view(messages@) =~= before.push(m.view()));
                }
            },
            LlmInputItem::FunctionCall { call_id, name, arguments } => {
                let mut f = object_with("name", Json::str_of(name.as_str()));
                f.set("arguments", Json::Str(text_of(arguments)));
                let mut tc = object_with("id", Json::str_of(call_id.as_str()));
                tc.set("type", Json::str_of("function"));
                tc.set("function", f);
                attach_or_push_tool_call(&mut messages, tc);
            },
            LlmInputItem::FunctionCallOutput { call_id, output, is_error } => {
                let mut m = object_with("role", Json::str_of("tool"));
                m.set("tool_call_id", Json::str_of(call_id.as_str()));
                let text = text_of(output);
                if *is_error {
                    let mut t = owned("tool returned error: ");
                    t.append(text.as_str());
                    m.set("content", Json::Str(t));
                } else {
                    m.set("content", Json::Str(text));
                }
                messages.push(m);
                proof {
                    assert(array_view(messages@) =~= before.push(m.view()));
                }
            },
            LlmInputItem::Custom { value } => {
                let v = value.dup();
                messages.push(v);
                proof {
                    assert(array_view(messages@) =~= before.push(v.view()));
                }
            },
        }
        i += 1;
    }
    proof {
        assert(request.input@.subrange(0, i as int) =~= request.input@);
    }
    messages
}

fn map_tool_schema(schema: &ToolSchema) -> (r: Json)
    ensures
        r.view() == ds_tool(*schema),
{
    let mut f = object_with("name", Json::str_of(schema.name.as_str()));
    f.set("description", Json::str_of(schema.description.as_str()));
    f.set("parameters", schema.input_schema.dup());
    match fields_lookup(&schema.annotations, "strict") {
        Some(v) => f.set("strict", v.dup()),
        None => {},
    }
    let mut t = object_with("type", Json::str_of("function"));
    t.set("function", f);
    t
}

fn copy_provider_body_field(request: &LlmRequest, body: &mut Json, metadata_key: &str, body_key: &str)
    requires
        old(body).view() matches JsonV::Object(f) && crate::json::keys_sorted(f),
    ensures
        final(body).view() == copy_field(old(body).view(), *request, metadata_key@, body_key@),
        final(body).view() matches JsonV::Object(f) && crate::json::keys_sorted(f),
{
    match fields_lookup(&request.metadata, metadata_key) {
        Some(v) => body.set(body_key, v.dup()),
        None => {},
    }
}

/// The usage a value reports, when it has a `usage` field.
pub open spec fn ds_usage(value: JsonV) -> Option<EventV> {
    match value.get("usage"@) {
        Some(u) => Some(EventV::Usage {
            usage: LlmUsage {
                input_tokens: u64_or_zero(u, "prompt_tokens"@),
                output_tokens: u64_or_zero(u, "completion_tokens"@),
                total_tokens: u64_or_zero(u, "total_tokens"@),
            },
        }),
        None => None,
    }
}

fn usage_event(value: &Json) -> (r: AgentCoreResult<Option<LlmStreamEvent>>)
    ensures
        match ds_usage(value.view()) {
            Some(e) => r matches Ok(Some(ev)) && ev@ == e,
            None => r matches Ok(None),
        },
{
    match value.get("usage") {
        None => Ok(None),
        Some(u) => Ok(
            Some(
                LlmStreamEvent::Usage {
                    usage: LlmUsage {
                        input_tokens: match u.get_u64("prompt_tokens") {
                            Some(n) => n,
                            None => 0,
                        },
                        output_tokens: match u.get_u64("completion_tokens") {
                            Some(n) => n,
                            None => 0,
                        },
                        total_tokens: match u.get_u64("total_tokens") {
                            Some(n) => n,
                            None => 0,
                        },
                    },
                },
            ),
        ),
    }
}

/// The first element of the array under `key`.
pub open spec fn first_at(v: JsonV, key: Seq<char>) -> Option<JsonV> {
    match v.get(key) {
        Some(JsonV::Array(a)) => if a.len() > 0 {
            Some(a[0])
        } else {
            None
        },
        _ => None,
    }
}

fn first_of<'a>(v: &'a Json, key: &str) -> (r: Option<&'a Json>)
    ensures
        match r {
            Some(x) => first_at(v.view(), key@) == Some(x.view()),
            None => first_at(v.view(), key@) is None,
        },
{
    match v.get(key) {
        Some(Json::Array(a)) => {
            proof {
                lemma_view_parts(Json::Array(*a));
            }
            if a.len() > 0 {
                Some(&a[0])
            } else {
                None
            }
        },
        _ => None,
    }
}

/// What a stream chunk maps to, looking at its first choice: non-empty reasoning, then
/// non-empty content, then a tool-call delta, then a finish reason; otherwise (and without
/// choices) its usage.
pub open spec fn ds_chunk_event(value: JsonV) -> Option<EventV> {
    match first_at(value, "choices"@) {
        None => ds_usage(value),
        Some(choice) => {
            let delta = at_or_null(choice, "delta"@);
            let reasoning = str_at(delta, "reasoning_content"@);
            let content = str_at(delta, "content"@);
            if reasoning is Some && reasoning->0.len() > 0 {
                Some(EventV::ReasoningDelta { text: reasoning->0 })
            } else if content is Some && content->0.len() > 0 {
                Some(EventV::TextDelta { text: content->0 })
            } else if first_at(delta, "tool_calls"@) is Some {
                let tc = first_at(delta, "tool_calls"@)->0;
                let function = at_or_null(tc, "function"@);
                Some(EventV::ToolCallDelta {
                    call_id: str_or(tc, "id"@, Seq::empty()),
                    name: str_at(function, "name"@),
                    arguments_delta: str_or(function, "arguments"@, Seq::empty()),
                })
            } else if str_at(choice, "finish_reason"@) is Some {
                Some(EventV::Completed { response_id: str_at(value, "id"@) })
            } else {
                ds_usage(value)
            }
        },
    }
}

/// A completed tool call of a whole response; an id or name missing, or arguments that are
/// not JSON, refuse it.
pub open spec fn ds_completed_call_holds(tool_call: JsonV, r: AgentCoreResult<LlmStreamEvent>) -> bool {
    let function = at_or_null(tool_call, "function"@);
    if str_at(tool_call, "id"@) is None {
        r matches Err(AgentCoreError::InvalidInput(t)) && t@ == "tool call id missing"@
    } else if str_at(function, "name"@) is None {
        r matches Err(AgentCoreError::InvalidInput(t)) && t@ == "tool call name missing"@
    } else {
        match json_parse(str_or(function, "arguments"@, "{}"@)) {
            None => r matches Err(AgentCoreError::Serialization(_)),
            Some(args) => r matches Ok(e) && e@ == EventV::ToolCallCompleted {
                call_id: str_at(tool_call, "id"@)->0,
                name: str_at(function, "name"@)->0,
                arguments: args,
            },
        }
    }
}

fn map_completed_tool_call(tool_call: &Json) -> (r: AgentCoreResult<LlmStreamEvent>)
    ensures
        ds_completed_call_holds(tool_call.view(), r),
{
    let call_id = match tool_call.get_str("id") {
        Some(c) => owned(c),
        None => {
            return Err(AgentCoreError::InvalidInput(owned("tool call id missing")));
        },
    };
    let null = Json::Null;
    let function = match tool_call.get("function") {
        Some(f) => f,
        None => &null,
    };
    let name = match function.get_str("name") {
        Some(n) => owned(n),
        None => {
            return Err(AgentCoreError::InvalidInput(owned("tool call name missing")));
        },
    };
    let raw = match function.get_str("arguments") {
        Some(a) => a,
        None => "{}",
    };
    match parse_text(raw) {
        Ok(arguments) => Ok(LlmStreamEvent::ToolCallCompleted { call_id, name, arguments }),
        Err(e) => Err(AgentCoreError::Serialization(e)),
    }
}

/// The events of one choice of a whole response (when all its tool calls map).
pub open spec fn ds_choice_prefix(message: JsonV) -> Seq<EventV> {
    let a = match str_at(message, "reasoning_content"@) {
        Some(t) => if t.len() > 0 {
            seq![EventV::ReasoningDelta { text: t }]
        } else {
            Seq::empty()
        },
        None => Seq::empty(),
    };
    a + match str_at(message, "content"@) {
        Some(t) => if t.len() > 0 {
            seq![EventV::TextDelta { text: t }]
        } else {
            Seq::empty()
        },
        None => Seq::empty(),
    }
}

/// The DeepSeek chat provider.
#[derive(Clone, PartialEq, Eq)]
pub struct DeepSeekChatProvider {
    provider_id: String,
    endpoint: String,
    api_key: Option<String>,
}

impl DeepSeekChatProvider {
    pub closed spec fn id_view(&self) -> Seq<char> {
        self.provider_id@
    }

    pub closed spec fn endpoint_view(&self) -> Seq<char> {
        self.endpoint@
    }

    pub closed spec fn key_view(&self) -> Option<Seq<char>> {
        crate::message::opt_view(self.api_key)
    }

    /// The `deepseek` provider at the public endpoint, without a key.
    pub fn new() -> (r: DeepSeekChatProvider)
        ensures
            r.id_view() == "deepseek"@ && r.endpoint_view() == DEEPSEEK_DEFAULT_ENDPOINT@ && r.key_view() is None,
    {
        DeepSeekChatProvider { provider_id: owned("deepseek"), endpoint: owned(DEEPSEEK_DEFAULT_ENDPOINT), api_key: None }
    }

    pub fn with_endpoint(self, endpoint: &str) -> (r: DeepSeekChatProvider)
        ensures
            r.id_view() == self.id_view() && r.endpoint_view() == endpoint@ && r.key_view() == self.key_view(),
    {
        let mut p = self;
        p.endpoint = owned(endpoint);
        p
    }

    pub fn with_api_key(self, api_key: &str) -> (r: DeepSeekChatProvider)
        ensures
            r.id_view() == self.id_view() && r.endpoint_view() == self.endpoint_view() && r.key_view() == Some(api_key@),
    {
        let mut p = self;
        p.api_key = Some(owned(api_key));
        p
    }

    /// The provider's debug text, with the key hidden.
    pub fn debug_text(&self) -> (r: String)
        ensures
            r@ == "DeepSeekChatProvider { provider_id: "@ + crate::hook::debug_quoted(self.id_view()) + ", endpoint: "@
                + crate::hook::debug_quoted(self.endpoint_view()) + ", api_key: "@
                + (if self.key_view() is Some { "Some(\"<redacted>\")"@ } else { "None"@ }) + " }"@,
    {
        let mut t = owned("DeepSeekChatProvider { provider_id: ");
        t.append(crate::hook::debug_quoted_text(self.provider_id.as_str()).as_str());
        t.append(", endpoint: ");
        t.append(crate::hook::debug_quoted_text(self.endpoint.as_str()).as_str());
        t.append(", api_key: ");
        match &self.api_key {
            Some(_) => t.append("Some(\"<redacted>\")"),
            None => t.append("None"),
        }
        t.append(" }");
        t
    }

    /// A model served by this provider, with reasoning.
    pub fn default_model(model_id: &str) -> (r: LlmModel)
        ensures
            r.id.0@ == model_id@ && r.provider@ == "deepseek"@ && r.api == LlmApi::DeepSeekChat,
            r.capabilities == (crate::llm_model::LlmModelCapabilities {
                text_input: true,
                text_output: true,
                image_input: false,
                file_input: false,
                function_tools: true,
                parallel_tool_calls: true,
                streaming: true,
                reasoning: true,
            }),
            r.context_window is None && r.metadata@.len() == 0,
    {
        let mut model = LlmModel::new(model_id, "deepseek", LlmApi::DeepSeekChat);
        model.capabilities.reasoning = true;
        model
    }

    /// The request body; a request with no message (no non-blank instructions and no input)
    /// is refused.
    pub fn request_body(request: &LlmRequest) -> (r: AgentCoreResult<Json>)
        ensures
            ds_messages(*request).len() == 0 ==> (r matches Err(AgentCoreError::InvalidInput(t))
                && t@ == "deepseek chat request requires at least one message"@),
            ds_messages(*request).len() > 0 ==> (r matches Ok(b) && b.view() == ds_body(*request)),
    {
        let mut body = object_with("model", Json::str_of(request.model.as_str()));
        let messages = map_messages(request);
        if messages.len() == 0 {
            return Err(AgentCoreError::InvalidInput(owned("deepseek chat request requires at least one message")));
        }
        let arr = Json::Array(messages);
        proof {
            lemma_view_parts(arr);
        }
        body.set("messages", arr);
        if request.tools.len() > 0 {
            let mut tools: Vec<Json> = Vec::new();
            let mut k: usize = 0;
            while k < request.tools.len()
                invariant
                    k <= request.tools.len(),
                    tools.len() == k,
                    forall|q: int| 0 <= q < k ==> (#[trigger] tools@[q]).view() == ds_tool(request.tools@[q]),
                decreases request.tools.len() - k,
            {
                tools.push(map_tool_schema(&request.tools[k]));
                k += 1;
            }
            let tarr = Json::Array(tools);
            proof {
                lemma_view_parts(tarr);
                assert(array_view(tools@) =~= Seq::new(request.tools@.len(), |i: int| ds_tool(request.tools@[i])));
            }
            body.set("tools", tarr);
        }
        match &request.options.temperature {
            Some(t) => body.set("temperature", Json::Number(t.dup())),
            None => {},
        }
        match request.options.max_output_tokens {
            Some(n) => body.set("max_tokens", Json::Number(JsonNumber::PosInt(n as u64))),
            None => {},
        }
        copy_provider_body_field(request, &mut body, "deepseek.thinking", "thinking");
        copy_provider_body_field(request, &mut body, "deepseek.reasoning_effort", "reasoning_effort");
        copy_provider_body_field(request, &mut body, "deepseek.response_format", "response_format");
        copy_provider_body_field(request, &mut body, "deepseek.tool_choice", "tool_choice");
        copy_provider_body_field(request, &mut body, "deepseek.stream", "stream");
        copy_provider_body_field(request, &mut body, "deepseek.stream_options", "stream_options");
        Ok(body)
    }

    /// Maps one stream chunk (see [`ds_chunk_event`]).
    pub fn stream_event_from_value(value: &Json) -> (r: AgentCoreResult<Option<LlmStreamEvent>>)
        ensures
            match ds_chunk_event(value.view()) {
                Some(e) => r matches Ok(Some(ev)) && ev@ == e,
                None => r matches Ok(None),
            },
    {
        proof {
            reveal_strlit("");
            assert(""@ =~= Seq::<char>::empty());
        }
        let choice = match first_of(value, "choices") {
            Some(c) => c,
            None => {
                return usage_event(value);
            },
        };
        let null = Json::Null;
        let delta = match choice.get("delta") {
            Some(d) => d,
            None => &null,
        };
        if let Some(reasoning) = delta.get_str("reasoning_content") {
            if !reasoning.is_empty() {
                return Ok(Some(LlmStreamEvent::ReasoningDelta { text: owned(reasoning) }));
            }
        }
        if let Some(content) = delta.get_str("content") {
            if !content.is_empty() {
                return Ok(Some(LlmStreamEvent::TextDelta { text: owned(content) }));
            }
        }
        if let Some(tool_call) = first_of(delta, "tool_calls") {
            let function = match tool_call.get("function") {
                Some(f) => f,
                None => &null,
            };
            let call_id = match tool_call.get_str("id") {
                Some(c) => owned(c),
                None => owned(""),
            };
            let name = match function.get_str("name") {
                Some(n) => Some(owned(n)),
                None => None,
            };
            let arguments_delta = match function.get_str("arguments") {
                Some(a) => owned(a),
                None => owned(""),
            };
            return Ok(Some(LlmStreamEvent::ToolCallDelta { call_id, name, arguments_delta }));
        }
        if choice.get_str("finish_reason").is_some() {
            let response_id = match value.get_str("id") {
                Some(id) => Some(owned(id)),
                None => None,
            };
            return Ok(Some(LlmStreamEvent::Completed { response_id }));
        }
        usage_event(value)
    }
}

impl LlmProvider for DeepSeekChatProvider {
    fn provider_id(&self) -> (r: &str)
        ensures
            r@ == self.id_view(),
    {
        self.provider_id.as_str()
    }

    fn api(&self) -> (r: &str)
        ensures
            r@ == DEEPSEEK_CHAT_API@,
    {
        DEEPSEEK_CHAT_API
    }

    /// The prepared request: the request's headers with a JSON content type and, when the
    /// provider has a key, a bearer authorization added unless present, and the body.
    fn prepare_request(&self, request: &LlmRequest) -> (r: AgentCoreResult<PreparedLlmRequest>)
        ensures
            ds_messages(*request).len() == 0 ==> r is Err,
            ds_messages(*request).len() > 0 ==> (r matches Ok(p) && p.provider@ == self.id_view() && p.api@ == DEEPSEEK_CHAT_API@
                && p.endpoint@ == self.endpoint_view() && p.body.view() == ds_body(*request) && p.metadata@.len() == 0
                && header_pairs(p.headers@) == ds_headers(header_pairs(request.headers@), self.key_view())),
    {
        let mut headers = dup_pairs(&request.headers);
        proof {
            assert(header_pairs(headers@) =~= header_pairs(request.headers@));
        }
        let ghost h0 = header_pairs(headers@);
        if !has_header(&headers, "Content-Type") {
            headers.push((owned("Content-Type"), owned("application/json")));
            proof {
                assert(header_pairs(headers@) =~= h0.push(("Content-Type"@, "application/json"@)));
            }
        } else {
            proof {
                let i = choose|i: int| 0 <= i < headers@.len() && headers@[i].0@ == "Content-Type"@;
                assert(h0[i].0 == "Content-Type"@);
            }
        }
        let ghost h1 = header_pairs(headers@);
        proof {
            assert(h1 == with_header(h0, "Content-Type"@, "application/json"@));
        }
        match &self.api_key {
            Some(key) => {
                if !has_header(&headers, "Authorization") {
                    let mut v = owned("Bearer ");
                    v.append(key.as_str());
                    headers.push((owned("Authorization"), v));
                    proof {
                        assert(header_pairs(headers@) =~= h1.push(("Authorization"@, "Bearer "@ + key@)));
                    }
                } else {
                    proof {
                        let i = choose|i: int| 0 <= i < headers@.len() && headers@[i].0@ == "Authorization"@;
                        assert(h1[i].0 == "Authorization"@);
                    }
                }
            },
            None => {},
        }
        let body = match DeepSeekChatProvider::request_body(request) {
            Ok(b) => b,
            Err(e) => {
                return Err(e);
            },
        };
        Ok(PreparedLlmRequest {
            provider: dup_string(&self.provider_id),
            api: owned(DEEPSEEK_CHAT_API),
            endpoint: dup_string(&self.endpoint),
            headers,
            body,
            metadata: Vec::new(),
        })
    }
}

/// Header pairs as text.
pub open spec fn header_pairs(v: Seq<(String, String)>) -> Seq<(Seq<char>, Seq<char>)> {
    Seq::new(v.len(), |i: int| (v[i].0@, v[i].1@))
}

/// Some header is named `name`.
pub open spec fn header_has(h: Seq<(Seq<char>, Seq<char>)>, name: Seq<char>) -> bool {
    exists|i: int| 0 <= i < h.len() && #[trigger] h[i].0 == name
}

/// `h` with the header `name: value` added unless a header of that name is there.
pub open spec fn with_header(h: Seq<(Seq<char>, Seq<char>)>, name: Seq<char>, value: Seq<char>) -> Seq<(Seq<char>, Seq<char>)> {
    if header_has(h, name) {
        h
    } else {
        h.push((name, value))
    }
}

/// The headers a prepared request carries: the request's, a JSON content type unless one is
/// set, and, with a key, a bearer authorization unless one is set.
pub open spec fn ds_headers(h: Seq<(Seq<char>, Seq<char>)>, key: Option<Seq<char>>) -> Seq<(Seq<char>, Seq<char>)> {
    let h1 = with_header(h, "Content-Type"@, "application/json"@);
    match key {
        Some(k) => with_header(h1, "Authorization"@, "Bearer "@ + k),
        None => h1,
    }
}

fn has_header(headers: &Vec<(String, String)>, name: &str) -> (r: bool)
    ensures
        r == exists|i: int| 0 <= i < headers@.len() && headers@[i].0@ == name@,
{
    let mut i: usize = 0;
    while i < headers.len()
        invariant
            i <= headers.len(),
            forall|k: int| 0 <= k < i ==> headers@[k].0@ != name@,
        decreases headers.len() - i,
    {
        if str_eq(headers[i].0.as_str(), name) {
            return true;
        }
        i += 1;
    }
    false
}

/// The completed tool call of a whole response, when its id and name are there and its
/// arguments are JSON.
pub open spec fn call_event(tc: JsonV) -> Option<EventV> {
    let function = at_or_null(tc, "function"@);
    if str_at(tc, "id"@) is None || str_at(function, "name"@) is None {
        None
    } else {
        match json_parse(str_or(function, "arguments"@, "{}"@)) {
            None => None,
            Some(args) => Some(EventV::ToolCallCompleted { call_id: str_at(tc, "id"@)->0, name: str_at(function, "name"@)->0, arguments: args }),
        }
    }
}

/// The elements of the array under `key` (none when it is not an array).
pub open spec fn array_at(v: JsonV, key: Seq<char>) -> Seq<JsonV> {
    match v.get(key) {
        Some(JsonV::Array(a)) => a,
        _ => Seq::empty(),
    }
}

pub open spec fn calls_ok(calls: Seq<JsonV>) -> bool {
    forall|i: int| 0 <= i < calls.len() ==> (#[trigger] call_event(calls[i])) is Some
}

pub open spec fn calls_events(calls: Seq<JsonV>) -> Seq<EventV> {
    Seq::new(calls.len(), |i: int| call_event(calls[i])->0)
}

/// The events of one choice of a whole response.
pub open spec fn choice_events(choice: JsonV) -> Seq<EventV> {
    let m = at_or_null(choice, "message"@);
    ds_choice_prefix(m) + calls_events(array_at(m, "tool_calls"@))
}

pub open spec fn choices_events(choices: Seq<JsonV>) -> Seq<EventV>
    decreases choices.len(),
{
    if choices.len() == 0 {
        Seq::empty()
    } else {
        choices_events(choices.drop_last()) + choice_events(choices.last())
    }
}

pub open spec fn choices_ok(choices: Seq<JsonV>) -> bool {
    forall|i: int| 0 <= i < choices.len() ==> calls_ok(array_at(at_or_null(#[trigger] choices[i], "message"@), "tool_calls"@))
}

/// The events of a whole response: its creation (when it has an id), each choice's
/// reasoning, text and tool calls, its usage (when reported), and its completion.
pub open spec fn ds_response_events(value: JsonV) -> Seq<EventV> {
    let head = match str_at(value, "id"@) {
        Some(id) => seq![EventV::ResponseCreated { response_id: id }],
        None => Seq::empty(),
    };
    let usage = match ds_usage(value) {
        Some(u) => seq![u],
        None => Seq::empty(),
    };
    head + choices_events(array_at(value, "choices"@)) + usage + seq![EventV::Completed { response_id: str_at(value, "id"@) }]
}

fn array_of<'a>(v: &'a Json, key: &str) -> (r: Option<&'a Vec<Json>>)
    ensures
        match r {
            Some(a) => array_at(v.view(), key@) == array_view(a@),
            None => array_at(v.view(), key@).len() == 0,
        },
{
    match v.get(key) {
        Some(Json::Array(a)) => {
            proof {
                lemma_view_parts(Json::Array(*a));
            }
            Some(a)
        },
        _ => None,
    }
}

impl DeepSeekChatProvider {
    /// Maps a whole (non-streamed) response into events (see [`ds_response_events`]); a
    /// tool call without id or name, or with arguments that are not JSON, refuses it.
    pub fn response_events_from_value(value: &Json) -> (r: AgentCoreResult<Vec<LlmStreamEvent>>)
        ensures
            choices_ok(array_at(value.view(), "choices"@)) ==> (r matches Ok(v) && events_view(v@) == ds_response_events(value.view())),
            !choices_ok(array_at(value.view(), "choices"@)) ==> r is Err,
            r matches Err(e) ==> e is InvalidInput || e is Serialization,
    {
        let mut events: Vec<LlmStreamEvent> = Vec::new();
        if let Some(id) = value.get_str("id") {
            events.push(LlmStreamEvent::ResponseCreated { response_id: owned(id) });
        }
        let ghost head = events_view(events@);
        proof {
            if str_at(value.view(), "id"@) is Some {
                assert(head =~= seq![EventV::ResponseCreated { response_id: str_at(value.view(), "id"@)->0 }]);
            } else {
                assert(head =~= Seq::<EventV>::empty());
            }
        }
        let ghost cs = array_at(value.view(), "choices"@);
        let empty: Vec<Json> = Vec::new();
        let choices = match array_of(value, "choices") {
            Some(a) => a,
            None => &empty,
        };
        proof {
            assert(array_view(choices@) =~= cs);
            assert(cs.subrange(0, 0) =~= Seq::<JsonV>::empty());
        }
        let null = Json::Null;
        let mut i: usize = 0;
        while i < choices.len()
            invariant
                i <= choices.len(),
                array_view(choices@) == cs,
                events_view(events@) == head + choices_events(cs.subrange(0, i as int)),
                choices_ok(cs.subrange(0, i as int)),
                null == Json::Null,
                empty@.len() == 0,
                cs == array_at(value.view(), "choices"@),
            decreases choices.len() - i,
        {
            let ghost before = events_view(events@);
            let ghost choice = cs[i as int];
            assert(choice == choices@[i as int].view());
            let message = match choices[i].get("message") {
                Some(m) => m,
                None => &null,
            };
            let ghost mv = message.view();
            assert(mv == at_or_null(choice, "message"@));
            if let Some(reasoning) = message.get_str("reasoning_content") {
                if !reasoning.is_empty() {
                    events.push(LlmStreamEvent::ReasoningDelta { text: owned(reasoning) });
                }
            }
            if let Some(content) = message.get_str("content") {
                if !content.is_empty() {
                    events.push(LlmStreamEvent::TextDelta { text: owned(content) });
                }
            }
            let ghost mid = events_view(events@);
            proof {
                assert(mid =~= before + ds_choice_prefix(mv));
            }
            let calls = match array_of(message, "tool_calls") {
                Some(a) => a,
                None => &empty,
            };
            let ghost tcs = array_at(mv, "tool_calls"@);
            proof {
                assert(array_view(calls@) =~= tcs);
            }
            let mut k: usize = 0;
            while k < calls.len()
                invariant
                    k <= calls.len(),
                    array_view(calls@) == tcs,
                    events_view(events@) == mid + calls_events(tcs.subrange(0, k as int)),
                    calls_ok(tcs.subrange(0, k as int)),
                    i < cs.len(),
                    cs == array_at(value.view(), "choices"@),
                    tcs == array_at(at_or_null(cs[i as int], "message"@), "tool_calls"@),
                    choices_ok(cs.subrange(0, i as int)) || !choices_ok(cs),
                decreases calls.len() - k,
            {
                let ghost pre = events_view(events@);
                let e = match map_completed_tool_call(&calls[k]) {
                    Ok(e) => e,
                    Err(err) => {
                        proof {
                            assert(call_event(tcs[k as int]) is None);
                            assert(!calls_ok(tcs));
                            assert(!calls_ok(array_at(at_or_null(cs[i as int], "message"@), "tool_calls"@)));
                            assert(!choices_ok(cs)) by {
                                if choices_ok(cs) {
                                    assert(calls_ok(array_at(at_or_null(cs[i as int], "message"@), "tool_calls"@)));
                                }
                            }
                        }
                        return Err(err);
                    },
                };
                events.push(e);
                proof {
                    assert(call_event(tcs[k as int]) == Some(e@));
                    assert(events_view(events@) =~= pre.push(e@));
                    assert(calls_events(tcs.subrange(0, k + 1)) =~= calls_events(tcs.subrange(0, k as int)).push(e@));
                    assert forall|q: int| 0 <= q < k + 1 implies (#[trigger] call_event(tcs.subrange(0, k + 1)[q])) is Some by {
                        if q < k {
                            assert(tcs.subrange(0, k + 1)[q] == tcs.subrange(0, k as int)[q]);
                        }
                    }
                }
                k += 1;
            }
            proof {
                assert(tcs.subrange(0, k as int) =~= tcs);
                assert(cs.subrange(0, i + 1).drop_last() =~= cs.subrange(0, i as int));
                assert(events_view(events@) =~= head + choices_events(cs.subrange(0, i + 1)));
                assert forall|q: int| 0 <= q < i + 1 implies calls_ok(array_at(at_or_null(#[trigger] cs.subrange(0, i + 1)[q], "message"@), "tool_calls"@)) by {
                    if q < i {
                        assert(cs.subrange(0, i + 1)[q] == cs.subrange(0, i as int)[q]);
                    }
                }
            }
            i += 1;
        }
        proof {
            assert(cs.subrange(0, i as int) =~= cs);
        }
        let ghost body = events_view(events@);
        match usage_event(value) {
            Ok(Some(u)) => events.push(u),
            _ => {},
        }
        let response_id = match value.get_str("id") {
            Some(id) => Some(owned(id)),
            None => None,
        };
        events.push(LlmStreamEvent::Completed { response_id });
        proof {
            assert(events_view(events@) =~= ds_response_events(value.view()));
        }
        Ok(events)
    }
}

} // verus!
