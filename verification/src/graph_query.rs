//! Message queries of the package runtime: the JSON form of a message, the values found at
//! a field path, filters over them, and the selected fields with their content hash.

use vstd::prelude::*;
use crate::error::{AgentCoreError, AgentCoreResult};
use crate::json::{
    array_view, dup_fields, empty_object, fields_get, fields_lookup, hash_text, json_eq, json_text, keys_sorted,
    lemma_view_parts, object_view, text_hash, to_text, Json, JsonNumber, JsonV, NumV,
};
use crate::message::{BlockV, ContentBlock, DiagnosticLevel, MessageRole, MessageStatus, MessageUsage, MessageV, RunMessage};
use crate::text::{chars_of, owned, str_eq, string_of};

verus! {

/// A dotted path into a message, such as `metadata.kind` or `content[*].type`.
#[derive(Debug, Clone, PartialEq, Eq)]
pub struct FieldPath(pub String);

/// A test on the values found at a path.
#[derive(Debug, Clone, PartialEq)]
pub enum FieldOp {
    Exists,
    Eq(Json),
    In(Vec<Json>),
}

pub enum OpV {
    Exists,
    Eq(JsonV),
    In(Seq<JsonV>),
}

impl FieldOp {
    pub open spec fn view(&self) -> OpV {
        match self {
            FieldOp::Exists => OpV::Exists,
            FieldOp::Eq(j) => OpV::Eq(j.view()),
            FieldOp::In(v) => OpV::In(array_view(v@)),
        }
    }
}

#[derive(Debug, Clone, PartialEq)]
pub struct FieldFilter {
    pub path: FieldPath,
    pub op: FieldOp,
}

/// The paths to select; empty selects the whole message.
#[derive(Debug, Clone, PartialEq, Eq)]
pub struct FieldMask {
    pub paths: Vec<FieldPath>,
}

pub open spec fn paths_view(v: Seq<FieldPath>) -> Seq<Seq<char>> {
    Seq::new(v.len(), |i: int| v[i].0@)
}

pub open spec fn filters_view(v: Seq<FieldFilter>) -> Seq<(Seq<char>, OpV)> {
    Seq::new(v.len(), |i: int| (v[i].path.0@, v[i].op.view()))
}

impl FieldMask {
    pub fn all() -> (r: FieldMask)
        ensures
            r.paths@.len() == 0,
    {
        FieldMask { paths: Vec::new() }
    }

    pub fn including(paths: Vec<String>) -> (r: FieldMask)
        ensures
            paths_view(r.paths@) == Seq::new(paths@.len(), |i: int| paths@[i]@),
    {
        let mut chosen: Vec<FieldPath> = Vec::new();
        let mut i: usize = 0;
        while i < paths.len()
            invariant
                i <= paths.len(),
                chosen.len() == i,
                forall|k: int| 0 <= k < i ==> (#[trigger] chosen@[k]).0@ == paths@[k]@,
            decreases paths.len() - i,
        {
            chosen.push(FieldPath(paths[i].clone()));
            i += 1;
        }
        assert(paths_view(chosen@) =~= Seq::new(paths@.len(), |i: int| paths@[i]@));
        mask_of(chosen)
    }
}

fn mask_of(chosen: Vec<FieldPath>) -> (r: FieldMask)
    ensures
        r.paths@ == chosen@,
{
    FieldMask { paths: chosen }
}

/// Filters that must all hold, and the fields to select from a matching message.
#[derive(Debug, Clone, PartialEq)]
pub struct MessageQuery {
    pub filters: Vec<FieldFilter>,
    pub select: FieldMask,
}

/// The fields selected from a message, with the hash of their JSON text.
#[derive(Debug, Clone, PartialEq)]
pub struct SelectedFields {
    pub value: Json,
    pub hash: u64,
}

pub open spec fn role_text(role: MessageRole) -> Seq<char> {
    match role {
        MessageRole::User => "user"@,
        MessageRole::Assistant => "assistant"@,
        MessageRole::Tool => "tool"@,
        MessageRole::Diagnostic => "diagnostic"@,
    }
}

pub open spec fn status_text(status: MessageStatus) -> Seq<char> {
    match status {
        MessageStatus::Streaming => "streaming"@,
        MessageStatus::Finalized => "finalized"@,
        MessageStatus::Aborted => "aborted"@,
    }
}

pub open spec fn level_text(level: DiagnosticLevel) -> Seq<char> {
    match level {
        DiagnosticLevel::Debug => "debug"@,
        DiagnosticLevel::Info => "info"@,
        DiagnosticLevel::Warning => "warning"@,
        DiagnosticLevel::Error => "error"@,
    }
}

pub fn role_name(role: MessageRole) -> (r: &'static str)
    ensures
        r@ == role_text(role),
{
    match role {
        MessageRole::User => "user",
        MessageRole::Assistant => "assistant",
        MessageRole::Tool => "tool",
        MessageRole::Diagnostic => "diagnostic",
    }
}

pub fn status_name(status: MessageStatus) -> (r: &'static str)
    ensures
        r@ == status_text(status),
{
    match status {
        MessageStatus::Streaming => "streaming",
        MessageStatus::Finalized => "finalized",
        MessageStatus::Aborted => "aborted",
    }
}

fn level_name(level: DiagnosticLevel) -> (r: &'static str)
    ensures
        r@ == level_text(level),
{
    match level {
        DiagnosticLevel::Debug => "debug",
        DiagnosticLevel::Info => "info",
        DiagnosticLevel::Warning => "warning",
        DiagnosticLevel::Error => "error",
    }
}

/// The `k`-th of the 32 hexadecimal digits of `id`, the most significant first.
pub open spec fn id_nibble(id: u128, k: int) -> int {
    (id as int / vstd::arithmetic::power::pow(16, (31 - k) as nat)) % 16
}

/// A hexadecimal digit in lower case.
pub open spec fn lower_hex_digit(d: int) -> char {
    if d < 10 {
        (d + '0' as int) as char
    } else {
        (d - 10 + 'a' as int) as char
    }
}

/// How many hyphens come before position `i` of a hyphenated id.
pub open spec fn hyphens_before(i: int) -> int {
    if i < 8 {
        0
    } else if i < 13 {
        1
    } else if i < 18 {
        2
    } else if i < 23 {
        3
    } else {
        4
    }
}

/// The hyphenated lower-case text of an id (`uuid::Uuid`'s `Display`): its 32 hexadecimal
/// digits, most significant first, in groups of 8, 4, 4, 4 and 12 joined by hyphens.
pub open spec fn uuid_string(id: u128) -> Seq<char> {
    Seq::new(36, |i: int|
        if i == 8 || i == 13 || i == 18 || i == 23 {
            '-'
        } else {
            lower_hex_digit(id_nibble(id, i - hyphens_before(i)))
        })
}

/// `uuid::Uuid::from_u128(id).to_string()`: `from_u128` takes the id's bytes big-endian and
/// `Display` writes them as lower-case hexadecimal in the hyphenated 8-4-4-4-12 form; the
/// contract states that text.
#[verifier::external_body]
pub(crate) fn uuid_text(id: u128) -> (r: String)
    ensures
        r@ == uuid_string(id),
{
    uuid::Uuid::from_u128(id).to_string()
}

pub open spec fn jstr(s: Seq<char>) -> JsonV {
    JsonV::Str(s)
}

pub open spec fn opt_str_json(o: Option<Seq<char>>) -> JsonV {
    match o {
        Some(s) => JsonV::Str(s),
        None => JsonV::Null,
    }
}

pub open spec fn block_type(b: BlockV) -> Seq<char> {
    match b {
        BlockV::Text(_) => "text"@,
        BlockV::Reasoning(_) => "reasoning"@,
        BlockV::ToolCall { .. } => "tool_call"@,
        BlockV::ToolResult { .. } => "tool_result"@,
        BlockV::FileReference { .. } => "file_reference"@,
        BlockV::ImageReference { .. } => "image_reference"@,
        BlockV::AudioReference { .. } => "audio_reference"@,
        BlockV::Diagnostic { .. } => "diagnostic"@,
        BlockV::Custom { .. } => "custom"@,
    }
}

/// The JSON form of a content block: an object tagged by `type`, its fields beside.
pub open spec fn block_json(b: BlockV) -> JsonV {
    let o = empty_object().with("type"@, jstr(block_type(b)));
    match b {
        BlockV::Text(t) => o.with("text"@, jstr(t)),
        BlockV::Reasoning(t) => o.with("text"@, jstr(t)),
        BlockV::ToolCall { call_id, tool_name, arguments } => o.with("call_id"@, jstr(call_id)).with(
            "tool_name"@,
            jstr(tool_name),
        ).with("arguments"@, arguments),
        BlockV::ToolResult { call_id, tool_name, output, is_error } => o.with("call_id"@, jstr(call_id)).with(
            "tool_name"@,
            opt_str_json(tool_name),
        ).with("output"@, output).with("is_error"@, JsonV::Bool(is_error)),
        BlockV::FileReference { uri, mime_type, name } => o.with("uri"@, jstr(uri)).with(
            "mime_type"@,
            opt_str_json(mime_type),
        ).with("name"@, opt_str_json(name)),
        BlockV::ImageReference { uri, mime_type, alt_text } => o.with("uri"@, jstr(uri)).with(
            "mime_type"@,
            opt_str_json(mime_type),
        ).with("alt_text"@, opt_str_json(alt_text)),
        BlockV::AudioReference { uri, mime_type } => o.with("uri"@, jstr(uri)).with("mime_type"@, opt_str_json(mime_type)),
        BlockV::Diagnostic { level, message } => o.with("level"@, jstr(level_text(level))).with("message"@, jstr(message)),
        BlockV::Custom { value } => o.with("value"@, value),
    }
}

pub open spec fn usage_json(u: MessageUsage) -> JsonV {
    empty_object().with("input_tokens"@, JsonV::Number(NumV::PosInt(u.input_tokens))).with(
        "output_tokens"@,
        JsonV::Number(NumV::PosInt(u.output_tokens)),
    ).with("total_tokens"@, JsonV::Number(NumV::PosInt(u.total_tokens)))
}

pub open spec fn blocks_json(content: Seq<BlockV>) -> Seq<JsonV> {
    Seq::new(content.len(), |i: int| block_json(content[i]))
}

/// The JSON form of a message: its fields by name, optional ones only when present and the
/// metadata only when not empty.
pub open spec fn message_json(m: MessageV) -> JsonV {
    let base = empty_object().with("id"@, jstr(uuid_string(m.id))).with("role"@, jstr(role_text(m.role))).with(
        "content"@,
        JsonV::Array(blocks_json(m.content)),
    ).with("status"@, jstr(status_text(m.status)));
    let a = match m.source_node_id {
        Some(s) => base.with("source_node_id"@, jstr(s)),
        None => base,
    };
    let b = match m.provider_response_id {
        Some(s) => a.with("provider_response_id"@, jstr(s)),
        None => a,
    };
    let c = match m.usage {
        Some(u) => b.with("usage"@, usage_json(u)),
        None => b,
    };
    let d = if m.metadata.len() > 0 {
        c.with("metadata"@, JsonV::Object(m.metadata))
    } else {
        c
    };
    d.with("created_at_ms"@, JsonV::Number(NumV::PosInt(m.created_at_ms)))
}

fn opt_json(o: &Option<String>) -> (r: Json)
    ensures
        r.view() == opt_str_json(crate::message::opt_view(*o)),
{
    match o {
        Some(s) => Json::Str(s.clone()),
        None => Json::Null,
    }
}

fn tagged(kind: &str) -> (r: Json)
    ensures
        r.view() == empty_object().with("type"@, jstr(kind@)),
        r.view() matches JsonV::Object(f) && keys_sorted(f),
{
    let mut o = Json::new_object();
    o.set("type", Json::str_of(kind));
    o
}

pub fn block_to_json(b: &ContentBlock) -> (r: Json)
    ensures
        r.view() == block_json(b.view()),
{
    match b {
        ContentBlock::Text { text } => {
            let mut o = tagged("text");
            o.set("text", Json::str_of(text.as_str()));
            o
        },
        ContentBlock::Reasoning { text } => {
            let mut o = tagged("reasoning");
            o.set("text", Json::str_of(text.as_str()));
            o
        },
        ContentBlock::ToolCall { call_id, tool_name, arguments } => {
            let mut o = tagged("tool_call");
            o.set("call_id", Json::str_of(call_id.as_str()));
            o.set("tool_name", Json::str_of(tool_name.as_str()));
            o.set("arguments", arguments.dup());
            o
        },
        ContentBlock::ToolResult { call_id, tool_name, output, is_error } => {
            let mut o = tagged("tool_result");
            o.set("call_id", Json::str_of(call_id.as_str()));
            o.set("tool_name", opt_json(tool_name));
            o.set("output", output.dup());
            o.set("is_error", Json::Bool(*is_error));
            o
        },
        ContentBlock::FileReference { uri, mime_type, name } => {
            let mut o = tagged("file_reference");
            o.set("uri", Json::str_of(uri.as_str()));
            o.set("mime_type", opt_json(mime_type));
            o.set("name", opt_json(name));
            o
        },
        ContentBlock::ImageReference { uri, mime_type, alt_text } => {
            let mut o = tagged("image_reference");
            o.set("uri", Json::str_of(uri.as_str()));
            o.set("mime_type", opt_json(mime_type));
            o.set("alt_text", opt_json(alt_text));
            o
        },
        ContentBlock::AudioReference { uri, mime_type } => {
            let mut o = tagged("audio_reference");
            o.set("uri", Json::str_of(uri.as_str()));
            o.set("mime_type", opt_json(mime_type));
            o
        },
        ContentBlock::Diagnostic { level, message } => {
            let mut o = tagged("diagnostic");
            o.set("level", Json::str_of(level_name(*level)));
            o.set("message", Json::str_of(message.as_str()));
            o
        },
        ContentBlock::Custom { value } => {
            let mut o = tagged("custom");
            o.set("value", value.dup());
            o
        },
    }
}

fn blocks_to_json(content: &Vec<ContentBlock>) -> (r: Vec<Json>)
    ensures
        array_view(r@) == blocks_json(crate::message::blocks_view(content@)),
{
    let mut out: Vec<Json> = Vec::new();
    let mut i: usize = 0;
    while i < content.len()
        invariant
            i <= content.len(),
            out.len() == i,
            forall|k: int| 0 <= k < i ==> (#[trigger] out@[k]).view() == block_json(content@[k].view()),
        decreases content.len() - i,
    {
        out.push(block_to_json(&content[i]));
        i += 1;
    }
    assert(array_view(out@) =~= blocks_json(crate::message::blocks_view(content@)));
    out
}

fn number(n: u64) -> (r: Json)
    ensures
        r.view() == JsonV::Number(NumV::PosInt(n)),
{
    Json::Number(JsonNumber::PosInt(n))
}

/// The JSON form of a message (as serde writes a `RunMessage`).
pub fn message_to_json(m: &RunMessage) -> (r: Json)
    ensures
        r.view() == message_json(m.view()),
{
    let mut o = Json::new_object();
    o.set("id", Json::Str(uuid_text(m.id)));
    o.set("role", Json::str_of(role_name(m.role)));
    let blocks = blocks_to_json(&m.content);
    let arr = Json::Array(blocks);
    proof {
        lemma_view_parts(arr);
    }
    o.set("content", arr);
    o.set("status", Json::str_of(status_name(m.status)));
    match &m.source_node_id {
        Some(s) => o.set("source_node_id", Json::str_of(s.as_str())),
        None => {},
    }
    match &m.provider_response_id {
        Some(s) => o.set("provider_response_id", Json::str_of(s.as_str())),
        None => {},
    }
    match &m.usage {
        Some(u) => {
            let mut uo = Json::new_object();
            uo.set("input_tokens", number(u.input_tokens));
            uo.set("output_tokens", number(u.output_tokens));
            uo.set("total_tokens", number(u.total_tokens));
            o.set("usage", uo);
        },
        None => {},
    }
    if m.metadata.len() > 0 {
        let md = Json::Object(dup_fields(&m.metadata));
        proof {
            lemma_view_parts(md);
        }
        o.set("metadata", md);
    }
    o.set("created_at_ms", number(m.created_at_ms));
    o
}

/// `s` without `prefix`, when it starts with it (`str::strip_prefix`).
pub fn strip_prefix(s: &str, prefix: &str) -> (r: Option<String>)
    ensures
        match r {
            Some(rest) => s@.len() >= prefix@.len() && s@.subrange(0, prefix@.len() as int) == prefix@ && rest@ == s@.subrange(
                prefix@.len() as int,
                s@.len() as int,
            ),
            None => !(s@.len() >= prefix@.len() && s@.subrange(0, prefix@.len() as int) == prefix@),
        },
{
    let sc = chars_of(s);
    let pc = chars_of(prefix);
    if pc.len() > sc.len() {
        return None;
    }
    let mut i: usize = 0;
    while i < pc.len()
        invariant
            i <= pc.len() <= sc.len(),
            sc@ == s@,
            pc@ == prefix@,
            forall|k: int| 0 <= k < i ==> sc@[k] == pc@[k],
        decreases pc.len() - i,
    {
        if sc[i] != pc[i] {
            assert(s@.subrange(0, prefix@.len() as int)[i as int] != prefix@[i as int]);
            return None;
        }
        i += 1;
    }
    assert(s@.subrange(0, prefix@.len() as int) =~= prefix@);
    let rest = slice_chars(&sc, pc.len());
    Some(rest)
}

fn slice_chars(cs: &Vec<char>, from: usize) -> (r: String)
    requires
        from <= cs.len(),
    ensures
        r@ == cs@.subrange(from as int, cs@.len() as int),
{
    let mut out: Vec<char> = Vec::new();
    let mut i: usize = from;
    while i < cs.len()
        invariant
            from <= i <= cs.len(),
            out@ == cs@.subrange(from as int, i as int),
        decreases cs.len() - i,
    {
        out.push(cs[i]);
        i += 1;
        assert(out@ =~= cs@.subrange(from as int, i as int));
    }
    string_of(out.as_slice())
}

/// The values a content-block field holds (empty when the block has no such field).
pub open spec fn block_field_values(b: BlockV, field: Seq<char>) -> Seq<JsonV> {
    if field == "type"@ {
        seq![jstr(block_type(b))]
    } else if field == "text"@ {
        match b {
            BlockV::Text(t) => seq![jstr(t)],
            BlockV::Reasoning(t) => seq![jstr(t)],
            _ => Seq::empty(),
        }
    } else if field == "call_id"@ {
        match b {
            BlockV::ToolCall { call_id, .. } => seq![jstr(call_id)],
            BlockV::ToolResult { call_id, .. } => seq![jstr(call_id)],
            _ => Seq::empty(),
        }
    } else if field == "tool_name"@ {
        match b {
            BlockV::ToolCall { tool_name, .. } => seq![jstr(tool_name)],
            BlockV::ToolResult { tool_name: Some(n), .. } => seq![jstr(n)],
            _ => Seq::empty(),
        }
    } else if field == "arguments"@ {
        match b {
            BlockV::ToolCall { arguments, .. } => seq![arguments],
            _ => Seq::empty(),
        }
    } else if field == "output"@ {
        match b {
            BlockV::ToolResult { output, .. } => seq![output],
            _ => Seq::empty(),
        }
    } else if field == "is_error"@ {
        match b {
            BlockV::ToolResult { is_error, .. } => seq![JsonV::Bool(is_error)],
            _ => Seq::empty(),
        }
    } else if field == "value"@ {
        match b {
            BlockV::Custom { value } => seq![value],
            _ => Seq::empty(),
        }
    } else {
        Seq::empty()
    }
}

/// The field's values over all blocks, in block order.
pub open spec fn content_field_values(content: Seq<BlockV>, field: Seq<char>) -> Seq<JsonV>
    decreases content.len(),
{
    if content.len() == 0 {
        Seq::empty()
    } else {
        content_field_values(content.drop_last(), field) + block_field_values(content.last(), field)
    }
}

pub open spec fn starts_with(s: Seq<char>, p: Seq<char>) -> bool {
    s.len() >= p.len() && s.subrange(0, p.len() as int) == p
}

pub open spec fn after(s: Seq<char>, p: Seq<char>) -> Seq<char> {
    s.subrange(p.len() as int, s.len() as int)
}

/// The values at a path of a message; `None` when the path is not supported.
pub open spec fn path_values(m: MessageV, path: Seq<char>) -> Option<Seq<JsonV>> {
    if path == "id"@ {
        Some(seq![jstr(uuid_string(m.id))])
    } else if path == "role"@ {
        Some(seq![jstr(role_text(m.role))])
    } else if path == "status"@ {
        Some(seq![jstr(status_text(m.status))])
    } else if path == "source_node_id"@ {
        Some(
            match m.source_node_id {
                Some(s) => seq![jstr(s)],
                None => Seq::empty(),
            },
        )
    } else if starts_with(path, "metadata."@) {
        Some(
            match fields_get(m.metadata, after(path, "metadata."@)) {
                Some(v) => seq![v],
                None => Seq::empty(),
            },
        )
    } else if path == "content[*]"@ {
        Some(blocks_json(m.content))
    } else if starts_with(path, "content[*]."@) {
        Some(content_field_values(m.content, after(path, "content[*]."@)))
    } else {
        None
    }
}

pub open spec fn unsupported_path_text(path: Seq<char>) -> Seq<char> {
    "unsupported message field path: "@ + path
}

fn one(v: Json) -> (r: Vec<Json>)
    ensures
        array_view(r@) == seq![v.view()],
{
    let mut out: Vec<Json> = Vec::new();
    out.push(v);
    assert(array_view(out@) =~= seq![out@[0].view()]);
    out
}

fn block_values(b: &ContentBlock, field: &str) -> (r: Vec<Json>)
    ensures
        array_view(r@) == block_field_values(b.view(), field@),
{
    let empty: Vec<Json> = Vec::new();
    proof {
        assert(array_view(empty@) =~= Seq::<JsonV>::empty());
    }
    if str_eq(field, "type") {
        let t = match b {
            ContentBlock::Text { .. } => "text",
            ContentBlock::Reasoning { .. } => "reasoning",
            ContentBlock::ToolCall { .. } => "tool_call",
            ContentBlock::ToolResult { .. } => "tool_result",
            ContentBlock::FileReference { .. } => "file_reference",
            ContentBlock::ImageReference { .. } => "image_reference",
            ContentBlock::AudioReference { .. } => "audio_reference",
            ContentBlock::Diagnostic { .. } => "diagnostic",
            ContentBlock::Custom { .. } => "custom",
        };
        return one(Json::str_of(t));
    }
    if str_eq(field, "text") {
        return match b {
            ContentBlock::Text { text } => one(Json::str_of(text.as_str())),
            ContentBlock::Reasoning { text } => one(Json::str_of(text.as_str())),
            _ => empty,
        };
    }
    if str_eq(field, "call_id") {
        return match b {
            ContentBlock::ToolCall { call_id, .. } => one(Json::str_of(call_id.as_str())),
            ContentBlock::ToolResult { call_id, .. } => one(Json::str_of(call_id.as_str())),
            _ => empty,
        };
    }
    if str_eq(field, "tool_name") {
        return match b {
            ContentBlock::ToolCall { tool_name, .. } => one(Json::str_of(tool_name.as_str())),
            ContentBlock::ToolResult { tool_name: Some(n), .. } => one(Json::str_of(n.as_str())),
            _ => empty,
        };
    }
    if str_eq(field, "arguments") {
        return match b {
            ContentBlock::ToolCall { arguments, .. } => one(arguments.dup()),
            _ => empty,
        };
    }
    if str_eq(field, "output") {
        return match b {
            ContentBlock::ToolResult { output, .. } => one(output.dup()),
            _ => empty,
        };
    }
    if str_eq(field, "is_error") {
        return match b {
            ContentBlock::ToolResult { is_error, .. } => one(Json::Bool(*is_error)),
            _ => empty,
        };
    }
    if str_eq(field, "value") {
        return match b {
            ContentBlock::Custom { value } => one(value.dup()),
            _ => empty,
        };
    }
    empty
}

/// The values at `path` of the message; an unsupported path is refused.
pub fn values_at_path(m: &RunMessage, path: &str) -> (r: AgentCoreResult<Vec<Json>>)
    ensures
        match path_values(m.view(), path@) {
            Some(vals) => r matches Ok(v) && array_view(v@) == vals,
            None => r matches Err(AgentCoreError::InvalidInput(t)) && t@ == unsupported_path_text(path@),
        },
{
    let empty: Vec<Json> = Vec::new();
    proof {
        assert(array_view(empty@) =~= Seq::<JsonV>::empty());
    }
    if str_eq(path, "id") {
        return Ok(one(Json::Str(uuid_text(m.id))));
    }
    if str_eq(path, "role") {
        return Ok(one(Json::str_of(role_name(m.role))));
    }
    if str_eq(path, "status") {
        return Ok(one(Json::str_of(status_name(m.status))));
    }
    if str_eq(path, "source_node_id") {
        return Ok(
            match &m.source_node_id {
                Some(s) => one(Json::str_of(s.as_str())),
                None => empty,
            },
        );
    }
    if let Some(key) = strip_prefix(path, "metadata.") {
        return Ok(
            match fields_lookup(&m.metadata, key.as_str()) {
                Some(v) => one(v.dup()),
                None => empty,
            },
        );
    }
    if str_eq(path, "content[*]") {
        let v = blocks_to_json(&m.content);
        return Ok(v);
    }
    if let Some(field) = strip_prefix(path, "content[*].") {
        let ghost content = crate::message::blocks_view(m.content@);
        let mut out: Vec<Json> = Vec::new();
        let mut i: usize = 0;
        while i < m.content.len()
            invariant
                i <= m.content.len(),
                content == crate::message::blocks_view(m.content@),
                array_view(out@) == content_field_values(content.subrange(0, i as int), field@),
            decreases m.content.len() - i,
        {
            let mut more = block_values(&m.content[i], field.as_str());
            let ghost before = array_view(out@);
            let ghost added = array_view(more@);
            out.append(&mut more);
            proof {
                assert(content.subrange(0, i + 1).drop_last() =~= content.subrange(0, i as int));
                assert(content.subrange(0, i + 1).last() == m.content@[i as int].view());
                assert(array_view(out@) =~= before + added);
            }
            i += 1;
        }
        proof {
            assert(content.subrange(0, i as int) =~= content);
        }
        return Ok(out);
    }
    let mut t = owned("unsupported message field path: ");
    t.append(path);
    Err(AgentCoreError::InvalidInput(t))
}

/// Whether the values pass the test.
pub open spec fn filter_holds(values: Seq<JsonV>, op: OpV) -> bool {
    match op {
        OpV::Exists => values.len() > 0 && exists|i: int| 0 <= i < values.len() && !(values[i] is Null),
        OpV::Eq(expected) => exists|i: int| 0 <= i < values.len() && values[i] == expected,
        OpV::In(candidates) => exists|i: int| 0 <= i < values.len() && candidates.contains(#[trigger] values[i]),
    }
}

pub fn filter_matches(values: &Vec<Json>, op: &FieldOp) -> (r: bool)
    ensures
        r == filter_holds(array_view(values@), op.view()),
{
    let ghost vals = array_view(values@);
    let mut i: usize = 0;
    while i < values.len()
        invariant
            i <= values.len(),
            vals == array_view(values@),
            forall|k: int| 0 <= k < i ==> match op.view() {
                OpV::Exists => vals[k] is Null,
                OpV::Eq(e) => vals[k] != e,
                OpV::In(c) => !c.contains(#[trigger] vals[k]),
            },
        decreases values.len() - i,
    {
        assert(vals[i as int] == values@[i as int].view());
        match op {
            FieldOp::Exists => {
                if !values[i].is_null() {
                    assert(!(vals[i as int] is Null));
                    return true;
                }
            },
            FieldOp::Eq(e) => {
                if json_eq(&values[i], e) {
                    assert(vals[i as int] == e.view());
                    return true;
                }
            },
            FieldOp::In(c) => {
                let mut j: usize = 0;
                while j < c.len()
                    invariant
                        j <= c.len(),
                        i < values.len(),
                        vals == array_view(values@),
                        op.view() == OpV::In(array_view(c@)),
                        forall|k: int| 0 <= k < i ==> match op.view() {
                            OpV::Exists => vals[k] is Null,
                            OpV::Eq(e) => vals[k] != e,
                            OpV::In(c) => !c.contains(#[trigger] vals[k]),
                        },
                        forall|q: int| 0 <= q < j ==> array_view(c@)[q] != vals[i as int],
                    decreases c.len() - j,
                {
                    if json_eq(&c[j], &values[i]) {
                        assert(array_view(c@)[j as int] == vals[i as int]);
                        assert(array_view(c@).contains(vals[i as int]));
                        return true;
                    }
                    j += 1;
                }
            },
        }
        i += 1;
    }
    false
}

/// `Null` for no value, the value itself for one, an array for several.
pub open spec fn values_to_json(vals: Seq<JsonV>) -> JsonV {
    if vals.len() == 0 {
        JsonV::Null
    } else if vals.len() == 1 {
        vals[0]
    } else {
        JsonV::Array(vals)
    }
}

/// The first path that is not supported.
pub open spec fn first_bad_path(m: MessageV, paths: Seq<Seq<char>>) -> Option<Seq<char>>
    decreases paths.len(),
{
    if paths.len() == 0 {
        None
    } else if path_values(m, paths[0]) is None {
        Some(paths[0])
    } else {
        first_bad_path(m, paths.drop_first())
    }
}

/// The object of the selected paths, set in order.
pub open spec fn select_object(m: MessageV, paths: Seq<Seq<char>>) -> JsonV
    decreases paths.len(),
{
    if paths.len() == 0 {
        empty_object()
    } else {
        select_object(m, paths.drop_last()).with(paths.last(), values_to_json(path_values(m, paths.last())->0))
    }
}

/// The selected value for a mask: the whole message for an empty mask.
pub open spec fn selected_value(m: MessageV, paths: Seq<Seq<char>>) -> JsonV {
    if paths.len() == 0 {
        message_json(m)
    } else {
        select_object(m, paths)
    }
}

fn values_into_json(vals: Vec<Json>) -> (r: Json)
    ensures
        r.view() == values_to_json(array_view(vals@)),
{
    if vals.len() == 0 {
        Json::Null
    } else if vals.len() == 1 {
        let mut vals = vals;
        let ghost before = vals@;
        let v = vals.pop().unwrap();
        assert(v == before[0]);
        assert(array_view(before)[0] == v.view());
        v
    } else {
        let r = Json::Array(vals);
        proof {
            lemma_view_parts(r);
        }
        r
    }
}

/// Selects the mask's fields from a message, with the hash of their JSON text.
pub fn select_fields(m: &RunMessage, mask: &FieldMask) -> (r: AgentCoreResult<SelectedFields>)
    ensures
        match first_bad_path(m.view(), paths_view(mask.paths@)) {
            Some(p) => r matches Err(AgentCoreError::InvalidInput(t)) && t@ == unsupported_path_text(p),
            None => r matches Ok(s) && s.value.view() == selected_value(m.view(), paths_view(mask.paths@))
                && s.hash == text_hash(json_text(s.value.view())),
        },
{
    let ghost paths = paths_view(mask.paths@);
    let value = if mask.paths.len() == 0 {
        message_to_json(m)
    } else {
        let mut object = Json::new_object();
        let mut i: usize = 0;
        proof {
            assert(paths.subrange(0, 0) =~= Seq::<Seq<char>>::empty());
            assert(paths.subrange(0, paths.len() as int) =~= paths);
        }
        while i < mask.paths.len()
            invariant
                i <= mask.paths.len(),
                paths == paths_view(mask.paths@),
                object.view() == select_object(m.view(), paths.subrange(0, i as int)),
                object.view() matches JsonV::Object(f) && keys_sorted(f),
                first_bad_path(m.view(), paths) == first_bad_path(m.view(), paths.subrange(i as int, paths.len() as int)),
            decreases mask.paths.len() - i,
        {
            let ghost sub = paths.subrange(i as int, paths.len() as int);
            assert(sub[0] == paths[i as int]);
            let path = &mask.paths[i].0;
            let vals = match values_at_path(m, path.as_str()) {
                Ok(v) => v,
                Err(e) => {
                    return Err(e);
                },
            };
            object.set(path.as_str(), values_into_json(vals));
            proof {
                assert(paths.subrange(0, i + 1).drop_last() =~= paths.subrange(0, i as int));
                assert(sub.drop_first() =~= paths.subrange(i + 1, paths.len() as int));
            }
            i += 1;
        }
        proof {
            assert(paths.subrange(0, i as int) =~= paths);
            assert(paths.subrange(i as int, paths.len() as int).len() == 0);
        }
        object
    };
    let text = to_text(&value);
    let hash = hash_text(text.as_str());
    Ok(SelectedFields { value, hash })
}

/// How a message fares against a list of filters, in order.
pub enum FiltersOutcome {
    Pass,
    Fail,
    BadPath(Seq<char>),
}

pub open spec fn filters_outcome(m: MessageV, filters: Seq<(Seq<char>, OpV)>) -> FiltersOutcome
    decreases filters.len(),
{
    if filters.len() == 0 {
        FiltersOutcome::Pass
    } else {
        match path_values(m, filters[0].0) {
            None => FiltersOutcome::BadPath(filters[0].0),
            Some(vals) => if !filter_holds(vals, filters[0].1) {
                FiltersOutcome::Fail
            } else {
                filters_outcome(m, filters.drop_first())
            },
        }
    }
}

impl MessageQuery {
    /// Matches every message and selects all of it.
    pub fn any() -> (r: MessageQuery)
        ensures
            r.filters@.len() == 0,
            r.select.paths@.len() == 0,
    {
        MessageQuery { filters: Vec::new(), select: FieldMask::all() }
    }

    /// Matches messages with a non-null value at `path`.
    pub fn where_exists(path: &str) -> (r: MessageQuery)
        ensures
            filters_view(r.filters@) == seq![(path@, OpV::Exists)],
            r.select.paths@.len() == 0,
    {
        MessageQuery::any().filter(path, FieldOp::Exists)
    }

    /// Matches messages with a value at `path` equal to `value`.
    pub fn where_eq(path: &str, value: Json) -> (r: MessageQuery)
        ensures
            filters_view(r.filters@) == seq![(path@, OpV::Eq(value.view()))],
            r.select.paths@.len() == 0,
    {
        MessageQuery::any().filter(path, FieldOp::Eq(value))
    }

    pub fn filter(self, path: &str, op: FieldOp) -> (r: MessageQuery)
        ensures
            filters_view(r.filters@) == filters_view(self.filters@).push((path@, op.view())),
            r.select == self.select,
    {
        let mut q = self;
        let ghost before = filters_view(q.filters@);
        let ghost ov = op.view();
        q.filters.push(FieldFilter { path: FieldPath(owned(path)), op });
        assert(filters_view(q.filters@) =~= before.push((path@, ov)));
        q
    }

    pub fn select(self, paths: Vec<String>) -> (r: MessageQuery)
        ensures
            filters_view(r.filters@) == filters_view(self.filters@),
            paths_view(r.select.paths@) == Seq::new(paths@.len(), |i: int| paths@[i]@),
    {
        let mut q = self;
        q.select = FieldMask::including(paths);
        q
    }

    /// Runs the filters in order; a message that passes them all has the query's fields
    /// selected. An unsupported path is refused.
    pub fn matches(&self, message: &RunMessage) -> (r: AgentCoreResult<Option<SelectedFields>>)
        ensures
            match filters_outcome(message.view(), filters_view(self.filters@)) {
                FiltersOutcome::BadPath(p) => r matches Err(AgentCoreError::InvalidInput(t)) && t@ == unsupported_path_text(p),
                FiltersOutcome::Fail => r matches Ok(None),
                FiltersOutcome::Pass => match first_bad_path(message.view(), paths_view(self.select.paths@)) {
                    Some(p) => r matches Err(AgentCoreError::InvalidInput(t)) && t@ == unsupported_path_text(p),
                    None => r matches Ok(Some(s)) && s.value.view() == selected_value(
                        message.view(),
                        paths_view(self.select.paths@),
                    ) && s.hash == text_hash(json_text(s.value.view())),
                },
            },
    {
        let ghost fs = filters_view(self.filters@);
        let mut i: usize = 0;
        proof {
            assert(fs.subrange(0, fs.len() as int) =~= fs);
        }
        while i < self.filters.len()
            invariant
                i <= self.filters.len(),
                fs == filters_view(self.filters@),
                filters_outcome(message.view(), fs) == filters_outcome(message.view(), fs.subrange(i as int, fs.len() as int)),
            decreases self.filters.len() - i,
        {
            let ghost sub = fs.subrange(i as int, fs.len() as int);
            assert(sub[0] == fs[i as int]);
            let f = &self.filters[i];
            let values = match values_at_path(message, f.path.0.as_str()) {
                Ok(v) => v,
                Err(e) => {
                    return Err(e);
                },
            };
            if !filter_matches(&values, &f.op) {
                return Ok(None);
            }
            assert(sub.drop_first() =~= fs.subrange(i + 1, fs.len() as int));
            i += 1;
        }
        proof {
            assert(fs.subrange(i as int, fs.len() as int).len() == 0);
        }
        match select_fields(message, &self.select) {
            Ok(s) => Ok(Some(s)),
            Err(e) => Err(e),
        }
    }
}

} // verus!
