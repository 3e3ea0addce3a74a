//! Messages exchanged in a run: content blocks, run messages, the streaming assistant
//! builder and user-input constructors.

use vstd::prelude::*;
use crate::error::{AgentCoreError, AgentCoreResult};
use crate::json::{fields_set, keys_sorted, object_view, fields_insert, Json, JsonV};
use crate::sys::{new_id, now_ms};
use crate::text::{dup_string, is_blank, owned, str_is_blank};

verus! {

#[derive(Debug, Clone, Copy, PartialEq, Eq, Structural)]
pub enum DiagnosticLevel {
    Debug,
    Info,
    Warning,
    Error,
}

/// One block of message content.
#[derive(Debug, PartialEq, Clone)]
#[allow(inconsistent_fields)]
pub enum ContentBlock {
    Text { text: String },
    Reasoning { text: String },
    ToolCall { call_id: String, tool_name: String, arguments: Json },
    ToolResult { call_id: String, tool_name: Option<String>, output: Json, is_error: bool },
    FileReference { uri: String, mime_type: Option<String>, name: Option<String> },
    ImageReference { uri: String, mime_type: Option<String>, alt_text: Option<String> },
    AudioReference { uri: String, mime_type: Option<String> },
    Diagnostic { level: DiagnosticLevel, message: String },
    Custom { value: Json },
}

/// The mathematical value of a [`ContentBlock`].
#[allow(inconsistent_fields)]
pub enum BlockV {
    Text(Seq<char>),
    Reasoning(Seq<char>),
    ToolCall { call_id: Seq<char>, tool_name: Seq<char>, arguments: JsonV },
    ToolResult { call_id: Seq<char>, tool_name: Option<Seq<char>>, output: JsonV, is_error: bool },
    FileReference { uri: Seq<char>, mime_type: Option<Seq<char>>, name: Option<Seq<char>> },
    ImageReference { uri: Seq<char>, mime_type: Option<Seq<char>>, alt_text: Option<Seq<char>> },
    AudioReference { uri: Seq<char>, mime_type: Option<Seq<char>> },
    Diagnostic { level: DiagnosticLevel, message: Seq<char> },
    Custom { value: JsonV },
}

pub open spec fn opt_view(o: Option<String>) -> Option<Seq<char>> {
    match o {
        Some(s) => Some(s@),
        None => None,
    }
}

pub fn dup_opt(o: &Option<String>) -> (r: Option<String>)
    ensures
        opt_view(r) == opt_view(*o),
{
    match o {
        Some(s) => Some(dup_string(s)),
        None => None,
    }
}

impl ContentBlock {
    pub open spec fn view(&self) -> BlockV {
        match self {
            ContentBlock::Text { text } => BlockV::Text(text@),
            ContentBlock::Reasoning { text } => BlockV::Reasoning(text@),
            ContentBlock::ToolCall { call_id, tool_name, arguments } => BlockV::ToolCall {
                call_id: call_id@,
                tool_name: tool_name@,
                arguments: arguments.view(),
            },
            ContentBlock::ToolResult { call_id, tool_name, output, is_error } => BlockV::ToolResult {
                call_id: call_id@,
                tool_name: opt_view(*tool_name),
                output: output.view(),
                is_error: *is_error,
            },
            ContentBlock::FileReference { uri, mime_type, name } => BlockV::FileReference {
                uri: uri@,
                mime_type: opt_view(*mime_type),
                name: opt_view(*name),
            },
            ContentBlock::ImageReference { uri, mime_type, alt_text } => BlockV::ImageReference {
                uri: uri@,
                mime_type: opt_view(*mime_type),
                alt_text: opt_view(*alt_text),
            },
            ContentBlock::AudioReference { uri, mime_type } => BlockV::AudioReference {
                uri: uri@,
                mime_type: opt_view(*mime_type),
            },
            ContentBlock::Diagnostic { level, message } => BlockV::Diagnostic {
                level: *level,
                message: message@,
            },
            ContentBlock::Custom { value } => BlockV::Custom { value: value.view() },
        }
    }

    pub fn text(text: &str) -> (r: ContentBlock)
        ensures
            r.view() == BlockV::Text(text@),
    {
        ContentBlock::Text { text: owned(text) }
    }

    pub fn reasoning(text: &str) -> (r: ContentBlock)
        ensures
            r.view() == BlockV::Reasoning(text@),
    {
        ContentBlock::Reasoning { text: owned(text) }
    }

    pub fn tool_call(call_id: &str, tool_name: &str, arguments: Json) -> (r: ContentBlock)
        ensures
            r.view() == (BlockV::ToolCall { call_id: call_id@, tool_name: tool_name@, arguments: arguments.view() }),
    {
        ContentBlock::ToolCall { call_id: owned(call_id), tool_name: owned(tool_name), arguments }
    }

    pub fn tool_result(call_id: &str, tool_name: Option<String>, output: Json, is_error: bool) -> (r: ContentBlock)
        ensures
            r.view() == (BlockV::ToolResult {
                call_id: call_id@,
                tool_name: opt_view(tool_name),
                output: output.view(),
                is_error,
            }),
    {
        ContentBlock::ToolResult { call_id: owned(call_id), tool_name, output, is_error }
    }

    pub fn file_reference(uri: &str, mime_type: Option<String>, name: Option<String>) -> (r: ContentBlock)
        ensures
            r.view() == (BlockV::FileReference { uri: uri@, mime_type: opt_view(mime_type), name: opt_view(name) }),
    {
        ContentBlock::FileReference { uri: owned(uri), mime_type, name }
    }

    pub fn image_reference(uri: &str, mime_type: Option<String>, alt_text: Option<String>) -> (r: ContentBlock)
        ensures
            r.view() == (BlockV::ImageReference {
                uri: uri@,
                mime_type: opt_view(mime_type),
                alt_text: opt_view(alt_text),
            }),
    {
        ContentBlock::ImageReference { uri: owned(uri), mime_type, alt_text }
    }

    pub fn audio_reference(uri: &str, mime_type: Option<String>) -> (r: ContentBlock)
        ensures
            r.view() == (BlockV::AudioReference { uri: uri@, mime_type: opt_view(mime_type) }),
    {
        ContentBlock::AudioReference { uri: owned(uri), mime_type }
    }

    pub fn diagnostic(level: DiagnosticLevel, message: &str) -> (r: ContentBlock)
        ensures
            r.view() == (BlockV::Diagnostic { level, message: message@ }),
    {
        ContentBlock::Diagnostic { level, message: owned(message) }
    }

    pub fn custom(value: Json) -> (r: ContentBlock)
        ensures
            r.view() == (BlockV::Custom { value: value.view() }),
    {
        ContentBlock::Custom { value }
    }

    /// Appends a delta to a text or reasoning block; other blocks are left alone.
    pub fn append_text(&mut self, delta: &str) -> (r: bool)
        ensures
            r == (old(self).view() is Text || old(self).view() is Reasoning),
            old(self).view() matches BlockV::Text(t) ==> final(self).view() == BlockV::Text(t + delta@),
            old(self).view() matches BlockV::Reasoning(t) ==> final(self).view() == BlockV::Reasoning(t + delta@),
            !r ==> final(self).view() == old(self).view(),
    {
        match self {
            ContentBlock::Text { text } => {
                text.append(delta);
                true
            },
            ContentBlock::Reasoning { text } => {
                text.append(delta);
                true
            },
            _ => false,
        }
    }

    pub fn is_empty_text_like(&self) -> (r: bool)
        ensures
            r == block_empty_text_like(self.view()),
    {
        match self {
            ContentBlock::Text { text } => text.as_str().is_empty(),
            ContentBlock::Reasoning { text } => text.as_str().is_empty(),
            ContentBlock::Diagnostic { message, .. } => message.as_str().is_empty(),
            _ => false,
        }
    }

    pub fn dup(&self) -> (r: ContentBlock)
        ensures
            r.view() == self.view(),
    {
        match self {
            ContentBlock::Text { text } => ContentBlock::Text { text: dup_string(text) },
            ContentBlock::Reasoning { text } => ContentBlock::Reasoning { text: dup_string(text) },
            ContentBlock::ToolCall { call_id, tool_name, arguments } => ContentBlock::ToolCall {
                call_id: dup_string(call_id),
                tool_name: dup_string(tool_name),
                arguments: arguments.dup(),
            },
            ContentBlock::ToolResult { call_id, tool_name, output, is_error } => ContentBlock::ToolResult {
                call_id: dup_string(call_id),
                tool_name: dup_opt(tool_name),
                output: output.dup(),
                is_error: *is_error,
            },
            ContentBlock::FileReference { uri, mime_type, name } => ContentBlock::FileReference {
                uri: dup_string(uri),
                mime_type: dup_opt(mime_type),
                name: dup_opt(name),
            },
            ContentBlock::ImageReference { uri, mime_type, alt_text } => ContentBlock::ImageReference {
                uri: dup_string(uri),
                mime_type: dup_opt(mime_type),
                alt_text: dup_opt(alt_text),
            },
            ContentBlock::AudioReference { uri, mime_type } => ContentBlock::AudioReference {
                uri: dup_string(uri),
                mime_type: dup_opt(mime_type),
            },
            ContentBlock::Diagnostic { level, message } => ContentBlock::Diagnostic {
                level: *level,
                message: dup_string(message),
            },
            ContentBlock::Custom { value } => ContentBlock::Custom { value: value.dup() },
        }
    }
}

pub open spec fn block_empty_text_like(b: BlockV) -> bool {
    match b {
        BlockV::Text(t) => t.len() == 0,
        BlockV::Reasoning(t) => t.len() == 0,
        BlockV::Diagnostic { message, .. } => message.len() == 0,
        _ => false,
    }
}

pub open spec fn blocks_view(v: Seq<ContentBlock>) -> Seq<BlockV> {
    Seq::new(v.len(), |i: int| v[i].view())
}

pub fn dup_blocks(v: &Vec<ContentBlock>) -> (r: Vec<ContentBlock>)
    ensures
        blocks_view(r@) == blocks_view(v@),
{
    let mut out: Vec<ContentBlock> = Vec::new();
    let mut i: usize = 0;
    while i < v.len()
        invariant
            i <= v.len(),
            out.len() == i,
            forall|k: int| 0 <= k < i ==> (#[trigger] out@[k]).view() == v@[k].view(),
        decreases v.len() - i,
    {
        out.push(v[i].dup());
        i += 1;
    }
    assert(blocks_view(out@) =~= blocks_view(v@));
    out
}

#[derive(Debug, Clone, Copy, PartialEq, Eq, Structural)]
pub enum MessageRole {
    User,
    Assistant,
    Tool,
    Diagnostic,
}

#[derive(Debug, Clone, Copy, PartialEq, Eq, Structural)]
pub enum MessageStatus {
    Streaming,
    Finalized,
    Aborted,
}

#[derive(Debug, Clone, Copy, PartialEq, Eq, Structural)]
pub struct MessageUsage {
    pub input_tokens: u64,
    pub output_tokens: u64,
    pub total_tokens: u64,
}

/// A message of a run. `metadata` keeps its keys sorted and unique, as a `BTreeMap` does.
#[derive(Debug, PartialEq, Clone)]
pub struct RunMessage {
    pub id: u128,
    pub role: MessageRole,
    pub content: Vec<ContentBlock>,
    pub status: MessageStatus,
    pub source_node_id: Option<String>,
    pub provider_response_id: Option<String>,
    pub usage: Option<MessageUsage>,
    pub metadata: Vec<(String, Json)>,
    pub created_at_ms: u64,
}

pub struct MessageV {
    pub id: u128,
    pub role: MessageRole,
    pub content: Seq<BlockV>,
    pub status: MessageStatus,
    pub source_node_id: Option<Seq<char>>,
    pub provider_response_id: Option<Seq<char>>,
    pub usage: Option<MessageUsage>,
    pub metadata: Seq<(Seq<char>, JsonV)>,
    pub created_at_ms: u64,
}

pub open spec fn messages_view(v: Seq<RunMessage>) -> Seq<MessageV> {
    Seq::new(v.len(), |i: int| v[i].view())
}

impl RunMessage {
    pub open spec fn view(&self) -> MessageV {
        MessageV {
            id: self.id,
            role: self.role,
            content: blocks_view(self.content@),
            status: self.status,
            source_node_id: opt_view(self.source_node_id),
            provider_response_id: opt_view(self.provider_response_id),
            usage: self.usage,
            metadata: object_view(self.metadata@),
            created_at_ms: self.created_at_ms,
        }
    }

    /// Metadata keys are sorted and unique.
    pub open spec fn wf(&self) -> bool {
        keys_sorted(object_view(self.metadata@))
    }

    /// A finalized message with a fresh id; refused when `content` is empty.
    pub fn new(role: MessageRole, content: Vec<ContentBlock>) -> (r: AgentCoreResult<RunMessage>)
        ensures
            content@.len() == 0 <==> r is Err,
            r matches Err(e) ==> e matches AgentCoreError::InvalidInput(s) && s@ == "run message content cannot be empty"@,
            r matches Ok(m) ==> m.role == role && m.content == content && m.status == MessageStatus::Finalized
                && m.source_node_id is None && m.provider_response_id is None && m.usage is None
                && m.metadata@.len() == 0 && m.wf(),
    {
        if content.len() == 0 {
            return Err(AgentCoreError::InvalidInput(owned("run message content cannot be empty")));
        }
        let m = RunMessage {
            id: new_id(),
            role,
            content,
            status: MessageStatus::Finalized,
            source_node_id: None,
            provider_response_id: None,
            usage: None,
            metadata: Vec::new(),
            created_at_ms: now_ms(),
        };
        proof {
            assert(object_view(m.metadata@) =~= Seq::empty());
        }
        Ok(m)
    }

    /// An empty assistant-side message that is still streaming.
    pub fn streaming(role: MessageRole) -> (r: RunMessage)
        ensures
            r.role == role && r.content@.len() == 0 && r.status == MessageStatus::Streaming
                && r.source_node_id is None && r.provider_response_id is None && r.usage is None
                && r.metadata@.len() == 0 && r.wf(),
    {
        let m = RunMessage {
            id: new_id(),
            role,
            content: Vec::new(),
            status: MessageStatus::Streaming,
            source_node_id: None,
            provider_response_id: None,
            usage: None,
            metadata: Vec::new(),
            created_at_ms: now_ms(),
        };
        proof {
            assert(object_view(m.metadata@) =~= Seq::empty());
        }
        m
    }

    pub fn user(content: Vec<ContentBlock>) -> (r: AgentCoreResult<RunMessage>)
        ensures
            content@.len() == 0 <==> r is Err,
            r matches Ok(m) ==> m.role == MessageRole::User && m.content == content && m.status == MessageStatus::Finalized && m.wf(),
    {
        RunMessage::new(MessageRole::User, content)
    }

    pub fn user_text(text: &str) -> (r: AgentCoreResult<RunMessage>)
        ensures
            r matches Ok(m) && m.role == MessageRole::User && blocks_view(m.content@) == seq![BlockV::Text(text@)]
                && m.status == MessageStatus::Finalized && m.wf(),
    {
        let r = RunMessage::user(vec![ContentBlock::text(text)]);
        proof {
            if let Ok(m) = &r {
                assert(blocks_view(m.content@) =~= seq![BlockV::Text(text@)]);
            }
        }
        r
    }

    pub fn assistant(content: Vec<ContentBlock>) -> (r: AgentCoreResult<RunMessage>)
        ensures
            content@.len() == 0 <==> r is Err,
            r matches Ok(m) ==> m.role == MessageRole::Assistant && m.content == content && m.status == MessageStatus::Finalized && m.wf(),
    {
        RunMessage::new(MessageRole::Assistant, content)
    }

    pub fn assistant_text(text: &str) -> (r: AgentCoreResult<RunMessage>)
        ensures
            r matches Ok(m) && m.role == MessageRole::Assistant && blocks_view(m.content@) == seq![BlockV::Text(text@)]
                && m.status == MessageStatus::Finalized && m.wf(),
    {
        let r = RunMessage::assistant(vec![ContentBlock::text(text)]);
        proof {
            if let Ok(m) = &r {
                assert(blocks_view(m.content@) =~= seq![BlockV::Text(text@)]);
            }
        }
        r
    }

    pub fn assistant_tool_call(call_id: &str, tool_name: &str, arguments: Json) -> (r: AgentCoreResult<RunMessage>)
        ensures
            r matches Ok(m) && m.role == MessageRole::Assistant
                && blocks_view(m.content@) == seq![BlockV::ToolCall { call_id: call_id@, tool_name: tool_name@, arguments: arguments.view() }]
                && m.status == MessageStatus::Finalized && m.wf(),
    {
        let ghost av = arguments.view();
        let r = RunMessage::assistant(vec![ContentBlock::tool_call(call_id, tool_name, arguments)]);
        proof {
            if let Ok(m) = &r {
                assert(blocks_view(m.content@) =~= seq![BlockV::ToolCall { call_id: call_id@, tool_name: tool_name@, arguments: av }]);
            }
        }
        r
    }

    pub fn tool(content: Vec<ContentBlock>) -> (r: AgentCoreResult<RunMessage>)
        ensures
            content@.len() == 0 <==> r is Err,
            r matches Ok(m) ==> m.role == MessageRole::Tool && m.content == content && m.status == MessageStatus::Finalized && m.wf(),
    {
        RunMessage::new(MessageRole::Tool, content)
    }

    pub fn tool_result(call_id: &str, tool_name: Option<String>, output: Json, is_error: bool) -> (r: AgentCoreResult<RunMessage>)
        ensures
            r matches Ok(m) && m.role == MessageRole::Tool
                && blocks_view(m.content@) == seq![BlockV::ToolResult { call_id: call_id@, tool_name: opt_view(tool_name), output: output.view(), is_error }]
                && m.status == MessageStatus::Finalized && m.wf(),
    {
        let ghost ov = output.view();
        let ghost tv = opt_view(tool_name);
        let r = RunMessage::tool(vec![ContentBlock::tool_result(call_id, tool_name, output, is_error)]);
        proof {
            if let Ok(m) = &r {
                assert(blocks_view(m.content@) =~= seq![BlockV::ToolResult { call_id: call_id@, tool_name: tv, output: ov, is_error }]);
            }
        }
        r
    }

    pub fn diagnostic(content: Vec<ContentBlock>) -> (r: AgentCoreResult<RunMessage>)
        ensures
            content@.len() == 0 <==> r is Err,
            r matches Ok(m) ==> m.role == MessageRole::Diagnostic && m.content == content && m.status == MessageStatus::Finalized && m.wf(),
    {
        RunMessage::new(MessageRole::Diagnostic, content)
    }

    /// Marks the message finalized; refused while it has no content.
    pub fn finalize(&mut self) -> (r: AgentCoreResult<()>)
        ensures
            old(self).content@.len() == 0 <==> r is Err,
            r matches Err(e) ==> e matches AgentCoreError::InvalidInput(s) && s@ == "cannot finalize an empty run message"@,
            r is Err ==> *final(self) == *old(self),
            r is Ok ==> *final(self) == (RunMessage { status: MessageStatus::Finalized, ..*old(self) }),
    {
        if self.content.len() == 0 {
            return Err(AgentCoreError::InvalidInput(owned("cannot finalize an empty run message")));
        }
        self.status = MessageStatus::Finalized;
        Ok(())
    }

    pub fn abort(&mut self)
        ensures
            *final(self) == (RunMessage { status: MessageStatus::Aborted, ..*old(self) }),
    {
        self.status = MessageStatus::Aborted;
    }

    pub fn push_content(&mut self, block: ContentBlock)
        ensures
            final(self).content@ == old(self).content@.push(block),
            final(self).id == old(self).id && final(self).role == old(self).role && final(self).status == old(self).status
                && final(self).source_node_id == old(self).source_node_id && final(self).metadata == old(self).metadata
                && final(self).usage == old(self).usage && final(self).provider_response_id == old(self).provider_response_id
                && final(self).created_at_ms == old(self).created_at_ms,
    {
        self.content.push(block);
    }

    pub fn with_source_node_id(self, source_node_id: &str) -> (r: RunMessage)
        ensures
            r == (RunMessage { source_node_id: r.source_node_id, ..self }),
            opt_view(r.source_node_id) == Some(source_node_id@),
    {
        RunMessage { source_node_id: Some(owned(source_node_id)), ..self }
    }

    pub fn set_source_node_id_if_empty(&mut self, source_node_id: &str)
        ensures
            old(self).source_node_id is Some ==> *final(self) == *old(self),
            old(self).source_node_id is None ==> *final(self) == (RunMessage { source_node_id: final(self).source_node_id, ..*old(self) })
                && opt_view(final(self).source_node_id) == Some(source_node_id@),
    {
        if self.source_node_id.is_none() {
            self.source_node_id = Some(owned(source_node_id));
        }
    }

    pub fn with_provider_response_id(self, provider_response_id: &str) -> (r: RunMessage)
        ensures
            r == (RunMessage { provider_response_id: r.provider_response_id, ..self }),
            opt_view(r.provider_response_id) == Some(provider_response_id@),
    {
        RunMessage { provider_response_id: Some(owned(provider_response_id)), ..self }
    }

    pub fn with_usage(self, usage: MessageUsage) -> (r: RunMessage)
        ensures
            r == (RunMessage { usage: Some(usage), ..self }),
    {
        RunMessage { usage: Some(usage), ..self }
    }

    pub fn with_metadata(self, key: &str, value: Json) -> (r: RunMessage)
        requires
            self.wf(),
        ensures
            r == (RunMessage { metadata: r.metadata, ..self }),
            object_view(r.metadata@) == fields_insert(object_view(self.metadata@), key@, value.view()),
            r.wf(),
    {
        let mut m = self;
        fields_set(&mut m.metadata, key, value);
        m
    }

    /// A copy with the same value.
    pub fn dup(&self) -> (r: RunMessage)
        ensures
            r.view() == self.view(),
    {
        RunMessage {
            id: self.id,
            role: self.role,
            content: dup_blocks(&self.content),
            status: self.status,
            source_node_id: dup_opt(&self.source_node_id),
            provider_response_id: dup_opt(&self.provider_response_id),
            usage: self.usage,
            metadata: crate::json::dup_fields(&self.metadata),
            created_at_ms: self.created_at_ms,
        }
    }
}

pub fn dup_messages(v: &Vec<RunMessage>) -> (r: Vec<RunMessage>)
    ensures
        messages_view(r@) == messages_view(v@),
{
    let mut out: Vec<RunMessage> = Vec::new();
    let mut i: usize = 0;
    while i < v.len()
        invariant
            i <= v.len(),
            out.len() == i,
            forall|k: int| 0 <= k < i ==> (#[trigger] out@[k]).view() == v@[k].view(),
        decreases v.len() - i,
    {
        out.push(v[i].dup());
        i += 1;
    }
    assert(messages_view(out@) =~= messages_view(v@));
    out
}

} // verus!
