//! Incremental construction of an assistant message from streamed deltas.

use vstd::prelude::*;
use crate::error::{AgentCoreError, AgentCoreResult};
use crate::json::Json;
use crate::message::{
    block_empty_text_like, blocks_view, BlockV, ContentBlock, DiagnosticLevel, MessageRole,
    MessageStatus, MessageV, RunMessage,
};
use crate::text::owned;

verus! {

/// Which kind of text a delta extends.
#[derive(Clone, Copy, PartialEq, Eq, Structural)]
pub enum TextLikeKind {
    Text,
    Reasoning,
}

/// The content after a text or reasoning delta: empty deltas change nothing, a delta of the
/// same kind as the last block extends it, and any other delta opens a new block.
pub open spec fn push_text_like(content: Seq<BlockV>, delta: Seq<char>, kind: TextLikeKind) -> Seq<BlockV> {
    if delta.len() == 0 {
        content
    } else if content.len() > 0 && kind == TextLikeKind::Text && content.last() is Text {
        content.update(content.len() - 1, BlockV::Text(content.last()->Text_0 + delta))
    } else if content.len() > 0 && kind == TextLikeKind::Reasoning && content.last() is Reasoning {
        content.update(content.len() - 1, BlockV::Reasoning(content.last()->Reasoning_0 + delta))
    } else if kind == TextLikeKind::Text {
        content.push(BlockV::Text(delta))
    } else {
        content.push(BlockV::Reasoning(delta))
    }
}

/// The content is acceptable as a finished assistant message.
pub open spec fn finishable(content: Seq<BlockV>) -> bool {
    content.len() > 0 && exists|i: int| 0 <= i < content.len() && !block_empty_text_like(#[trigger] content[i])
}

/// Builds one assistant message from a stream of deltas and completed tool calls.
#[derive(Debug)]
pub struct AssistantBuilder {
    message: RunMessage,
}

impl AssistantBuilder {
    pub closed spec fn view(&self) -> MessageV {
        self.message.view()
    }

    pub closed spec fn wf(&self) -> bool {
        self.message.role == MessageRole::Assistant && self.message.status == MessageStatus::Streaming && self.message.wf()
    }

    pub fn new() -> (r: AssistantBuilder)
        ensures
            r.wf(),
            r.view().content.len() == 0,
            r.view().role == MessageRole::Assistant,
            r.view().status == MessageStatus::Streaming,
            r.view().usage is None,
    {
        AssistantBuilder { message: RunMessage::streaming(MessageRole::Assistant) }
    }

    pub fn push_text_delta(&mut self, delta: &str)
        requires
            old(self).wf(),
        ensures
            final(self).wf(),
            final(self).view() == (MessageV { content: push_text_like(old(self).view().content, delta@, TextLikeKind::Text), ..old(self).view() }),
    {
        self.push_text_like_delta(delta, TextLikeKind::Text)
    }

    pub fn push_reasoning_delta(&mut self, delta: &str)
        requires
            old(self).wf(),
        ensures
            final(self).wf(),
            final(self).view() == (MessageV { content: push_text_like(old(self).view().content, delta@, TextLikeKind::Reasoning), ..old(self).view() }),
    {
        self.push_text_like_delta(delta, TextLikeKind::Reasoning)
    }

    pub fn push_tool_call(&mut self, call_id: &str, tool_name: &str, arguments: Json)
        requires
            old(self).wf(),
        ensures
            final(self).wf(),
            final(self).view() == (MessageV {
                content: old(self).view().content.push(BlockV::ToolCall { call_id: call_id@, tool_name: tool_name@, arguments: arguments.view() }),
                ..old(self).view()
            }),
    {
        let block = ContentBlock::tool_call(call_id, tool_name, arguments);
        self.message.push_content(block);
        proof {
            assert(blocks_view(self.message.content@) =~= blocks_view(old(self).message.content@).push(block.view()));
        }
    }

    pub fn push_diagnostic(&mut self, level: DiagnosticLevel, message: &str)
        requires
            old(self).wf(),
        ensures
            final(self).wf(),
            final(self).view() == (MessageV {
                content: old(self).view().content.push(BlockV::Diagnostic { level, message: message@ }),
                ..old(self).view()
            }),
    {
        let block = ContentBlock::diagnostic(level, message);
        self.message.push_content(block);
        proof {
            assert(blocks_view(self.message.content@) =~= blocks_view(old(self).message.content@).push(block.view()));
        }
    }

    /// The message built so far.
    pub fn snapshot(&self) -> (r: RunMessage)
        ensures
            r.view() == self.view(),
    {
        self.message.dup()
    }

    /// The finished, finalized message; refused when there is no content or only empty text.
    pub fn finish(self) -> (r: AgentCoreResult<RunMessage>)
        requires
            self.wf(),
        ensures
            r is Ok <==> finishable(self.view().content),
            r matches Err(e) ==> e matches AgentCoreError::InvalidInput(s) && s@ == "assistant message cannot be empty"@,
            r matches Ok(m) ==> m.view() == (MessageV { status: MessageStatus::Finalized, ..self.view() }) && m.wf(),
    {
        let mut message = self.message;
        let mut all_empty = true;
        let mut i: usize = 0;
        while i < message.content.len()
            invariant
                i <= message.content.len(),
                all_empty == forall|k: int| 0 <= k < i ==> block_empty_text_like(#[trigger] blocks_view(message.content@)[k]),
            decreases message.content.len() - i,
        {
            let empty = message.content[i].is_empty_text_like();
            proof {
                assert(blocks_view(message.content@)[i as int] == message.content@[i as int].view());
            }
            if !empty {
                all_empty = false;
            }
            i += 1;
        }
        if message.content.len() == 0 || all_empty {
            proof {
                if message.content.len() > 0 {
                    assert forall|k: int| 0 <= k < blocks_view(message.content@).len() implies block_empty_text_like(#[trigger] blocks_view(message.content@)[k]) by {}
                }
            }
            return Err(AgentCoreError::InvalidInput(owned("assistant message cannot be empty")));
        }
        proof {
            let c = blocks_view(message.content@);
            let k = choose|k: int| 0 <= k < message.content@.len() && !block_empty_text_like(#[trigger] c[k]);
            assert(0 <= k < c.len() && !block_empty_text_like(c[k]));
        }
        let r = message.finalize();
        match r {
            Ok(()) => Ok(message),
            Err(e) => Err(e),
        }
    }

    fn push_text_like_delta(&mut self, delta: &str, kind: TextLikeKind)
        requires
            old(self).wf(),
        ensures
            final(self).wf(),
            final(self).view() == (MessageV { content: push_text_like(old(self).view().content, delta@, kind), ..old(self).view() }),
    {
        if delta.is_empty() {
            return;
        }
        let n = self.message.content.len();
        if n > 0 {
            let same_kind = match (&self.message.content[n - 1], kind) {
                (ContentBlock::Text { .. }, TextLikeKind::Text) => true,
                (ContentBlock::Reasoning { .. }, TextLikeKind::Reasoning) => true,
                _ => false,
            };
            if same_kind {
                let ghost old_blocks = self.message.content@;
                let mut last = self.message.content.pop().unwrap();
                let appended = last.append_text(delta);
                self.message.content.push(last);
                proof {
                    assert(self.message.content@ == old_blocks.update(n - 1, last));
                    assert(blocks_view(self.message.content@) =~= blocks_view(old_blocks).update(n - 1, last.view()));
                }
                return;
            }
        }
        let block = match kind {
            TextLikeKind::Text => ContentBlock::text(delta),
            TextLikeKind::Reasoning => ContentBlock::reasoning(delta),
        };
        self.message.push_content(block);
        proof {
            assert(blocks_view(self.message.content@) =~= blocks_view(old(self).message.content@).push(block.view()));
        }
    }
}

} // verus!
