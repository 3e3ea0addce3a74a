//! Turning user input into user messages.

use vstd::prelude::*;
use crate::error::{AgentCoreError, AgentCoreResult};
use crate::message::{blocks_view, opt_view, BlockV, ContentBlock, MessageRole, MessageStatus, RunMessage};
use crate::text::{is_blank, owned, str_is_blank};

verus! {

/// A user message holding one text block; refused when the text is blank.
pub fn text_message(text: &str) -> (r: AgentCoreResult<RunMessage>)
    ensures
        is_blank(text@) <==> r is Err,
        r matches Err(e) ==> e matches AgentCoreError::InvalidInput(s) && s@ == "user text input cannot be empty"@,
        r matches Ok(m) ==> m.role == MessageRole::User && blocks_view(m.content@) == seq![BlockV::Text(text@)]
            && m.status == MessageStatus::Finalized && m.wf(),
{
    if str_is_blank(text) {
        return Err(AgentCoreError::InvalidInput(owned("user text input cannot be empty")));
    }
    RunMessage::user_text(text)
}

/// A user message holding `blocks`; refused when there are none.
pub fn content_blocks_message(blocks: Vec<ContentBlock>) -> (r: AgentCoreResult<RunMessage>)
    ensures
        blocks@.len() == 0 <==> r is Err,
        r matches Err(e) ==> e matches AgentCoreError::InvalidInput(s) && s@ == "user input must contain at least one content block"@,
        r matches Ok(m) ==> m.role == MessageRole::User && m.content == blocks && m.status == MessageStatus::Finalized && m.wf(),
{
    if blocks.len() == 0 {
        return Err(AgentCoreError::InvalidInput(owned("user input must contain at least one content block")));
    }
    RunMessage::user(blocks)
}

fn require_uri(uri: &str) -> (r: AgentCoreResult<()>)
    ensures
        is_blank(uri@) <==> r is Err,
        r matches Err(e) ==> e matches AgentCoreError::InvalidInput(s) && s@ == "user input reference uri cannot be empty"@,
{
    if str_is_blank(uri) {
        return Err(AgentCoreError::InvalidInput(owned("user input reference uri cannot be empty")));
    }
    Ok(())
}

pub fn file_reference_message(uri: &str, mime_type: Option<String>, name: Option<String>) -> (r: AgentCoreResult<RunMessage>)
    ensures
        is_blank(uri@) <==> r is Err,
        r matches Err(e) ==> e matches AgentCoreError::InvalidInput(s) && s@ == "user input reference uri cannot be empty"@,
        r matches Ok(m) ==> m.role == MessageRole::User && m.status == MessageStatus::Finalized && m.wf()
            && blocks_view(m.content@) == seq![BlockV::FileReference { uri: uri@, mime_type: opt_view(mime_type), name: opt_view(name) }],
{
    require_uri(uri)?;
    let block = ContentBlock::file_reference(uri, mime_type, name);
    let ghost bv = block.view();
    let r = RunMessage::user(vec![block]);
    proof {
        if let Ok(m) = &r {
            assert(blocks_view(m.content@) =~= seq![bv]);
        }
    }
    r
}

pub fn image_reference_message(uri: &str, mime_type: Option<String>, alt_text: Option<String>) -> (r: AgentCoreResult<RunMessage>)
    ensures
        is_blank(uri@) <==> r is Err,
        r matches Err(e) ==> e matches AgentCoreError::InvalidInput(s) && s@ == "user input reference uri cannot be empty"@,
        r matches Ok(m) ==> m.role == MessageRole::User && m.status == MessageStatus::Finalized && m.wf()
            && blocks_view(m.content@) == seq![BlockV::ImageReference { uri: uri@, mime_type: opt_view(mime_type), alt_text: opt_view(alt_text) }],
{
    require_uri(uri)?;
    let block = ContentBlock::image_reference(uri, mime_type, alt_text);
    let ghost bv = block.view();
    let r = RunMessage::user(vec![block]);
    proof {
        if let Ok(m) = &r {
            assert(blocks_view(m.content@) =~= seq![bv]);
        }
    }
    r
}

pub fn audio_reference_message(uri: &str, mime_type: Option<String>) -> (r: AgentCoreResult<RunMessage>)
    ensures
        is_blank(uri@) <==> r is Err,
        r matches Err(e) ==> e matches AgentCoreError::InvalidInput(s) && s@ == "user input reference uri cannot be empty"@,
        r matches Ok(m) ==> m.role == MessageRole::User && m.status == MessageStatus::Finalized && m.wf()
            && blocks_view(m.content@) == seq![BlockV::AudioReference { uri: uri@, mime_type: opt_view(mime_type) }],
{
    require_uri(uri)?;
    let block = ContentBlock::audio_reference(uri, mime_type);
    let ghost bv = block.view();
    let r = RunMessage::user(vec![block]);
    proof {
        if let Ok(m) = &r {
            assert(blocks_view(m.content@) =~= seq![bv]);
        }
    }
    r
}

} // verus!
