//! Building a provider request from an agent definition and the run's messages.

use vstd::prelude::*;
use crate::definition::AgentDefinition;
use crate::error::AgentCoreResult;
use crate::json::{Json, object_view};
use crate::llm_model::ModelId;
use crate::llm_request::{LlmRequest, LlmRequestOptions};
use crate::message::{MessageRole, MessageV, RunMessage, messages_view};
use crate::text::owned;
use crate::tool_schema::ToolSchema;

verus! {

/// What a request is built from.
#[derive(Debug)]
pub struct ContextBuildInput {
    pub model: ModelId,
    pub api: Option<String>,
    pub instructions_override: Option<String>,
    pub messages: Vec<RunMessage>,
    pub visible_tool_schemas: Vec<ToolSchema>,
    pub options: LlmRequestOptions,
    pub include_diagnostics: bool,
    pub metadata: Vec<(String, Json)>,
}

impl ContextBuildInput {
    pub fn new(model: &str) -> (r: ContextBuildInput)
        ensures
            r.model.0@ == model@,
            r.api is None && r.instructions_override is None && !r.include_diagnostics,
            r.messages@.len() == 0 && r.visible_tool_schemas@.len() == 0 && r.metadata@.len() == 0,
            r.options.temperature is None && r.options.max_output_tokens is None && r.options.parallel_tool_calls is None
                && !r.options.store && r.options.previous_response_id is None,
    {
        ContextBuildInput {
            model: ModelId::new(model),
            api: None,
            instructions_override: None,
            messages: Vec::new(),
            visible_tool_schemas: Vec::new(),
            options: LlmRequestOptions::default(),
            include_diagnostics: false,
            metadata: Vec::new(),
        }
    }

    pub fn push_message(&mut self, message: RunMessage)
        ensures
            final(self).messages@ == old(self).messages@.push(message),
            final(self).model == old(self).model && final(self).api == old(self).api
                && final(self).instructions_override == old(self).instructions_override
                && final(self).visible_tool_schemas == old(self).visible_tool_schemas && final(self).options == old(self).options
                && final(self).include_diagnostics == old(self).include_diagnostics && final(self).metadata == old(self).metadata,
    {
        self.messages.push(message);
    }

    pub fn extend_messages(&mut self, messages: Vec<RunMessage>)
        ensures
            final(self).messages@ == old(self).messages@ + messages@,
            final(self).model == old(self).model && final(self).api == old(self).api
                && final(self).instructions_override == old(self).instructions_override
                && final(self).visible_tool_schemas == old(self).visible_tool_schemas && final(self).options == old(self).options
                && final(self).include_diagnostics == old(self).include_diagnostics && final(self).metadata == old(self).metadata,
    {
        let mut messages = messages;
        self.messages.append(&mut messages);
    }
}

/// The messages a request carries: diagnostics are left out unless asked for.
pub open spec fn context_messages(s: Seq<RunMessage>, include_diagnostics: bool) -> Seq<RunMessage>
    decreases s.len(),
{
    if s.len() == 0 {
        Seq::empty()
    } else {
        let rest = context_messages(s.drop_last(), include_diagnostics);
        if include_diagnostics || s.last().role != MessageRole::Diagnostic {
            rest.push(s.last())
        } else {
            rest
        }
    }
}

/// Builds provider requests.
#[derive(Debug, Clone, Copy)]
pub struct ContextBuilder;

impl ContextBuilder {
    pub fn new() -> (r: ContextBuilder) {
        ContextBuilder
    }

    /// The request: the input's model, api, tools, options and metadata; the instructions
    /// override, or else the definition's system prompt; and the input's messages without
    /// diagnostics unless they are asked for. It always succeeds.
    pub fn build(&self, definition: &AgentDefinition, input: ContextBuildInput) -> (r: AgentCoreResult<LlmRequest>)
        ensures
            r matches Ok(q) && {
                &&& q.model == input.model && q.api == input.api && q.tools == input.visible_tool_schemas
                &&& q.options == input.options && q.metadata == input.metadata
                &&& q.instructions matches Some(i) && i@ == (match input.instructions_override {
                        Some(o) => o@,
                        None => definition.prompt_view(),
                    })
                &&& q.messages@ == context_messages(input.messages@, input.include_diagnostics)
                &&& q.input@.len() == 0 && q.headers@.len() == 0
            },
    {
        let ContextBuildInput { model, api, instructions_override, messages, visible_tool_schemas, options, include_diagnostics, metadata } = input;
        let instructions = match instructions_override {
            Some(o) => o,
            None => owned(definition.system_prompt()),
        };
        let mut kept: Vec<RunMessage> = Vec::new();
        let mut source = messages;
        let ghost all = source@;
        let n = source.len();
        proof {
            assert(all.len() == n);
            assert(context_messages(all.subrange(0, 0), include_diagnostics) =~= Seq::empty());
        }
        let mut taken: usize = 0;
        while source.len() > 0
            invariant
                taken <= all.len(),
                all.len() <= usize::MAX,
                source@ == all.subrange(taken as int, all.len() as int),
                kept@ == context_messages(all.subrange(0, taken as int), include_diagnostics),
            decreases source@.len(),
        {
            let m = source.remove(0);
            proof {
                assert(m == all[taken as int]);
                assert(source@ =~= all.subrange(taken + 1, all.len() as int));
                assert(all.subrange(0, taken + 1).drop_last() =~= all.subrange(0, taken as int));
            }
            if include_diagnostics || m.role != MessageRole::Diagnostic {
                kept.push(m);
            }
            taken += 1;
        }
        proof {
            assert(all.subrange(0, taken as int) =~= all);
        }
        Ok(LlmRequest {
            model,
            api,
            instructions: Some(instructions),
            messages: kept,
            input: Vec::new(),
            tools: visible_tool_schemas,
            options,
            metadata,
            headers: Vec::new(),
        })
    }
}

} // verus!
