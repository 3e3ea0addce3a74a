//! Model identifiers and descriptions.

use vstd::prelude::*;
use crate::text::{dup_string, owned};

verus! {

#[derive(Debug, Clone, PartialEq, Eq, PartialOrd, Ord, Hash)]
pub struct ModelId(pub String);

impl ModelId {
    pub fn new(id: &str) -> (r: ModelId)
        ensures
            r.0@ == id@,
    {
        ModelId(owned(id))
    }

    pub fn as_str(&self) -> (r: &str)
        ensures
            r@ == self.0@,
    {
        self.0.as_str()
    }

    pub fn dup(&self) -> (r: ModelId)
        ensures
            r.0@ == self.0@,
    {
        ModelId(dup_string(&self.0))
    }
}

impl From<&str> for ModelId {
    fn from(id: &str) -> (r: ModelId)
        ensures
            r.0@ == id@,
    {
        ModelId(owned(id))
    }
}

impl From<String> for ModelId {
    fn from(id: String) -> (r: ModelId)
        ensures
            r.0 == id,
    {
        ModelId(id)
    }
}

/// Which `String` a converted slice becomes is not fixed in specifications (only its text
/// is), so conversions from a slice are not claimed equal to a spec value: the `from` above
/// states the text instead.
impl vstd::std_specs::convert::FromSpecImpl<&str> for ModelId {
    open spec fn obeys_from_spec() -> bool {
        false
    }

    open spec fn from_spec(id: &str) -> ModelId {
        choose|m: ModelId| m.0@ == id@
    }
}

impl vstd::std_specs::convert::FromSpecImpl<String> for ModelId {
    open spec fn obeys_from_spec() -> bool {
        true
    }

    open spec fn from_spec(id: String) -> ModelId {
        ModelId(id)
    }
}

/// The wire API a model speaks.
#[derive(Debug, Clone, PartialEq, Eq)]
pub enum LlmApi {
    OpenAiResponses,
    DeepSeekChat,
    Custom(String),
}

pub open spec fn api_key(api: LlmApi) -> Seq<char> {
    match api {
        LlmApi::OpenAiResponses => "openai_responses"@,
        LlmApi::DeepSeekChat => "deepseek_chat"@,
        LlmApi::Custom(name) => name@,
    }
}

impl LlmApi {
    /// The key providers are registered under.
    pub fn as_key(&self) -> (r: &str)
        ensures
            r@ == api_key(*self),
    {
        match self {
            LlmApi::OpenAiResponses => "openai_responses",
            LlmApi::DeepSeekChat => "deepseek_chat",
            LlmApi::Custom(name) => name.as_str(),
        }
    }
}

#[derive(Debug, Clone, Copy, PartialEq, Eq, Structural)]
pub struct LlmModelCapabilities {
    pub text_input: bool,
    pub text_output: bool,
    pub image_input: bool,
    pub file_input: bool,
    pub function_tools: bool,
    pub parallel_tool_calls: bool,
    pub streaming: bool,
    pub reasoning: bool,
}

impl Default for LlmModelCapabilities {
    /// Text in and out, function tools, parallel calls and streaming; no images, files or
    /// reasoning.
    fn default() -> (r: LlmModelCapabilities)
        ensures
            r == (LlmModelCapabilities {
                text_input: true,
                text_output: true,
                image_input: false,
                file_input: false,
                function_tools: true,
                parallel_tool_calls: true,
                streaming: true,
                reasoning: false,
            }),
    {
        LlmModelCapabilities {
            text_input: true,
            text_output: true,
            image_input: false,
            file_input: false,
            function_tools: true,
            parallel_tool_calls: true,
            streaming: true,
            reasoning: false,
        }
    }
}

/// A model a provider serves.
#[derive(Debug, Clone, PartialEq, Eq)]
pub struct LlmModel {
    pub id: ModelId,
    pub provider: String,
    pub api: LlmApi,
    pub capabilities: LlmModelCapabilities,
    pub context_window: Option<u32>,
    pub metadata: Vec<(String, String)>,
}

impl LlmModel {
    pub fn new(id: &str, provider: &str, api: LlmApi) -> (r: LlmModel)
        ensures
            r.id.0@ == id@ && r.provider@ == provider@ && r.api == api,
            r.capabilities == (LlmModelCapabilities {
                text_input: true,
                text_output: true,
                image_input: false,
                file_input: false,
                function_tools: true,
                parallel_tool_calls: true,
                streaming: true,
                reasoning: false,
            }),
            r.context_window is None && r.metadata@.len() == 0,
    {
        LlmModel {
            id: ModelId::new(id),
            provider: owned(provider),
            api,
            capabilities: LlmModelCapabilities::default(),
            context_window: None,
            metadata: Vec::new(),
        }
    }
}

} // verus!
