use agent_core::builder::AssistantBuilder;
use agent_core::context::{ContextBuildInput, ContextBuilder};
use agent_core::deepseek::{DeepSeekChatProvider, DEEPSEEK_DEFAULT_ENDPOINT};
use agent_core::definition::AgentDefinitionBuilder;
use agent_core::error::AgentCoreError;
use agent_core::input::{
    audio_reference_message, content_blocks_message, file_reference_message, image_reference_message, text_message,
};
use agent_core::json::{parse_text, to_text, Json};
use agent_core::llm_model::{LlmApi, LlmModel};
use agent_core::llm_registry::LlmRegistry;
use agent_core::llm_request::{
    LlmContentPart, LlmInputItem, LlmMessageRole, LlmProvider, LlmRequest, LlmStreamEvent, LlmUsage, PreparedLlmRequest,
};
use agent_core::message::{ContentBlock, DiagnosticLevel, MessageRole, MessageStatus, RunMessage};
use agent_core::openai::OpenAiResponsesProvider;
use agent_core::tool_schema::ToolSchema;

fn json(text: &str) -> Json {
    parse_text(text).unwrap()
}

fn at<'a>(value: &'a Json, key: &str) -> &'a Json {
    value.get(key).unwrap()
}

fn nth(value: &Json, index: usize) -> &Json {
    &value.as_array().unwrap()[index]
}

fn header<'a>(headers: &'a [(String, String)], name: &str) -> Option<&'a String> {
    headers.iter().find(|(k, _)| k == name).map(|(_, v)| v)
}

fn user_text_item(text: &str) -> LlmInputItem {
    LlmInputItem::Message {
        role: LlmMessageRole::User,
        content: vec![LlmContentPart::Text { text: text.to_string() }],
        metadata: Vec::new(),
    }
}

#[test]
fn text_input_becomes_user_message() {
    let message = text_message("hello").unwrap();

    assert_eq!(message.role, MessageRole::User);
    assert_eq!(message.content, vec![ContentBlock::text("hello")]);
}

#[test]
fn empty_text_is_rejected() {
    let result = text_message("  ");

    assert!(matches!(result, Err(AgentCoreError::InvalidInput(_))));
}

#[test]
fn text_deltas_are_coalesced() {
    let mut builder = AssistantBuilder::new();
    builder.push_text_delta("hel");
    builder.push_text_delta("lo");

    let message = builder.finish().unwrap();

    assert_eq!(message.content, vec![ContentBlock::text("hello")]);
}

#[test]
fn tool_call_can_be_part_of_assistant_message() {
    let mut builder = AssistantBuilder::new();
    builder.push_tool_call("call-1", "read_file", json(r#"{"path":"README.md"}"#));

    let message = builder.finish().unwrap();

    assert_eq!(message.content.len(), 1);
}

#[test]
fn empty_assistant_message_is_refused() {
    let mut builder = AssistantBuilder::new();
    builder.push_text_delta("");
    assert!(matches!(builder.finish(), Err(AgentCoreError::InvalidInput(_))));
}

#[test]
fn tool_call_keeps_typed_arguments() {
    let block = ContentBlock::tool_call("call-1", "search", json(r#"{"q":"rust"}"#));

    assert_eq!(
        block,
        ContentBlock::ToolCall { call_id: "call-1".to_string(), tool_name: "search".to_string(), arguments: json(r#"{"q":"rust"}"#) }
    );
}

#[test]
fn text_like_block_can_append_delta() {
    let mut block = ContentBlock::text("hel");

    assert!(block.append_text("lo"));
    assert_eq!(block, ContentBlock::text("hello"));
}

#[test]
fn user_message_requires_content() {
    let result = RunMessage::user(Vec::new());

    assert!(matches!(result, Err(AgentCoreError::InvalidInput(_))));
}

#[test]
fn streaming_message_can_be_finalized_after_content_arrives() {
    let mut message = RunMessage::streaming(MessageRole::Assistant);

    message.push_content(ContentBlock::text("done"));
    message.finalize().unwrap();

    assert_eq!(message.status, MessageStatus::Finalized);
}

#[test]
fn validates_required_arguments() {
    let schema = ToolSchema::new(
        "search",
        "Search docs",
        json(r#"{"type":"object","required":["query"],"properties":{"query":{"type":"string"}}}"#),
    )
    .unwrap();

    assert!(schema.validate_arguments(&json(r#"{"query":"agent"}"#)).is_ok());
    assert!(schema.validate_arguments(&json("{}")).is_err());
}

#[test]
fn context_builder_preserves_messages_as_request_messages() {
    let definition = AgentDefinitionBuilder::new().name("agent").system_prompt("system").build().unwrap();
    let user = RunMessage::user(vec![ContentBlock::text("hello")]).unwrap();
    let diagnostic = RunMessage::diagnostic(vec![ContentBlock::diagnostic(DiagnosticLevel::Info, "debug")]).unwrap();

    let mut input = ContextBuildInput::new("model");
    input.extend_messages(vec![user.clone(), diagnostic]);
    let request = ContextBuilder::new().build(&definition, input).unwrap();

    assert_eq!(request.messages, vec![user]);
    assert_eq!(request.instructions.as_deref(), Some("system"));
}

#[test]
fn maps_request_to_deepseek_chat_body() {
    let mut request = LlmRequest::new("deepseek-v4-flash");
    request.instructions = Some("system prompt".to_string());
    request.input.push(user_text_item("hello"));
    request.tools.push(
        ToolSchema::new(
            "search",
            "Search docs",
            json(r#"{"type":"object","required":["query"],"properties":{"query":{"type":"string"}}}"#),
        )
        .unwrap(),
    );

    let body = DeepSeekChatProvider::request_body(&request).unwrap();

    assert_eq!(at(&body, "model").as_str(), Some("deepseek-v4-flash"));
    let messages = at(&body, "messages");
    assert_eq!(at(nth(messages, 0), "role").as_str(), Some("system"));
    assert_eq!(at(nth(messages, 1), "content").as_str(), Some("hello"));
    assert_eq!(at(at(nth(at(&body, "tools"), 0), "function"), "name").as_str(), Some("search"));
}

#[test]
fn maps_tool_call_and_tool_result_messages() {
    let mut request = LlmRequest::new("deepseek-v4-flash");
    request.input.push(LlmInputItem::Message {
        role: LlmMessageRole::Assistant,
        content: vec![LlmContentPart::Reasoning { text: "need a tool".to_string() }],
        metadata: Vec::new(),
    });
    request.input.push(LlmInputItem::FunctionCall {
        call_id: "call-1".to_string(),
        name: "search".to_string(),
        arguments: json(r#"{"query":"rust"}"#),
    });
    request.input.push(LlmInputItem::FunctionCallOutput { call_id: "call-1".to_string(), output: json(r#"{"answer":42}"#), is_error: false });

    let body = DeepSeekChatProvider::request_body(&request).unwrap();

    let messages = at(&body, "messages");
    assert_eq!(at(nth(messages, 0), "role").as_str(), Some("assistant"));
    assert_eq!(at(nth(messages, 0), "reasoning_content").as_str(), Some("need a tool"));
    assert_eq!(at(nth(at(nth(messages, 0), "tool_calls"), 0), "id").as_str(), Some("call-1"));
    assert_eq!(at(nth(messages, 1), "role").as_str(), Some("tool"));
    assert_eq!(at(nth(messages, 1), "tool_call_id").as_str(), Some("call-1"));
}

#[test]
fn deepseek_request_without_messages_is_refused() {
    let request = LlmRequest::new("deepseek-v4-flash");
    assert!(matches!(DeepSeekChatProvider::request_body(&request), Err(AgentCoreError::InvalidInput(_))));
}

#[test]
fn maps_stream_reasoning_and_usage() {
    let reasoning = DeepSeekChatProvider::stream_event_from_value(&json(r#"{"choices":[{"delta":{"reasoning_content":"think"}}]}"#)).unwrap();
    assert_eq!(reasoning, Some(LlmStreamEvent::ReasoningDelta { text: "think".to_string() }));

    let usage =
        DeepSeekChatProvider::stream_event_from_value(&json(r#"{"usage":{"prompt_tokens":2,"completion_tokens":3,"total_tokens":5}}"#))
            .unwrap();
    assert_eq!(usage, Some(LlmStreamEvent::Usage { usage: LlmUsage { input_tokens: 2, output_tokens: 3, total_tokens: 5 } }));
}

#[test]
fn maps_whole_response_into_events() {
    let events = DeepSeekChatProvider::response_events_from_value(&json(
        r#"{"id":"r1","choices":[{"message":{"content":"hi","tool_calls":[{"id":"c1","function":{"name":"search","arguments":"{\"q\":1}"}}]}}],"usage":{"prompt_tokens":1,"completion_tokens":2,"total_tokens":3}}"#,
    ))
    .unwrap();
    assert_eq!(events.len(), 5);
    assert_eq!(events[0], LlmStreamEvent::ResponseCreated { response_id: "r1".to_string() });
    assert_eq!(events[1], LlmStreamEvent::TextDelta { text: "hi".to_string() });
    assert_eq!(
        events[2],
        LlmStreamEvent::ToolCallCompleted { call_id: "c1".to_string(), name: "search".to_string(), arguments: json(r#"{"q":1}"#) }
    );
    assert_eq!(events[3], LlmStreamEvent::Usage { usage: LlmUsage { input_tokens: 1, output_tokens: 2, total_tokens: 3 } });
    assert_eq!(events[4], LlmStreamEvent::Completed { response_id: Some("r1".to_string()) });
}

#[test]
fn whole_response_with_unnamed_tool_call_is_refused() {
    let result = DeepSeekChatProvider::response_events_from_value(&json(r#"{"choices":[{"message":{"tool_calls":[{"id":"c1","function":{}}]}}]}"#));
    assert!(result.is_err());
}

#[test]
fn prepare_request_redacts_debug_and_adds_auth_header() {
    let provider = DeepSeekChatProvider::new().with_api_key("secret");
    assert!(provider.debug_text().contains("<redacted>"));
    assert!(!provider.debug_text().contains("secret"));

    let mut request = LlmRequest::new("deepseek-v4-flash");
    request.input.push(user_text_item("hello"));

    let prepared = provider.prepare_request(&request).unwrap();
    assert_eq!(prepared.endpoint, DEEPSEEK_DEFAULT_ENDPOINT);
    assert_eq!(header(&prepared.headers, "Authorization"), Some(&"Bearer secret".to_string()));
}

#[test]
fn maps_tool_result_to_function_call_output() {
    let mut request = LlmRequest::new("gpt-test");
    request.push_message(
        RunMessage::tool(vec![ContentBlock::tool_result("call-1", Some("search".to_string()), json(r#"{"answer":42}"#), false)]).unwrap(),
    );

    let body = OpenAiResponsesProvider::request_body(&request).unwrap();
    let item = nth(at(&body, "input"), 0);
    assert_eq!(at(item, "type").as_str(), Some("function_call_output"));
    assert_eq!(at(item, "call_id").as_str(), Some("call-1"));
    assert_eq!(at(item, "output").as_str(), Some("{\"answer\":42}"));
}

#[test]
fn serializes_json_compactly() {
    assert_eq!(to_text(&json(r#"{ "b": 1, "a": [true, null] }"#)), r#"{"a":[true,null],"b":1}"#);
}

struct MockProvider;

impl LlmProvider for MockProvider {
    fn provider_id(&self) -> &str {
        "mock"
    }

    fn api(&self) -> &str {
        "mock_api"
    }

    fn prepare_request(&self, _request: &LlmRequest) -> agent_core::error::AgentCoreResult<PreparedLlmRequest> {
        Ok(PreparedLlmRequest {
            provider: "mock".to_string(),
            api: "mock_api".to_string(),
            endpoint: "mock://local".to_string(),
            headers: Vec::new(),
            body: json("{}"),
            metadata: Vec::new(),
        })
    }
}

#[test]
fn resolves_provider_from_model_api() {
    let mut registry = LlmRegistry::new();
    registry.register_provider(MockProvider).unwrap();
    registry.register_model(LlmModel::new("mock-model", "mock", LlmApi::Custom("mock_api".to_string()))).unwrap();

    let request = LlmRequest::new("mock-model");
    let provider = registry.provider_for_request(&request).unwrap();
    assert_eq!(provider.provider_id(), "mock");
}

#[test]
fn registry_refuses_duplicates_and_missing_models() {
    let mut registry = LlmRegistry::new();
    registry.register_provider(MockProvider).unwrap();
    assert!(matches!(registry.register_provider(MockProvider), Err(AgentCoreError::InvalidConfig(_))));
    registry.register_model(LlmModel::new("m", "mock", LlmApi::Custom("mock_api".to_string()))).unwrap();
    match registry.register_model(LlmModel::new("m", "mock", LlmApi::Custom("mock_api".to_string()))) {
        Err(AgentCoreError::InvalidConfig(t)) => assert_eq!(t, "model `m` already registered"),
        _ => panic!("duplicate model accepted"),
    }
    match registry.provider_for_request(&LlmRequest::new("absent")) {
        Err(AgentCoreError::NotFound(t)) => assert_eq!(t, "model `absent` not found"),
        _ => panic!("missing model accepted"),
    }
}

#[test]
fn llm_provider_and_registry_public_api_contract() {
    let mut registry = LlmRegistry::new();
    registry.register_provider(MockProvider).unwrap();
    registry.register_model(LlmModel::new("contract-model", "mock", LlmApi::Custom("mock_api".to_string()))).unwrap();
    let request = LlmRequest::new("contract-model");
    assert_eq!(
        registry.model(&agent_core::llm_model::ModelId::from("contract-model")).unwrap().provider,
        "mock"
    );
    assert_eq!(registry.provider_for_request(&request).unwrap().provider_id(), "mock");
    assert_eq!(registry.provider_by_api("mock_api").unwrap().api(), "mock_api");

    let openai_model = OpenAiResponsesProvider::default_model("gpt-contract");
    assert_eq!(openai_model.api.as_key(), "openai_responses");
    let mut openai_request = LlmRequest::new("gpt-contract");
    openai_request.input.push(user_text_item("hello"));
    let openai = OpenAiResponsesProvider::new().with_endpoint("http://127.0.0.1/responses");
    let prepared_openai = openai.prepare_request(&openai_request).unwrap();
    assert_eq!(prepared_openai.endpoint, "http://127.0.0.1/responses");
    assert_eq!(
        OpenAiResponsesProvider::stream_event_from_value(&json(
            r#"{"type": "response.output_text.delta", "delta": "hi"}"#
        ))
        .unwrap(),
        Some(LlmStreamEvent::TextDelta { text: "hi".to_string() })
    );

    let deepseek_model = DeepSeekChatProvider::default_model("deepseek-contract");
    assert_eq!(deepseek_model.api.as_key(), "deepseek_chat");
    let deepseek = DeepSeekChatProvider::new().with_endpoint("http://127.0.0.1/chat").with_api_key("fixture-key");
    let mut chat_request = LlmRequest::new("deepseek-contract");
    chat_request.input.push(user_text_item("hello"));
    let prepared_chat = deepseek.prepare_request(&chat_request).unwrap();
    assert_eq!(header(&prepared_chat.headers, "Authorization"), Some(&"Bearer fixture-key".to_string()));
    assert!(DeepSeekChatProvider::response_events_from_value(&json(
        r#"{"id": "chatcmpl-1", "choices": [{"message": {"content": "done"}}],
            "usage": {"prompt_tokens": 1, "completion_tokens": 2, "total_tokens": 3}}"#
    ))
    .unwrap()
    .iter()
    .any(|event| matches!(event, LlmStreamEvent::Completed { .. })));

    let stream = vec![
        LlmStreamEvent::PreparedRequest { provider: "mock".to_string(), body: json("{}") },
        LlmStreamEvent::Usage { usage: LlmUsage { input_tokens: 1, output_tokens: 2, total_tokens: 3 } },
    ];
    assert!(matches!(stream.into_iter().next().unwrap(), LlmStreamEvent::PreparedRequest { .. }));

    let provider_service = registry.provider_by_api("mock_api").unwrap();
    assert_eq!(provider_service.prepare_request(&LlmRequest::new("contract-model")).unwrap().api, "mock_api");
    let provider_stream =
        agent_core::llm_request::prepared_stream(MockProvider.prepare_request(&LlmRequest::new("contract-model")).unwrap());
    assert!(matches!(provider_stream.into_iter().next().unwrap(), LlmStreamEvent::PreparedRequest { .. }));
}

#[test]
fn message_input_event_and_context_public_api_contract() {
    let text_message = text_message("hello").unwrap();
    let content_message = content_blocks_message(vec![ContentBlock::text("blocks")]).unwrap();
    let file_message =
        file_reference_message("file:///tmp/a.txt", Some("text/plain".to_string()), Some("a.txt".to_string())).unwrap();
    let image_message =
        image_reference_message("screen://current", Some("image/png".to_string()), Some("current screen".to_string()))
            .unwrap();
    let audio_message = audio_reference_message("file:///tmp/a.wav", Some("audio/wav".to_string())).unwrap();
    assert_eq!(text_message.role, MessageRole::User);
    assert_eq!(content_message.content.len(), 1);
    assert_eq!(file_message.content.len(), 1);
    assert_eq!(image_message.content.len(), 1);
    assert_eq!(audio_message.content.len(), 1);

    let mut text_block = ContentBlock::text("hel");
    assert!(text_block.append_text("lo"));
    assert_eq!(text_block, ContentBlock::text("hello"));
    assert!(ContentBlock::text("").is_empty_text_like());
    let blocks = vec![
        ContentBlock::reasoning("because"),
        ContentBlock::tool_call("call-1", "contract_read", json("{}")),
        ContentBlock::tool_result("call-1", Some("contract_read".to_string()), json("{}"), false),
        ContentBlock::file_reference("file:///tmp/a.txt", None, None),
        ContentBlock::image_reference("screen://current", None, None),
        ContentBlock::audio_reference("file:///tmp/a.wav", None),
        ContentBlock::diagnostic(DiagnosticLevel::Info, "info"),
        ContentBlock::custom(json(r#"{"kind": "custom"}"#)),
    ];
    assert_eq!(blocks.len(), 8);
    let _diagnostic_levels =
        [DiagnosticLevel::Debug, DiagnosticLevel::Info, DiagnosticLevel::Warning, DiagnosticLevel::Error];

    let mut streaming = RunMessage::streaming(MessageRole::Assistant);
    streaming.push_content(ContentBlock::text("done"));
    streaming.finalize().unwrap();
    assert_eq!(streaming.status, MessageStatus::Finalized);
    streaming.abort();
    assert_eq!(streaming.status, MessageStatus::Aborted);

    let mut sourced = RunMessage::assistant(vec![ContentBlock::text("answer")])
        .unwrap()
        .with_source_node_id("node-a")
        .with_provider_response_id("resp-1")
        .with_usage(agent_core::message::MessageUsage { input_tokens: 1, output_tokens: 2, total_tokens: 3 })
        .with_metadata("k", Json::str_of("v"));
    sourced.set_source_node_id_if_empty("node-b");
    assert_eq!(sourced.source_node_id.as_deref(), Some("node-a"));
    assert_eq!(sourced.provider_response_id.as_deref(), Some("resp-1"));
    assert_eq!(sourced.usage.unwrap().total_tokens, 3);
    assert_eq!(
        sourced.metadata.iter().find(|(k, _)| k == "k").map(|(_, v)| v),
        Some(&Json::str_of("v"))
    );
    assert_eq!(
        RunMessage::diagnostic(vec![ContentBlock::diagnostic(DiagnosticLevel::Debug, "debug")]).unwrap().role,
        MessageRole::Diagnostic
    );

    let mut assistant = AssistantBuilder::new();
    assistant.push_reasoning_delta("think");
    assistant.push_text_delta("answer");
    assistant.push_tool_call("call-2", "contract_read", json("{}"));
    assistant.push_diagnostic(DiagnosticLevel::Info, "trace");
    assert_eq!(assistant.snapshot().status, MessageStatus::Streaming);
    let assistant_message = assistant.finish().unwrap();
    assert_eq!(assistant_message.role, MessageRole::Assistant);

    let mut log = agent_core::event::EventLog::new();
    let run_id = agent_core::sys::new_id();
    log.push(agent_core::event::CoreEvent::HookEmitted { name: "contract".to_string(), data: json(r#"{"ok": true}"#) });
    log.extend(vec![agent_core::event::CoreEvent::Error {
        run_id: Some(run_id),
        message: "recoverable".to_string(),
        recoverable: true,
    }]);
    assert_eq!(log.events().len(), 2);
    assert_eq!(log.into_events().len(), 2);

    let definition = AgentDefinitionBuilder::new()
        .name("contract-agent")
        .system_prompt("Follow the contract test.")
        .build()
        .unwrap();
    let mut context_input = ContextBuildInput::new("contract-model");
    context_input.api = Some("mock_api".to_string());
    context_input.instructions_override = Some("override".to_string());
    context_input.messages = vec![text_message.clone(), assistant_message.clone()];
    context_input.visible_tool_schemas = vec![ToolSchema::empty_object("contract_read", "Read state").unwrap()];
    context_input.options = agent_core::llm_request::LlmRequestOptions {
        temperature: Some(agent_core::json::JsonNumber::Float("0.1".to_string())),
        max_output_tokens: Some(64),
        parallel_tool_calls: Some(true),
        store: true,
        previous_response_id: Some("prev".to_string()),
    };
    context_input.include_diagnostics = true;
    context_input.metadata.push(("m".to_string(), Json::str_of("contract")));

    let llm_request = ContextBuilder::new().build(&definition, context_input).unwrap();
    assert_eq!(llm_request.model.as_str(), "contract-model");
    assert_eq!(llm_request.api.as_deref(), Some("mock_api"));
    assert_eq!(llm_request.instructions.as_deref(), Some("override"));
    assert_eq!(llm_request.tools.len(), 1);
    assert!(llm_request.messages.len() >= 2);

    let mut direct_request = LlmRequest::new("contract-model");
    direct_request.instructions = Some("instructions".to_string());
    direct_request.input.push(LlmInputItem::Message {
        role: LlmMessageRole::User,
        content: vec![
            LlmContentPart::Text { text: "hello".to_string() },
            LlmContentPart::Reasoning { text: "reason".to_string() },
            LlmContentPart::Json { value: json("{}") },
            LlmContentPart::ImageRef { uri: "screen://current".to_string() },
            LlmContentPart::FileRef { uri: "file:///tmp/a.txt".to_string() },
            LlmContentPart::Diagnostic { message: "diag".to_string() },
            LlmContentPart::Custom { value: json(r#"{"x": true}"#) },
        ],
        metadata: Vec::new(),
    });
    direct_request.input.push(LlmInputItem::FunctionCall {
        call_id: "call-1".to_string(),
        name: "contract_read".to_string(),
        arguments: json("{}"),
    });
    direct_request.input.push(LlmInputItem::Custom { value: json(r#"{"type": "custom"}"#) });
    assert_eq!(direct_request.model, agent_core::llm_model::ModelId::from("contract-model"));
}

#[test]
fn admitting_an_api_refuses_blank_and_taken_names() {
    let mut registry = LlmRegistry::new();
    assert!(registry.admit_api("mock_api").is_ok());
    match registry.admit_api("  ") {
        Err(AgentCoreError::InvalidConfig(t)) => assert_eq!(t, "llm provider api must not be empty"),
        _ => panic!("blank api admitted"),
    }
    registry.register_provider(MockProvider).unwrap();
    match registry.admit_api("mock_api") {
        Err(AgentCoreError::InvalidConfig(t)) => assert_eq!(t, "llm provider api `mock_api` already registered"),
        _ => panic!("taken api admitted"),
    }
    assert!(registry.register_provider(MockProvider).is_err());
}
