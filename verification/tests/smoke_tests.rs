use agent_core::agent_smoke::{
    answer_without_tools, assistant_turn_from_events, chat_endpoint_for, default_definition, map_core_error, normalize_json_object,
    prepare_chat_request, AgentError, LoopStep, ToolCatalog, ToolLoop, ToolTrace,
};
use agent_core::error::AgentCoreError;
use agent_core::json::{parse_text, Json};
use agent_core::llm_request::{LlmStreamEvent, LlmUsage};
use agent_core::message::{ContentBlock, RunMessage};

fn json(text: &str) -> Json {
    parse_text(text).unwrap()
}

#[test]
fn assistant_turn_preserves_usage() {
    let turn = assistant_turn_from_events(vec![
        LlmStreamEvent::TextDelta { text: "done".to_string() },
        LlmStreamEvent::Usage { usage: LlmUsage { input_tokens: 10, output_tokens: 3, total_tokens: 13 } },
    ])
    .unwrap();

    assert_eq!(turn.usage.unwrap().total_tokens, 13);
    assert_eq!(turn.message.usage.unwrap().input_tokens, 10);
}

#[test]
fn assistant_turn_collects_text_and_tool_calls() {
    let turn = assistant_turn_from_events(vec![
        LlmStreamEvent::ReasoningDelta { text: "think".to_string() },
        LlmStreamEvent::TextDelta { text: "a".to_string() },
        LlmStreamEvent::TextDelta { text: "b".to_string() },
        LlmStreamEvent::ToolCallCompleted { call_id: "c1".to_string(), name: "t".to_string(), arguments: json("{}") },
    ])
    .unwrap();
    assert_eq!(turn.answer, "ab");
    assert_eq!(turn.tool_calls.len(), 1);
    assert_eq!(turn.message.content.len(), 3);
    assert_eq!(turn.message.content[1], ContentBlock::text("ab"));
}

#[test]
fn provider_error_event_refuses_the_turn() {
    let result = assistant_turn_from_events(vec![
        LlmStreamEvent::TextDelta { text: "partial".to_string() },
        LlmStreamEvent::Error { message: "overloaded".to_string(), recoverable: true },
    ]);
    assert_eq!(result.unwrap_err(), AgentError::Api { status: "provider_error".to_string(), body: "overloaded".to_string() });
}

#[test]
fn empty_turn_is_a_parse_error() {
    let result = assistant_turn_from_events(Vec::new());
    assert_eq!(
        result.unwrap_err(),
        AgentError::Parse { detail: "agent-core: invalid input: assistant message cannot be empty".to_string() }
    );
}

#[test]
fn tool_input_is_normalized() {
    assert_eq!(normalize_json_object("   ").unwrap(), "{}");
    assert_eq!(normalize_json_object(" {\"b\": 1, \"a\": 2} ").unwrap(), "{\"a\":2,\"b\":1}");
    assert_eq!(
        normalize_json_object("[1]").unwrap_err(),
        AgentError::Parse { detail: "tool input must be a JSON object: [1]".to_string() }
    );
    match normalize_json_object("{oops") {
        Err(AgentError::Parse { detail }) => assert!(detail.starts_with("tool input is invalid JSON: ") && detail.ends_with("; input={oops")),
        other => panic!("unexpected {other:?}"),
    }
}

#[test]
fn errors_describe_themselves() {
    assert_eq!(AgentError::StateLock.describe(), "Agent state lock is poisoned");
    assert_eq!(AgentError::Api { status: "500".to_string(), body: "x".to_string() }.describe(), "Model API returned 500: x");
    assert_eq!(
        map_core_error(AgentCoreError::NotFound("x".to_string())),
        AgentError::Parse { detail: "agent-core: not found: x".to_string() }
    );
}

#[test]
fn catalog_registers_replaces_and_checks_tools() {
    let mut catalog = ToolCatalog::new();
    catalog.register_tool("android_battery", "Battery level.", r#"{"type":"object"}"#).unwrap();
    catalog.register_tool("android_toast", "Show a toast.", r#"{"type":"object"}"#).unwrap();
    catalog.register_tool("android_battery", "Battery level, again.", r#"{"type":"object"}"#).unwrap();
    let tools = catalog.list_tools();
    assert_eq!(tools.len(), 2);
    assert_eq!(tools[0].description, "Battery level, again.");
    assert!(catalog.register_tool("bad", "x", "{").is_err());
    assert!(matches!(catalog.register_tool("", "x", "{}"), Err(AgentError::Parse { .. })));
    assert!(catalog.check_registered("android_toast").is_ok());
    assert_eq!(
        catalog.check_registered("nope").unwrap_err(),
        AgentError::Tool { detail: "tool is not registered: nope".to_string() }
    );
    assert_eq!(catalog.visible_tool_schemas().unwrap().len(), 2);
}

#[test]
fn default_definition_is_the_android_agent() {
    let definition = default_definition();
    assert_eq!(definition.name(), "android_agent");
    assert_eq!(definition.system_prompt(), "You are a concise helpful assistant.");
}

#[test]
fn chat_request_goes_to_the_completions_endpoint() {
    assert_eq!(chat_endpoint_for("http://host/v1//"), "http://host/v1/chat/completions");
    let history = vec![RunMessage::user_text("hi").unwrap()];
    let prepared = prepare_chat_request("http://host/v1/", "key", "m", &default_definition(), &history, true, &ToolCatalog::new()).unwrap();
    assert_eq!(prepared.endpoint, "http://host/v1/chat/completions");
    assert_eq!(prepared.provider, "deepseek");
    assert!(prepared.headers.iter().any(|(k, v)| k == "Authorization" && v == "Bearer key"));
}

fn turn(events: Vec<LlmStreamEvent>) -> agent_core::agent_smoke::AssistantTurn {
    assistant_turn_from_events(events).unwrap()
}

#[test]
fn tool_loop_runs_tools_then_answers() {
    let mut messages = vec![RunMessage::user_text("run the task").unwrap()];
    let mut tool_loop = ToolLoop::new(4);
    assert_eq!(tool_loop.limit, 4);
    let first = turn(vec![
        LlmStreamEvent::ToolCallCompleted { call_id: "call-1".to_string(), name: "android_map".to_string(), arguments: json(r#"{"cycles":6}"#) },
        LlmStreamEvent::Usage { usage: LlmUsage { input_tokens: 100, output_tokens: 10, total_tokens: 110 } },
    ]);
    let calls = match tool_loop.after_turn(&mut messages, first).unwrap() {
        LoopStep::RunTools(calls) => calls,
        LoopStep::Answered(_) => panic!("expected tool calls"),
    };
    assert_eq!(calls.len(), 1);
    for call in calls {
        let trace = ToolTrace { name: call.name.clone(), input_json: "{\"cycles\":6}".to_string(), output: "{\"ok\":true}".to_string() };
        tool_loop.after_tool(&mut messages, call, trace).unwrap();
    }
    let second = turn(vec![
        LlmStreamEvent::TextDelta { text: "done: 111 steps".to_string() },
        LlmStreamEvent::Usage { usage: LlmUsage { input_tokens: 80, output_tokens: 12, total_tokens: 92 } },
    ]);
    let response = match tool_loop.after_turn(&mut messages, second).unwrap() {
        LoopStep::Answered(response) => response,
        LoopStep::RunTools(_) => panic!("expected an answer"),
    };
    assert!(response.answer.contains("111 steps"));
    assert_eq!(response.tool_traces.len(), 1);
    assert_eq!(response.message_count, 4);
    assert_eq!(response.input_tokens, 180);
    assert_eq!(response.output_tokens, 22);
    assert_eq!(response.total_tokens, 202);
    assert_eq!(messages[2].content, vec![ContentBlock::tool_result("call-1", Some("android_map".to_string()), json(r#"{"ok":true}"#), false)]);
}

#[test]
fn tool_loop_limits_rounds() {
    assert_eq!(ToolLoop::new(0).limit, 1);
    assert_eq!(ToolLoop::new(1000).limit, 128);
    let tool_loop = ToolLoop::new(2);
    assert_eq!(tool_loop.exhausted(), AgentError::Tool { detail: "too many tool-call rounds: limit=2".to_string() });
}

#[test]
fn blank_answer_is_refused() {
    let mut messages = Vec::new();
    let blank = turn(vec![LlmStreamEvent::TextDelta { text: "  ".to_string() }]);
    assert_eq!(answer_without_tools(&mut messages, blank).unwrap_err(), AgentError::EmptyResponse);
    assert!(messages.is_empty());
    let fine = turn(vec![LlmStreamEvent::TextDelta { text: "hello".to_string() }]);
    let response = answer_without_tools(&mut messages, fine).unwrap();
    assert_eq!(response.message_count, 1);
    assert_eq!(response.total_tokens, 0);
}
