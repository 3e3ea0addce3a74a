use agent_core::definition::{AgentDefinitionBuilder, ToolVisibility};
use agent_core::error::{AgentCoreError, AgentCoreResult};
use agent_core::json::{parse_text, to_text, Json};
use agent_core::message::{ContentBlock, MessageRole};
use agent_core::tool::{
    AllowAllToolPermissionPolicy, ToolCapabilities, ToolExecutionMetadata, ToolResultContent, ToolResultPolicy,
    Tool, ToolInvocation, ToolMetadata, ToolOutput, ToolPermissionContext, ToolPermissionDecision, ToolPermissionPolicy, ToolResult,
    ToolResultStatus,
};
use agent_core::tool_registry::{ToolAdapter, ToolAdapterRegistry, ToolCall, ToolExecutor, ToolRegistry};
use agent_core::tool_schema::ToolSchema;
use std::sync::Arc;

fn json(text: &str) -> Json {
    parse_text(text).unwrap()
}

#[derive(Debug)]
struct NamedTool {
    metadata: ToolMetadata,
}

impl NamedTool {
    fn new(name: &str, visibility: ToolVisibility) -> Self {
        Self { metadata: ToolMetadata::new(ToolSchema::empty_object(name, &format!("{name} tool")).unwrap(), visibility) }
    }
}

impl Tool for NamedTool {
    fn metadata(&self) -> &ToolMetadata {
        &self.metadata
    }

    fn invoke(&self, invocation: ToolInvocation) -> AgentCoreResult<ToolOutput> {
        let mut output = Json::new_object();
        output.set("call_id", Json::str_of(&invocation.call_id));
        output.set("tool", Json::str_of(&invocation.tool_name));
        Ok(ToolOutput::new(output))
    }
}

#[derive(Debug)]
struct FailingTool {
    metadata: ToolMetadata,
}

impl Tool for FailingTool {
    fn metadata(&self) -> &ToolMetadata {
        &self.metadata
    }

    fn invoke(&self, _invocation: ToolInvocation) -> AgentCoreResult<ToolOutput> {
        Err(AgentCoreError::Recoverable("try later".to_string()))
    }
}

struct DenyAll;

impl ToolPermissionPolicy for DenyAll {
    fn decide(&self, _context: &ToolPermissionContext) -> AgentCoreResult<ToolPermissionDecision> {
        Ok(ToolPermissionDecision::Deny { reason: "not allowed".to_string() })
    }
}

#[test]
fn wraps_tool_result_as_tool_message_value() {
    let result = ToolResult::success("call-1", "search", json(r#"{"answer":42}"#));
    let message = result.to_run_message_value();
    assert_eq!(message.get("role").and_then(|v| v.as_str()), Some("tool"));
    let block = &message.get("content").unwrap().as_array().unwrap()[0];
    assert_eq!(block.get("type").and_then(|v| v.as_str()), Some("tool_result"));
    assert_eq!(block.get("call_id").and_then(|v| v.as_str()), Some("call-1"));
    assert_eq!(block.get("output"), Some(&json(r#"{"answer":42}"#)));
}

#[test]
fn wraps_tool_result_as_run_message() {
    let result = ToolResult::success("call-1", "search", json(r#"{"answer":42}"#));
    let message = result.into_run_message().unwrap();
    assert_eq!(message.role, MessageRole::Tool);
    assert_eq!(message.content, vec![ContentBlock::tool_result("call-1", Some("search".to_string()), json(r#"{"answer":42}"#), false)]);
}

#[test]
fn failed_result_serializes_its_error() {
    let result = ToolResult::failed("c", "t", "boom", false);
    assert!(result.is_error());
    assert_eq!(result.output_for_model(), Json::Str("boom".to_string()));
    let block = result.to_content_block_value();
    assert_eq!(to_text(block.get("error").unwrap()), r#"{"message":"boom","recoverable":false}"#);
    assert_eq!(block.get("status").and_then(|v| v.as_str()), Some("error"));
}

#[test]
fn resolves_visibility_from_agent_definition() {
    let mut registry = ToolRegistry::new();
    registry.register(NamedTool::new("search", ToolVisibility::Searchable)).unwrap();
    registry.register(NamedTool::new("edit", ToolVisibility::Hidden)).unwrap();
    let definition =
        AgentDefinitionBuilder::new().name("coder").system_prompt("prompt").tool_visibility("search", ToolVisibility::Direct).build().unwrap();

    let direct = registry.direct_schemas(&definition);
    assert_eq!(direct.len(), 1);
    assert_eq!(direct[0].name, "search");
    assert!(registry.get_for_agent(&definition, "edit").is_err());
}

#[test]
fn registry_refuses_duplicates_and_searches_case_insensitively() {
    let mut registry = ToolRegistry::new();
    registry.register(NamedTool::new("open_settings", ToolVisibility::Searchable)).unwrap();
    registry.register(NamedTool::new("battery", ToolVisibility::Searchable)).unwrap();
    match registry.register(NamedTool::new("battery", ToolVisibility::Direct)) {
        Err(AgentCoreError::InvalidConfig(t)) => assert_eq!(t, "tool `battery` already registered"),
        _ => panic!("duplicate tool accepted"),
    }
    assert_eq!(registry.names(), vec!["battery".to_string(), "open_settings".to_string()]);
    let definition = AgentDefinitionBuilder::new().name("a").system_prompt("p").build().unwrap();
    let found = registry.search(&definition, "  SETTINGS ", 10);
    assert_eq!(found.len(), 1);
    assert_eq!(found[0].name, "open_settings");
    assert_eq!(registry.search(&definition, "", 1).len(), 1);
    match registry.get_for_agent(&definition, "absent") {
        Err(AgentCoreError::NotFound(t)) => assert_eq!(t, "tool `absent` not found"),
        _ => panic!("missing tool found"),
    }
}

#[test]
fn parallel_batch_preserves_call_order() {
    let definition = AgentDefinitionBuilder::new()
        .name("parallel_agent")
        .system_prompt("prompt")
        .tool_visibility("a", ToolVisibility::Direct)
        .tool_visibility("b", ToolVisibility::Direct)
        .build()
        .unwrap();
    let mut registry = ToolRegistry::new();
    registry.register(NamedTool::new("a", ToolVisibility::Direct)).unwrap();
    registry.register(NamedTool::new("b", ToolVisibility::Direct)).unwrap();
    let executor = ToolExecutor::new(Arc::new(registry));

    let results = executor
        .execute_batch(&definition, vec![ToolCall::new("call-a", "a", json("{}")), ToolCall::new("call-b", "b", json("{}"))])
        .unwrap();

    assert_eq!(results[0].call_id, "call-a");
    assert_eq!(results[1].call_id, "call-b");
    assert_eq!(results[0].tool_name, "a");
    assert_eq!(results[1].tool_name, "b");
}

#[test]
fn denied_and_failed_calls_become_results() {
    let definition = AgentDefinitionBuilder::new().name("a").system_prompt("p").build().unwrap();
    let mut registry = ToolRegistry::new();
    registry
        .register(FailingTool { metadata: ToolMetadata::new(ToolSchema::empty_object("flaky", "Flaky tool").unwrap(), ToolVisibility::Direct) })
        .unwrap();
    let registry = Arc::new(registry);

    let failed = ToolExecutor::new(Arc::clone(&registry)).execute_one(&definition, ToolCall::new("c1", "flaky", json("{}"))).unwrap();
    assert_eq!(failed.status, ToolResultStatus::Error);
    assert_eq!(failed.error.as_ref().unwrap().message, "recoverable error: try later");
    assert!(failed.error.as_ref().unwrap().recoverable);

    let denied =
        ToolExecutor::with_permission_policy(Arc::clone(&registry), DenyAll).execute_one(&definition, ToolCall::new("c2", "flaky", json("{}"))).unwrap();
    assert_eq!(denied.status, ToolResultStatus::Denied);

    let bad_args = ToolExecutor::new(registry).execute_one(&definition, ToolCall::new("c3", "flaky", json("[]")));
    assert!(matches!(bad_args, Err(AgentCoreError::InvalidInput(_))));
}

#[test]
fn permission_decisions_give_arguments() {
    assert_eq!(ToolPermissionDecision::Passthrough.allowed_arguments(Json::Bool(true)), Some(Json::Bool(true)));
    assert_eq!(
        ToolPermissionDecision::Allow { arguments: Some(Json::Null) }.allowed_arguments(Json::Bool(true)),
        Some(Json::Null)
    );
    assert_eq!(ToolPermissionDecision::Ask { reason: "?".to_string() }.allowed_arguments(Json::Bool(true)), None);
}

struct Adapter(&'static str);

impl ToolAdapter for Adapter {
    fn adapter_name(&self) -> &str {
        self.0
    }

    fn load_tools(&self) -> AgentCoreResult<Vec<Box<dyn Tool>>> {
        Ok(vec![Box::new(NamedTool::new("x", ToolVisibility::Direct))])
    }
}

#[test]
fn adapter_registry_refuses_blank_and_duplicate_names() {
    let mut adapters = ToolAdapterRegistry::new();
    adapters.register(Adapter("mcp")).unwrap();
    assert!(matches!(adapters.register(Adapter(" ")), Err(AgentCoreError::InvalidConfig(_))));
    assert!(matches!(adapters.register(Adapter("mcp")), Err(AgentCoreError::InvalidConfig(_))));
    assert_eq!(adapters.load_all().unwrap().len(), 1);
}

#[test]
fn empty_batches_and_adapter_sets_give_nothing() {
    let definition = AgentDefinitionBuilder::new().name("a").system_prompt("p").build().unwrap();
    let executor = ToolExecutor::new(Arc::new(ToolRegistry::new()));
    assert!(executor.execute_batch(&definition, Vec::new()).unwrap().is_empty());
    assert!(executor.execute_batch_messages(&definition, Vec::new()).unwrap().is_empty());
    let unknown = vec![ToolCall::new("c1", "missing", parse_text("{}").unwrap())];
    assert!(matches!(executor.execute_batch(&definition, unknown), Err(AgentCoreError::NotFound(_))));
    assert!(ToolAdapterRegistry::new().load_all().unwrap().is_empty());
}

#[derive(Debug)]
struct ContractTool {
    metadata: ToolMetadata,
}

impl ContractTool {
    fn new(name: &str, visibility: ToolVisibility, preexecutable: bool) -> Self {
        let mut metadata =
            ToolMetadata::new(ToolSchema::empty_object(name, &format!("{name} contract tool")).unwrap(), visibility);
        metadata.capabilities.read_only = preexecutable;
        metadata.capabilities.idempotent = preexecutable;
        metadata.execution.timeout_ms = Some(1_000);
        Self { metadata }
    }
}

impl Tool for ContractTool {
    fn metadata(&self) -> &ToolMetadata {
        &self.metadata
    }

    fn invoke(&self, invocation: ToolInvocation) -> AgentCoreResult<ToolOutput> {
        let mut out = Json::new_object();
        out.set("tool", Json::str_of(&invocation.tool_name));
        out.set("call_id", Json::str_of(&invocation.call_id));
        out.set("arguments", invocation.arguments);
        let mut output = ToolOutput::new(out);
        output.metadata.push(("contract".to_string(), Json::Bool(true)));
        Ok(output)
    }
}

struct ContractAdapter;

impl ToolAdapter for ContractAdapter {
    fn adapter_name(&self) -> &str {
        "contract_adapter"
    }

    fn load_tools(&self) -> AgentCoreResult<Vec<Box<dyn Tool>>> {
        Ok(vec![Box::new(ContractTool::new("adapter_tool", ToolVisibility::Direct, true))])
    }
}

fn contract_tool_definition() -> agent_core::definition::AgentDefinition {
    AgentDefinitionBuilder::new()
        .name("contract-agent")
        .system_prompt("Follow the contract test.")
        .tool_visibility("contract_read", ToolVisibility::Direct)
        .tool_visibility("contract_search", ToolVisibility::Searchable)
        .tool_visibility("contract_hidden", ToolVisibility::Hidden)
        .build()
        .unwrap()
}

#[test]
fn tool_public_api_contract() {
    agent_core::tool_schema::validate_tool_name("contract_read").unwrap();
    let schema = ToolSchema::new(
        "contract_read",
        "Read a stable value.",
        json(
            r#"{"type": "object", "required": ["query"], "properties": {"query": {"type": "string"}},
                "additionalProperties": false}"#,
        ),
    )
    .unwrap()
    .with_output_schema(json(r#"{"type": "object"}"#))
    .with_annotation("strict", Json::Bool(true));
    schema.validate_metadata().unwrap();
    schema.validate_arguments(&json(r#"{"query": "state"}"#)).unwrap();
    assert_eq!(schema.to_function_tool_schema().get("name").and_then(|v| v.as_str()), Some("contract_read"));

    let empty_schema = ToolSchema::empty_object("empty_tool", "No arguments").unwrap();
    empty_schema.validate_arguments(&json("{}")).unwrap();

    let mut metadata = ToolMetadata::new(empty_schema, ToolVisibility::Direct);
    assert_eq!(metadata.name(), "empty_tool");
    assert!(!metadata.can_preexecute());
    metadata.capabilities = ToolCapabilities {
        read_only: true,
        idempotent: true,
        destructive: false,
        requires_network: false,
        supports_streaming: false,
    };
    metadata.execution = ToolExecutionMetadata {
        timeout_ms: Some(2_000),
        interruptible: true,
        result_policy: ToolResultPolicy::ReturnSummary,
    };
    assert!(metadata.can_preexecute());

    let invocation = ToolInvocation::new("manual-call", "contract_read", json(r#"{"query": "x"}"#));
    assert_eq!(invocation.tool_name, "contract_read");
    assert_eq!(ToolOutput::new(json(r#"{"ok": true}"#)).output.get("ok"), Some(&Json::Bool(true)));

    let definition = contract_tool_definition();
    let mut registry = ToolRegistry::new();
    registry.register(ContractTool::new("contract_read", ToolVisibility::Direct, true)).unwrap();
    registry.register(ContractTool::new("contract_search", ToolVisibility::Searchable, false)).unwrap();
    registry.register(ContractTool::new("contract_hidden", ToolVisibility::Hidden, false)).unwrap();

    assert!(registry.names().contains(&"contract_read".to_string()));
    assert!(registry.get("contract_read").is_some());
    assert_eq!(registry.direct_schemas(&definition).len(), 1);
    assert_eq!(registry.search(&definition, "search", 5)[0].name, "contract_search");
    assert_eq!(
        registry.visibility_for_agent(&definition, registry.get("contract_hidden").unwrap().metadata()),
        ToolVisibility::Hidden
    );
    assert!(registry.get_for_agent(&definition, "contract_hidden").is_err());

    let executor = ToolExecutor::new(Arc::new(registry));
    let result = executor
        .execute_one(&definition, ToolCall::new("call-1", "contract_read", json(r#"{"query": "state"}"#)))
        .unwrap();
    assert_eq!(result.status, ToolResultStatus::Success);
    assert!(!result.is_error());
    assert_eq!(result.output_for_model().get("tool").and_then(|v| v.as_str()), Some("contract_read"));
    assert_eq!(result.to_content_block_value().get("tool_name").and_then(|v| v.as_str()), Some("contract_read"));
    assert_eq!(result.to_run_message_value().get("role").and_then(|v| v.as_str()), Some("tool"));
    assert_eq!(result.into_run_message().unwrap().role, MessageRole::Tool);

    let batch = executor
        .execute_batch(
            &definition,
            vec![
                ToolCall::new("call-2", "contract_read", json(r#"{"query": "a"}"#)),
                ToolCall::new("call-3", "contract_read", json(r#"{"query": "b"}"#)),
            ],
        )
        .unwrap();
    assert_eq!(batch.len(), 2);
    assert_eq!(batch[0].call_id, "call-2");

    let denied = ToolResult::denied("call-4", "contract_read", "not allowed");
    let failed = ToolResult::failed("call-5", "contract_read", "boom", true);
    assert!(denied.is_error());
    assert!(failed.is_error());
    assert_eq!(ToolResultContent::Text("text".to_string()).to_value(), Json::str_of("text"));

    let mut adapters = ToolAdapterRegistry::new();
    adapters.register(ContractAdapter).unwrap();
    assert_eq!(adapters.load_all().unwrap().len(), 1);

    let permission_context =
        ToolPermissionContext::new("contract-agent", "call-6", "contract_read", json(r#"{"query": "state"}"#));
    assert_eq!(
        ToolPermissionDecision::Passthrough.allowed_arguments(permission_context.arguments.dup()),
        Some(json(r#"{"query": "state"}"#))
    );
    assert!(matches!(
        AllowAllToolPermissionPolicy.decide(&permission_context).unwrap(),
        ToolPermissionDecision::Allow { arguments: None }
    ));
    assert_eq!(
        ToolPermissionDecision::Deny { reason: "blocked".to_string() }.allowed_arguments(json("{}")),
        None
    );
}

#[test]
fn arguments_the_schema_refuses_are_refused_before_the_policy() {
    let definition = AgentDefinitionBuilder::new().name("agent").system_prompt("prompt").build().unwrap();
    let mut registry = ToolRegistry::new();
    let schema = ToolSchema::new(
        "needs_query",
        "Needs a query.",
        json(r#"{"type": "object", "required": ["query"], "properties": {"query": {"type": "string"}}}"#),
    )
    .unwrap();
    registry.register(ContractTool { metadata: ToolMetadata::new(schema, ToolVisibility::Direct) }).unwrap();
    let executor = ToolExecutor::with_permission_policy(Arc::new(registry), DenyAll);
    match executor.execute_one(&definition, ToolCall::new("c1", "needs_query", json("{}"))) {
        Err(AgentCoreError::InvalidInput(t)) => assert_eq!(t, "tool `needs_query` missing required argument `query`"),
        other => panic!("unexpected {other:?}"),
    }
    match executor.execute_one(&definition, ToolCall::new("c2", "needs_query", json("[]"))) {
        Err(AgentCoreError::InvalidInput(t)) => assert_eq!(t, "tool `needs_query` arguments must be a JSON object"),
        other => panic!("unexpected {other:?}"),
    }
    let denied = executor.execute_one(&definition, ToolCall::new("c3", "needs_query", json(r#"{"query": "q"}"#))).unwrap();
    assert_eq!(denied.status, ToolResultStatus::Denied);
}

#[test]
fn registering_the_pack_into_an_empty_registry_gives_its_seventeen_names() {
    let mut registry = ToolRegistry::new();
    agent_core::mobile_tools::register_mobilerun_tools(&mut registry).unwrap();
    assert_eq!(registry.names().len(), agent_core::mobile_prompt::expected_action_count());
    assert_eq!(agent_core::mobile_tools::tool_specs().unwrap().len(), 17);
}

#[test]
fn direct_and_searchable_tools_follow_the_agent_visibility() {
    let definition = contract_tool_definition();
    let mut registry = ToolRegistry::new();
    registry.register(ContractTool::new("contract_read", ToolVisibility::Direct, true)).unwrap();
    registry.register(ContractTool::new("contract_search", ToolVisibility::Searchable, false)).unwrap();
    registry.register(ContractTool::new("contract_hidden", ToolVisibility::Hidden, false)).unwrap();
    let direct = registry.direct_tools(&definition);
    assert_eq!(direct.len(), 1);
    assert_eq!(direct[0].metadata().name(), "contract_read");
    let searchable = registry.searchable_tools(&definition);
    assert_eq!(searchable.len(), 1);
    assert_eq!(searchable[0].metadata().name(), "contract_search");
}
