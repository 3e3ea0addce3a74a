use agent_core::definition::ToolVisibility;
use agent_core::json::{parse_text, Json};
use agent_core::mobile_prompt::expected_action_count;
use agent_core::mobile_tools::{redacted_arguments, register_mobilerun_tools, tool_specs, MobileMockTool};
use agent_core::tool::{Tool, ToolInvocation};
use agent_core::tool_registry::ToolRegistry;

fn json(text: &str) -> Json {
    parse_text(text).unwrap()
}

#[test]
fn tool_pack_matches_expected_surface_size() {
    assert_eq!(tool_specs().unwrap().len(), expected_action_count());
}

#[test]
fn registering_the_pack_adds_every_action_with_its_visibility() {
    let mut registry = ToolRegistry::new();
    register_mobilerun_tools(&mut registry).unwrap();
    assert_eq!(registry.names().len(), 17);
    let shell = registry.metadata_of("raw_adb_shell").unwrap();
    assert_eq!(shell.default_visibility, ToolVisibility::Hidden);
    assert!(shell.capabilities.destructive);
    let screenshot = registry.metadata_of("screenshot").unwrap();
    assert!(screenshot.capabilities.read_only && screenshot.capabilities.idempotent);
    assert_eq!(screenshot.execution.timeout_ms, Some(10_000));
    assert!(registry.metadata_of("search_database").unwrap().capabilities.requires_network);
    assert!(!registry.metadata_of("click").unwrap().capabilities.read_only);
    assert!(register_mobilerun_tools(&mut registry).is_err());
}

#[test]
fn secret_arguments_are_redacted() {
    let redacted = redacted_arguments("type_secret", json(r#"{"secret_id": "pin", "value": "1234"}"#));
    assert_eq!(redacted, json(r#"{"secret_id": "pin", "value": "<redacted>"}"#));
    let missing = redacted_arguments("type_secret", json(r#"{"value": "1234"}"#));
    assert_eq!(missing, json(r#"{"secret_id": "", "value": "<redacted>"}"#));
    let kept = redacted_arguments("type", json(r#"{"text": "hello"}"#));
    assert_eq!(kept, json(r#"{"text": "hello"}"#));
}

#[test]
fn mock_tool_answers_with_the_call_and_its_report() {
    let specs = tool_specs().unwrap();
    let spec = specs.into_iter().find(|s| s.schema.name == "type_secret").unwrap();
    let tool = MobileMockTool::new(spec.schema, spec.default_visibility);
    let output = tool
        .invoke(ToolInvocation::new("call-7", "type_secret", json(r#"{"secret_id": "pin", "value": "1234"}"#)))
        .unwrap();
    assert_eq!(
        output.output,
        json(
            r#"{"ok": true, "action": "type_secret", "call_id": "call-7",
                "arguments": {"secret_id": "pin", "value": "<redacted>"}, "redacted": true}"#
        )
    );
}
