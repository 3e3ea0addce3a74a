use agent_core::boundary::{
    mark_stability, order_by_stability, stability_order_labels, stable_prefix_id, ContextStability, KeyRoutePlan, SecretResolver,
    StaticSecretResolver,
};
use agent_core::definition::ToolVisibility;
use agent_core::error::AgentCoreError;
use agent_core::json::Json;
use agent_core::deepseek::DeepSeekChatProvider;
use agent_core::json::{dup_fields, json_dup, to_text};
use agent_core::llm_request::{LlmContentPart, LlmInputItem, LlmMessageRole, LlmProvider, LlmRequest};
use agent_core::message::{ContentBlock, RunMessage};
use agent_core::mobile_prompt::{default_tool_visibility, expected_action_count, render_template, ExecutionMode, MobileRunLikeConfig};

fn message(text: &str, stability: ContextStability) -> RunMessage {
    mark_stability(RunMessage::user(vec![ContentBlock::text(text)]).unwrap(), stability)
}

fn header<'a>(headers: &'a [(String, String)], name: &str) -> Option<&'a String> {
    headers.iter().find(|(k, _)| k == name).map(|(_, v)| v)
}

fn meta<'a>(fields: &'a [(String, Json)], name: &str) -> Option<&'a Json> {
    fields.iter().find(|(k, _)| k == name).map(|(_, v)| v)
}

#[test]
fn sorts_context_from_stable_to_volatile() {
    let ordered = order_by_stability(vec![
        message("screen", ContextStability::VolatileObservation),
        message("prefix", ContextStability::StablePrefix),
        message("task", ContextStability::TaskPackage),
    ]);

    assert_eq!(stability_order_labels(&ordered), vec!["stable_prefix", "task_package", "volatile_observation"]);
}

#[test]
fn equally_stable_messages_keep_their_order() {
    let a = message("a", ContextStability::TaskPackage);
    let b = RunMessage::user(vec![ContentBlock::text("b")]).unwrap();
    let c = message("c", ContextStability::TaskPackage);
    let ordered = order_by_stability(vec![a.clone(), b.clone(), c.clone()]);
    assert_eq!(ordered, vec![a, c, b]);
}

#[test]
fn stable_prefix_id_is_fnv_of_prompt_and_tools() {
    assert_eq!(stable_prefix_id("", &Vec::new()), "stable-prefix-af63bd4c8601b7df");
    let one = stable_prefix_id("prompt", &vec!["a".to_string()]);
    let two = stable_prefix_id("prompt", &vec!["b".to_string()]);
    assert!(one.starts_with("stable-prefix-"));
    assert_eq!(one.len(), "stable-prefix-".len() + 16);
    assert_ne!(one, two);
}

#[test]
fn stable_and_general_prefixes_route_to_different_key_slots() {
    let plan = KeyRoutePlan::new("stable-prefix-a");
    let resolver = StaticSecretResolver::new(vec![
        ("MOBILERUN_STABLE_PREFIX_API_KEY".to_string(), "stable-route-fixture".to_string()),
        ("MOBILERUN_GENERAL_POOL_API_KEY".to_string(), "general-route-fixture".to_string()),
    ]);

    let stable = plan.apply(LlmRequest::new("model"), "stable-prefix-a", &resolver).unwrap();
    let general = plan.apply(LlmRequest::new("model"), "volatile-prefix-b", &resolver).unwrap();

    assert_eq!(stable.account_label, "stable-prefix-account");
    assert_eq!(general.account_label, "general-pool-account");
    assert_ne!(header(&stable.request.headers, "Authorization"), header(&general.request.headers, "Authorization"));
    assert_eq!(header(&stable.request.headers, "Authorization"), Some(&"Bearer stable-route-fixture".to_string()));
    assert_eq!(meta(&stable.request.metadata, "key_route.prefix_id"), Some(&Json::Str("stable-prefix-a".to_string())));
}

#[test]
fn missing_key_is_refused() {
    let plan = KeyRoutePlan::new("p");
    let resolver = StaticSecretResolver::new(Vec::new());
    match plan.apply(LlmRequest::new("model"), "p", &resolver) {
        Err(AgentCoreError::InvalidConfig(t)) => assert_eq!(t, "missing API key environment variable: MOBILERUN_STABLE_PREFIX_API_KEY"),
        _ => panic!("missing key accepted"),
    }
    assert_eq!(resolver.resolve("X"), None);
}

#[test]
fn prompt_and_tool_pack_public_api_contract() {
    let config = MobileRunLikeConfig::boundary_default();
    assert!(config.render_user_prompt().contains("wireless charger"));
    assert!(config.render_system_prompt().contains("Use direct tools"));
    assert!(config.render_system_prompt().contains("Keep at most 30 steps."));

    let definition = config.agent_definition().unwrap();
    assert_eq!(definition.name(), "mobilerun_like_fast_agent");
    assert_eq!(definition.visibility_of("screenshot"), Some(ToolVisibility::Direct));

    let mut reasoning_config = MobileRunLikeConfig::boundary_default();
    reasoning_config.mode = ExecutionMode::Reasoning;
    let reasoning_definition =
        reasoning_config.agent_definition_with_tool_visibility(vec![("ui_state".to_string(), ToolVisibility::Direct)]).unwrap();
    assert_eq!(reasoning_definition.visibility_of("ui_state"), Some(ToolVisibility::Direct));
    assert!(reasoning_definition.system_prompt().contains("reasoning mobile automation"));

    let visibility = default_tool_visibility();
    assert_eq!(visibility.iter().find(|(k, _)| k == "raw_adb_shell").map(|(_, v)| *v), Some(ToolVisibility::Hidden));
    assert_eq!(visibility.len(), expected_action_count());
    assert_eq!(
        render_template("Open {{ app_name }}", &vec![("app_name".to_string(), "Demo Shop".to_string())]),
        "Open Demo Shop"
    );
}

#[test]
fn user_prompt_fills_goal_and_app() {
    let config = MobileRunLikeConfig::boundary_default();
    assert_eq!(
        config.render_user_prompt(),
        "Task:\nOpen the demo shop, search for wireless charger, remember the first result, then finish with a concise structured summary.\n\nTarget app: Demo Shop"
    );
}

fn chat_request() -> LlmRequest {
    let mut request = LlmRequest::new("mimo-v2.5-pro");
    request.instructions = Some("stable Android agent prefix".to_string());
    request.input.push(LlmInputItem::Message {
        role: LlmMessageRole::User,
        content: vec![LlmContentPart::Text { text: "observe current app state".to_string() }],
        metadata: Vec::new(),
    });
    request
}

#[test]
fn provider_prepare_keeps_route_keys_in_headers_not_metadata() {
    let stable_key = "stable-route-fixture";
    let general_key = "general-route-fixture";
    let plan = KeyRoutePlan::new("stable-prefix-a");
    let resolver = StaticSecretResolver::new(vec![
        ("MOBILERUN_STABLE_PREFIX_API_KEY".to_string(), stable_key.to_string()),
        ("MOBILERUN_GENERAL_POOL_API_KEY".to_string(), general_key.to_string()),
    ]);

    let stable = plan.apply(chat_request(), "stable-prefix-a", &resolver).unwrap();
    let general = plan.apply(chat_request(), "volatile-prefix-b", &resolver).unwrap();
    let provider = DeepSeekChatProvider::new().with_endpoint("http://127.0.0.1/mock-chat");

    let stable_prepared = provider.prepare_request(&stable.request).unwrap();
    let general_prepared = provider.prepare_request(&general.request).unwrap();

    assert_eq!(header(&stable_prepared.headers, "Authorization"), Some(&format!("Bearer {stable_key}")));
    assert_eq!(header(&general_prepared.headers, "Authorization"), Some(&format!("Bearer {general_key}")));
    assert_ne!(header(&stable_prepared.headers, "Authorization"), header(&general_prepared.headers, "Authorization"));

    assert_eq!(meta(&stable.request.metadata, "key_route.account"), Some(&Json::Str("stable-prefix-account".to_string())));
    assert_eq!(meta(&stable.request.metadata, "key_route.prefix_id"), Some(&Json::Str("stable-prefix-a".to_string())));
    assert_eq!(meta(&general.request.metadata, "key_route.account"), Some(&Json::Str("general-pool-account".to_string())));
    assert_eq!(meta(&general.request.metadata, "key_route.prefix_id"), Some(&Json::Str("volatile-prefix-b".to_string())));

    let stable_metadata = to_text(&Json::Object(dup_fields(&stable.request.metadata)));
    let general_metadata = to_text(&Json::Object(dup_fields(&general.request.metadata)));
    let stable_body = to_text(&json_dup(&stable_prepared.body));
    let general_body = to_text(&json_dup(&general_prepared.body));

    for serialized in [stable_metadata.as_str(), general_metadata.as_str(), stable_body.as_str(), general_body.as_str()] {
        assert!(!serialized.contains(stable_key));
        assert!(!serialized.contains(general_key));
    }
    assert!(stable_metadata.contains("MOBILERUN_STABLE_PREFIX_API_KEY"));
    assert!(general_metadata.contains("MOBILERUN_GENERAL_POOL_API_KEY"));
    assert!(stable_prepared.metadata.is_empty());
    assert!(general_prepared.metadata.is_empty());
}

#[test]
fn the_last_pair_for_a_name_wins_verbatim() {
    let resolver = StaticSecretResolver::new(vec![
        ("KEY_A".to_string(), "first".to_string()),
        ("KEY_B".to_string(), "other".to_string()),
        ("KEY_A".to_string(), "  ".to_string()),
    ]);
    assert_eq!(resolver.resolve("KEY_A"), Some("  ".to_string()));
    assert_eq!(resolver.resolve("KEY_B"), Some("other".to_string()));
    assert_eq!(resolver.resolve("KEY_C"), None);
}

#[test]
fn deepseek_debug_text_quotes_its_fields() {
    let provider = DeepSeekChatProvider::new().with_endpoint("http://127.0.0.1/chat\"x");
    assert_eq!(
        provider.debug_text(),
        "DeepSeekChatProvider { provider_id: \"deepseek\", endpoint: \"http://127.0.0.1/chat\\\"x\", api_key: None }"
    );
    assert_eq!(provider.debug_text(), format!("{:?}", FormatLike));
}

struct FormatLike;

impl std::fmt::Debug for FormatLike {
    fn fmt(&self, f: &mut std::fmt::Formatter<'_>) -> std::fmt::Result {
        f.debug_struct("DeepSeekChatProvider")
            .field("provider_id", &"deepseek")
            .field("endpoint", &"http://127.0.0.1/chat\"x")
            .field("api_key", &None::<&str>)
            .finish()
    }
}
