use agent_core::builder::AssistantBuilder;
use agent_core::definition::{AgentDefinitionBuilder, ToolVisibility};
use agent_core::error::AgentCoreResult;
use agent_core::json::Json;
use agent_core::message::{ContentBlock, RunMessage};
use agent_core::session::{load_tree, replay_active_branch, InMemorySessionStore, SessionEntry, SessionStore};
use agent_core::tool::{Tool, ToolInvocation, ToolMetadata, ToolOutput};
use agent_core::tool_registry::{ToolCall, ToolExecutor, ToolRegistry};
use agent_core::tool_schema::ToolSchema;
use agent_core::trajectory::TrajectoryProbabilityGraph;
use std::sync::Arc;

#[derive(Debug)]
struct ReadOnlyTool {
    metadata: ToolMetadata,
}

impl ReadOnlyTool {
    fn new(name: &str) -> Self {
        let mut metadata =
            ToolMetadata::new(ToolSchema::empty_object(name, &format!("{name} tool")).unwrap(), ToolVisibility::Direct);
        metadata.capabilities.read_only = true;
        metadata.capabilities.idempotent = true;
        Self { metadata }
    }
}

impl Tool for ReadOnlyTool {
    fn metadata(&self) -> &ToolMetadata {
        &self.metadata
    }

    fn invoke(&self, invocation: ToolInvocation) -> AgentCoreResult<ToolOutput> {
        let mut output = Json::new_object();
        output.set("call_id", Json::str_of(&invocation.call_id));
        Ok(ToolOutput::new(output))
    }
}

fn assistant_with_tools(tools: &[&str]) -> RunMessage {
    let mut builder = AssistantBuilder::new();
    for tool in tools {
        builder.push_tool_call(&format!("call-{tool}"), tool, Json::new_object());
    }
    builder.finish().unwrap()
}

fn user(text: &str) -> RunMessage {
    RunMessage::user(vec![ContentBlock::text(text)]).unwrap()
}

fn probability(sessions: usize, of: usize) -> f64 {
    if of == 0 {
        0.0
    } else {
        sessions as f64 / of as f64
    }
}

fn registry() -> ToolRegistry {
    let mut registry = ToolRegistry::new();
    registry.register(ReadOnlyTool::new("ui_state")).unwrap();
    registry
}

#[test]
fn predicts_next_events_and_preexecutes_read_only_tools() {
    let sessions = vec![
        vec![user("task"), assistant_with_tools(&["ui_state", "search_database"])],
        vec![user("task"), assistant_with_tools(&["ui_state"])],
    ];
    let graph = TrajectoryProbabilityGraph::from_sessions(&sessions);

    assert_eq!(graph.session_count(), 2);
    assert_eq!(graph.likely_next("message:assistant", 1)[0].event, "tool_call:ui_state");

    let definition = AgentDefinitionBuilder::new()
        .name("agent")
        .system_prompt("prompt")
        .tool_visibility("ui_state", ToolVisibility::Direct)
        .build()
        .unwrap();
    let registry = registry();
    let executor = ToolExecutor::new(Arc::new(self::registry()));

    let min_probability = 0.9;
    let hot: Vec<String> = ["ui_state"]
        .iter()
        .filter(|name| !(probability(graph.tool_use_sessions(name), graph.session_count()) < min_probability))
        .map(|name| name.to_string())
        .collect();
    let plan = graph.plan_preexecution(&registry, &definition, vec![ToolCall::new("pre-ui", "ui_state", Json::new_object())], &hot);
    let outcome = TrajectoryProbabilityGraph::execute_preexecution_plan(&executor, &definition, plan).unwrap();

    assert_eq!(outcome.results.len(), 1);
    assert_eq!(outcome.messages.len(), 1);
}

#[test]
fn builds_from_session_replay_snapshots() {
    let user = user("task");
    let assistant = assistant_with_tools(&["ui_state"]);
    let mut store = InMemorySessionStore::new();
    let header = SessionEntry::header(user.id);
    let mut parent_id = header.id;
    store.append(header).unwrap();
    for message in [user, assistant] {
        let entry = SessionEntry::message(Some(parent_id), message).unwrap();
        parent_id = entry.id;
        store.append(entry).unwrap();
    }

    let tree = load_tree(&store).unwrap();
    let snapshot = replay_active_branch(&tree).unwrap();
    let graph = TrajectoryProbabilityGraph::from_replay_snapshots(&vec![snapshot]);

    assert_eq!(graph.session_count(), 1);
    assert_eq!(probability(graph.tool_use_sessions("ui_state"), graph.session_count()), 1.0);
}

#[test]
fn likely_next_ranks_by_count_then_event() {
    let sessions = vec![
        vec![user("a"), assistant_with_tools(&["x"])],
        vec![user("b"), assistant_with_tools(&["y"])],
        vec![user("c"), assistant_with_tools(&["y"])],
        vec![user("d"), assistant_with_tools(&["w"])],
    ];
    let graph = TrajectoryProbabilityGraph::from_sessions(&sessions);
    let next = graph.likely_next("message:assistant", 10);
    let ranked: Vec<(String, usize, usize)> = next.iter().map(|p| (p.event.clone(), p.count, p.total)).collect();
    assert_eq!(
        ranked,
        vec![
            ("tool_call:y".to_string(), 2, 4),
            ("tool_call:w".to_string(), 1, 4),
            ("tool_call:x".to_string(), 1, 4),
        ]
    );
    assert_eq!(graph.likely_next("message:assistant", 2).len(), 2);
    assert!(graph.likely_next("tool_call:y", 3).is_empty());
    assert!(graph.likely_next("never", 3).is_empty());
    assert_eq!(graph.likely_next("message:user", 1)[0].event, "message:assistant");
    assert_eq!(graph.likely_next("message:user", 1)[0].count, 4);
}

#[test]
fn tool_sessions_count_each_session_once() {
    let sessions = vec![vec![assistant_with_tools(&["x", "x"])], vec![user("no tools")]];
    let graph = TrajectoryProbabilityGraph::from_sessions(&sessions);
    assert_eq!(graph.tool_use_sessions("x"), 1);
    assert_eq!(graph.tool_use_sessions("z"), 0);
    assert_eq!(probability(graph.tool_use_sessions("x"), graph.session_count()), 0.5);
    assert_eq!(probability(0, TrajectoryProbabilityGraph::new().session_count()), 0.0);
}

#[test]
fn preexecution_plan_explains_each_skip() {
    let graph = TrajectoryProbabilityGraph::new();
    let definition = AgentDefinitionBuilder::new()
        .name("agent")
        .system_prompt("prompt")
        .tool_visibility("secret", ToolVisibility::Hidden)
        .build()
        .unwrap();
    let mut registry = ToolRegistry::new();
    registry.register(ReadOnlyTool::new("ui_state")).unwrap();
    registry.register(ReadOnlyTool::new("secret")).unwrap();
    let mut writer = ReadOnlyTool::new("writer");
    writer.metadata.capabilities.read_only = false;
    registry.register(writer).unwrap();
    let hot = vec!["ui_state".to_string(), "secret".to_string(), "writer".to_string(), "missing".to_string()];
    let plan = graph.plan_preexecution(
        &registry,
        &definition,
        vec![
            ToolCall::new("1", "cold", Json::new_object()),
            ToolCall::new("2", "secret", Json::new_object()),
            ToolCall::new("3", "missing", Json::new_object()),
            ToolCall::new("4", "writer", Json::new_object()),
            ToolCall::new("5", "ui_state", Json::new_object()),
        ],
        &hot,
    );
    assert_eq!(plan.calls.len(), 1);
    assert_eq!(plan.calls[0].call_id, "5");
    assert_eq!(
        plan.skipped,
        vec![
            "cold:probability".to_string(),
            "secret:not_visible".to_string(),
            "missing:not_visible".to_string(),
            "writer:not_preexecutable".to_string(),
        ]
    );
}

#[test]
fn tool_layers_follow_hotness() {
    let graph = TrajectoryProbabilityGraph::new();
    let base = vec![
        ("a".to_string(), ToolVisibility::Searchable),
        ("b".to_string(), ToolVisibility::Hidden),
        ("c".to_string(), ToolVisibility::Direct),
    ];
    let plan = graph.plan_tool_layers(&base, &vec!["a".to_string(), "b".to_string()]);
    assert_eq!(plan.direct_tools, vec!["a".to_string()]);
    assert_eq!(plan.dynamic_tools, vec!["c".to_string()]);
    assert_eq!(plan.hidden_tools, vec!["b".to_string()]);
    assert_eq!(
        plan.visibility,
        vec![
            ("a".to_string(), ToolVisibility::Direct),
            ("b".to_string(), ToolVisibility::Hidden),
            ("c".to_string(), ToolVisibility::Searchable),
        ]
    );
}

#[test]
fn every_built_and_observed_session_is_counted() {
    let sessions = vec![
        vec![user("task"), assistant_with_tools(&["ui_state", "search_database"])],
        vec![user("task"), assistant_with_tools(&["ui_state"])],
    ];
    let mut graph = TrajectoryProbabilityGraph::from_sessions(&sessions);
    graph.observe_session(&sessions[0]);
    assert_eq!(graph.session_count(), 3);
    graph.observe_session(&Vec::new());
    assert_eq!(graph.session_count(), 4);
}

fn hot_tools(graph: &TrajectoryProbabilityGraph, names: &[String], min_probability: f64) -> Vec<String> {
    names
        .iter()
        .filter(|name| !(probability(graph.tool_use_sessions(name), graph.session_count()) < min_probability))
        .cloned()
        .collect()
}

#[test]
fn probability_graph_task_context_and_key_routing_public_api_contract() {
    use_contract_subjects();
}

fn use_contract_subjects() {
    let sessions = vec![
        vec![user("task"), assistant_with_tools(&["ui_state", "search_database"])],
        vec![user("task"), assistant_with_tools(&["ui_state"])],
    ];
    let mut probability_graph = TrajectoryProbabilityGraph::from_sessions(&sessions);
    probability_graph.observe_session(&sessions[0]);
    assert_eq!(probability_graph.session_count(), 3);
    assert_eq!(probability_graph.likely_next("message:assistant", 1)[0].event, "tool_call:ui_state");
    assert!(probability(probability_graph.tool_use_sessions("ui_state"), probability_graph.session_count()) > 0.9);

    let replay_graph = TrajectoryProbabilityGraph::from_replay_snapshots(&vec![agent_core::session::ReplaySnapshot {
        leaf_id: None,
        entries: Vec::new(),
        messages: sessions[0].clone(),
        summaries: Vec::new(),
    }]);
    assert_eq!(replay_graph.session_count(), 1);

    let config = agent_core::mobile_prompt::MobileRunLikeConfig::boundary_default();
    let definition = config.agent_definition().unwrap();
    let mut registry = ToolRegistry::new();
    agent_core::mobile_tools::register_mobilerun_tools(&mut registry).unwrap();
    let candidate_names = vec!["ui_state".to_string(), "click".to_string()];
    let hot = hot_tools(&probability_graph, &candidate_names, 0.8);
    let mut click_args = Json::new_object();
    click_args.set("index", Json::Number(agent_core::json::JsonNumber::PosInt(0)));
    let plan = probability_graph.plan_preexecution(
        &registry,
        &definition,
        vec![ToolCall::new("pre-ui", "ui_state", Json::new_object()), ToolCall::new("pre-click", "click", click_args)],
        &hot,
    );
    assert_eq!(plan.calls.len(), 1);
    assert!(plan.skipped.iter().any(|entry| entry.contains("click")));
    let executor = ToolExecutor::new(Arc::new(registry));
    let outcome = TrajectoryProbabilityGraph::execute_preexecution_plan(&executor, &definition, plan).unwrap();
    assert_eq!(outcome.results.len(), 1);
    assert_eq!(outcome.messages.len(), 1);

    let base = agent_core::mobile_prompt::default_tool_visibility();
    let base_names: Vec<String> = base.iter().map(|(k, _)| k.clone()).collect();
    let layers = probability_graph.plan_tool_layers(&base, &hot_tools(&probability_graph, &base_names, 0.8));
    assert!(layers.direct_tools.contains(&"ui_state".to_string()));
    assert!(layers.dynamic_tools.contains(&"remember".to_string()));
    assert!(layers.hidden_tools.contains(&"raw_adb_shell".to_string()));
    assert_eq!(
        layers.visibility.iter().find(|(k, _)| k == "raw_adb_shell").map(|(_, v)| *v),
        Some(ToolVisibility::Hidden)
    );

    let package = agent_core::task_context::TaskContextPackage::new("collect", "Collect account state")
        .with_inputs(vec!["account_id=fixture".to_string()])
        .with_artifacts(vec!["account_state=ready".to_string()])
        .with_required_state(vec!["screen=account".to_string()]);
    let task = agent_core::task_context::TaskNode::new(package).depends_on(vec!["open_app".to_string()]);
    assert_eq!(task.depends_on, vec!["open_app".to_string()]);

    let mut task_graph = agent_core::task_context::TaskDependencyGraph::new();
    task_graph
        .add_task(agent_core::task_context::TaskNode::new(
            agent_core::task_context::TaskContextPackage::new("open_app", "Open the app")
                .with_artifacts(vec!["screen=home".to_string()]),
        ))
        .unwrap();
    task_graph.add_task(task).unwrap();
    assert_eq!(task_graph.dependency_edges(), vec![("open_app".to_string(), "collect".to_string())]);
    assert_eq!(task_graph.context_for("collect").unwrap().len(), 2);
    assert!(agent_core::task_context::sample_mobile_task_dag().unwrap().context_for("finalize").unwrap().len() >= 2);

    use_stability_and_routes(&definition);
}

fn use_stability_and_routes(definition: &agent_core::definition::AgentDefinition) {
    let ordered = agent_core::boundary::order_by_stability(vec![
        agent_core::boundary::mark_stability(user("screen"), agent_core::boundary::ContextStability::VolatileObservation),
        agent_core::boundary::mark_stability(user("prefix"), agent_core::boundary::ContextStability::StablePrefix),
        agent_core::boundary::mark_stability(user("task"), agent_core::boundary::ContextStability::TaskPackage),
    ]);
    assert_eq!(
        agent_core::boundary::stability_order_labels(&ordered),
        vec!["stable_prefix", "task_package", "volatile_observation"]
    );
    let mut registry = ToolRegistry::new();
    agent_core::mobile_tools::register_mobilerun_tools(&mut registry).unwrap();
    let direct_names: Vec<String> = registry.direct_schemas(definition).into_iter().map(|schema| schema.name).collect();
    let prefix_id = agent_core::boundary::stable_prefix_id(definition.system_prompt(), &direct_names);
    assert!(prefix_id.starts_with("stable-prefix-"));

    let route_plan = agent_core::boundary::KeyRoutePlan::new(&prefix_id);
    assert_eq!(route_plan.route_for_prefix(&prefix_id).account_label, "stable-prefix-account");
    assert_eq!(route_plan.route_for_prefix("volatile-prefix").account_label, "general-pool-account");
    let resolver = agent_core::boundary::StaticSecretResolver::new(vec![
        ("MOBILERUN_STABLE_PREFIX_API_KEY".to_string(), "stable-fixture".to_string()),
        ("MOBILERUN_GENERAL_POOL_API_KEY".to_string(), "general-fixture".to_string()),
    ]);
    let routed = route_plan.apply(agent_core::llm_request::LlmRequest::new("model"), &prefix_id, &resolver).unwrap();
    assert_eq!(routed.account_label, "stable-prefix-account");
    assert_eq!(
        routed.request.headers.iter().find(|(k, _)| k == "Authorization").map(|(_, v)| v.clone()),
        Some("Bearer stable-fixture".to_string())
    );
}
