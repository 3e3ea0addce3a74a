use agent_core::error::AgentCoreError;
use agent_core::graph_query::message_to_json;
use agent_core::json::{to_text, Json};
use agent_core::message::{ContentBlock, RunMessage};
use agent_core::task_context::{sample_mobile_task_dag, TaskContextPackage, TaskDependencyGraph, TaskNode};

fn strings(items: &[&str]) -> Vec<String> {
    items.iter().map(|s| s.to_string()).collect()
}

fn texts(messages: &[RunMessage]) -> Vec<String> {
    messages
        .iter()
        .flat_map(|m| m.content.iter())
        .filter_map(|b| match b {
            ContentBlock::Text { text } => Some(text.clone()),
            _ => None,
        })
        .collect()
}

fn meta<'a>(m: &'a RunMessage, key: &str) -> Option<&'a Json> {
    m.metadata.iter().find(|(k, _)| k == key).map(|(_, v)| v)
}

#[test]
fn child_task_inherits_only_dependency_artifacts() {
    let graph = sample_mobile_task_dag().unwrap();
    let messages = graph.context_for("finalize").unwrap();
    let text = to_text(&Json::Array(messages.iter().map(message_to_json).collect()));

    assert!(text.contains("first_result=Wireless Charger Stand"));
    assert!(text.contains("Task package: finalize"));
    assert!(!text.contains("click_at"));
    assert!(!text.contains("temporary screen"));
}

#[test]
fn context_lists_dependencies_before_the_task_package() {
    let graph = sample_mobile_task_dag().unwrap();
    let messages = graph.context_for("finalize").unwrap();
    assert_eq!(
        texts(&messages),
        vec![
            "Dependency result: open_app\nGoal: Open Demo Shop and wait for the search UI.\nArtifacts: app_open=true; screen=home"
                .to_string(),
            "Dependency result: search_catalog\nGoal: Search for the requested product.\nArtifacts: first_result=Wireless Charger Stand"
                .to_string(),
            "Task package: finalize\nGoal: Return the remembered product summary.\nRequired state: first_result is known".to_string(),
        ]
    );
    assert_eq!(meta(&messages[0], "task.id"), Some(&Json::Str("open_app".to_string())));
    assert_eq!(meta(&messages[0], "context.stability"), Some(&Json::Str("dependency_result".to_string())));
    assert_eq!(meta(&messages[2], "context.stability"), Some(&Json::Str("task_package".to_string())));
}

#[test]
fn task_package_lists_inputs_and_required_state() {
    let graph = sample_mobile_task_dag().unwrap();
    let messages = graph.context_for("search_catalog").unwrap();
    assert_eq!(
        texts(&messages),
        vec![
            "Dependency result: open_app\nGoal: Open Demo Shop and wait for the search UI.\nArtifacts: app_open=true; screen=home"
                .to_string(),
            "Task package: search_catalog\nGoal: Search for the requested product.\nInputs: search_term=wireless charger\nRequired state: screen=home"
                .to_string(),
        ]
    );
}

#[test]
fn dependencies_without_artifacts_add_no_message() {
    let mut graph = TaskDependencyGraph::new();
    graph.add_task(TaskNode::new(TaskContextPackage::new("a", "first"))).unwrap();
    graph
        .add_task(TaskNode::new(TaskContextPackage::new("b", "second")).depends_on(strings(&["a"])))
        .unwrap();
    let messages = graph.context_for("b").unwrap();
    assert_eq!(texts(&messages), vec!["Task package: b\nGoal: second".to_string()]);
}

#[test]
fn add_task_rejects_blank_and_duplicate_ids() {
    let mut graph = TaskDependencyGraph::new();
    match graph.add_task(TaskNode::new(TaskContextPackage::new("  ", "blank"))) {
        Err(AgentCoreError::InvalidInput(m)) => assert_eq!(m, "task id must not be empty"),
        other => panic!("unexpected {other:?}"),
    }
    graph.add_task(TaskNode::new(TaskContextPackage::new("a", "first"))).unwrap();
    match graph.add_task(TaskNode::new(TaskContextPackage::new("a", "replacement"))) {
        Err(AgentCoreError::InvalidInput(m)) => assert_eq!(m, "duplicate task id: a"),
        other => panic!("unexpected {other:?}"),
    }
    let messages = graph.context_for("a").unwrap();
    assert_eq!(texts(&messages), vec!["Task package: a\nGoal: replacement".to_string()]);
}

#[test]
fn unknown_task_and_missing_dependency_are_not_found() {
    let mut graph = TaskDependencyGraph::new();
    graph
        .add_task(TaskNode::new(TaskContextPackage::new("a", "first")).depends_on(strings(&["ghost"])))
        .unwrap();
    match graph.context_for("nope") {
        Err(AgentCoreError::NotFound(m)) => assert_eq!(m, "task not found: nope"),
        other => panic!("unexpected {other:?}"),
    }
    match graph.context_for("a") {
        Err(AgentCoreError::NotFound(m)) => assert_eq!(m, "task not found: ghost"),
        other => panic!("unexpected {other:?}"),
    }
}

#[test]
fn dependency_cycle_is_refused() {
    let mut graph = TaskDependencyGraph::new();
    graph
        .add_task(TaskNode::new(TaskContextPackage::new("a", "first")).depends_on(strings(&["b"])))
        .unwrap();
    graph
        .add_task(TaskNode::new(TaskContextPackage::new("b", "second")).depends_on(strings(&["a"])))
        .unwrap();
    match graph.context_for("a") {
        Err(AgentCoreError::InvalidConfig(m)) => assert_eq!(m, "task dependency cycle includes: a"),
        other => panic!("unexpected {other:?}"),
    }
}

#[test]
fn shared_dependency_is_listed_once_before_its_dependents() {
    let mut graph = TaskDependencyGraph::new();
    graph
        .add_task(TaskNode::new(TaskContextPackage::new("base", "b").with_artifacts(strings(&["x"]))))
        .unwrap();
    graph
        .add_task(
            TaskNode::new(TaskContextPackage::new("left", "l").with_artifacts(strings(&["y"]))).depends_on(strings(&["base"])),
        )
        .unwrap();
    graph
        .add_task(
            TaskNode::new(TaskContextPackage::new("right", "r").with_artifacts(strings(&["z"]))).depends_on(strings(&["base"])),
        )
        .unwrap();
    graph
        .add_task(TaskNode::new(TaskContextPackage::new("top", "t")).depends_on(strings(&["left", "right"])))
        .unwrap();
    let ids: Vec<Json> = graph
        .context_for("top")
        .unwrap()
        .iter()
        .map(|m| meta(m, "task.id").unwrap().clone())
        .collect();
    assert_eq!(
        ids,
        vec![
            Json::Str("base".to_string()),
            Json::Str("left".to_string()),
            Json::Str("right".to_string()),
            Json::Str("top".to_string()),
        ]
    );
}

#[test]
fn dependency_edges_follow_task_id_order() {
    let graph = sample_mobile_task_dag().unwrap();
    assert_eq!(
        graph.dependency_edges(),
        vec![
            ("search_catalog".to_string(), "finalize".to_string()),
            ("open_app".to_string(), "search_catalog".to_string()),
        ]
    );
}
