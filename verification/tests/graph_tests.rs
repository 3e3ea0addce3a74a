use agent_core::error::AgentCoreError;
use agent_core::graph::Graph;
use agent_core::graph_edge::{ActivationCondition, ContextInheritPolicy, EdgeDecision, GraphEdge};
use agent_core::graph_node::{GraphNode, GraphNodeAction, NodeExecutionInput, NodeExecutionStatus};
use agent_core::graph_runner::{GraphRunInput, GraphRunStatus, GraphRunner};
use agent_core::graph_state::{GraphState, GraphStateBudget};
use agent_core::message::{ContentBlock, RunMessage};
use agent_core::templates::{default_react_graph, single_node_graph, DEFAULT_REACT_GRAPH};

fn text_message() -> RunMessage {
    RunMessage::assistant(vec![ContentBlock::text("done")]).unwrap()
}

fn message(text: &str) -> RunMessage {
    RunMessage::assistant(vec![ContentBlock::text(text)]).unwrap()
}

#[test]
fn edge_activates_on_any_source_message() {
    let edge = GraphEdge::new("e1", "source", "target");
    let state = GraphState::new(7, GraphStateBudget::unlimited());

    let decision = edge.evaluate(&text_message(), 1, &state.view_of()).unwrap();

    assert_eq!(
        decision,
        EdgeDecision::Activate {
            target_node_id: "target".to_string(),
            inherit_policy: ContextInheritPolicy::Full,
        }
    );
}

#[test]
fn edge_sleeps_when_message_predicate_is_false() {
    let edge = GraphEdge::new("e1", "source", "target").with_activation_condition(ActivationCondition::MessageHasToolCall);
    let state = GraphState::new(7, GraphStateBudget::unlimited());

    let decision = edge.evaluate(&text_message(), 1, &state.view_of()).unwrap();

    assert_eq!(decision, EdgeDecision::Sleep);
}

#[test]
fn builder_rejects_missing_start_node() {
    let err = Graph::builder("test").start_node("start").build().unwrap_err();
    assert!(matches!(err, AgentCoreError::InvalidConfig(_)));
}

#[test]
fn builder_accepts_minimal_graph() {
    let graph = Graph::builder("test")
        .node(GraphNode::new("start").terminal(true))
        .start_node("start")
        .end_node("start")
        .build()
        .unwrap();

    assert_eq!(graph.name(), "test");
    assert!(graph.is_end_node("start"));
}

#[test]
fn noop_node_completes_without_messages() {
    let node = GraphNode::new("start");

    let (result, emitted) = node.execute(NodeExecutionInput::default()).unwrap();

    assert_eq!(result.node_id, "start");
    assert_eq!(result.emitted_messages, 0);
    assert_eq!(result.status, NodeExecutionStatus::Completed);
    assert!(emitted.is_empty());
}

#[test]
fn passthrough_node_emits_input_messages() {
    let node = GraphNode::new("input").with_action(GraphNodeAction::PassthroughInput);
    let message = RunMessage::user(vec![ContentBlock::text("hi")]).unwrap();

    let (result, emitted) = node.execute(NodeExecutionInput { input_messages: vec![message.clone()] }).unwrap();

    assert_eq!(result.emitted_messages, 1);
    assert_eq!(emitted, vec![message]);
}

#[test]
fn agent_node_needs_an_executor() {
    let node = GraphNode::new("agent").with_action(GraphNodeAction::Agent { agent_name: "coder".to_string() });
    let err = node.execute(NodeExecutionInput::default()).unwrap_err();
    assert!(matches!(err, AgentCoreError::InvalidConfig(_)));
}

#[test]
fn runner_executes_terminal_start_node() {
    let graph = Graph::builder("test")
        .node(GraphNode::new("start").terminal(true))
        .start_node("start")
        .end_node("start")
        .build()
        .unwrap();

    let result = GraphRunner::new().run(&graph, GraphRunInput::default()).unwrap();

    assert_eq!(result.status, GraphRunStatus::Completed);
    assert_eq!(result.state.total_node_executions(), 1);
}

#[test]
fn runner_activates_target_when_source_emits_matching_message() {
    let graph = Graph::builder("test")
        .node(GraphNode::new("source").with_action(GraphNodeAction::EmitMessages(vec![message("go")])))
        .node(GraphNode::new("target").terminal(true))
        .start_node("source")
        .end_node("target")
        .edge(GraphEdge::new("source_to_target", "source", "target").with_activation_condition(ActivationCondition::MessageHasText))
        .build()
        .unwrap();

    let result = GraphRunner::new().run(&graph, GraphRunInput::default()).unwrap();

    assert_eq!(result.status, GraphRunStatus::Completed);
    assert_eq!(result.state.node_execution_count("source"), 1);
    assert_eq!(result.state.node_execution_count("target"), 1);
    assert_eq!(result.state.fired_edges().len(), 1);
}

#[test]
fn runner_passes_full_source_context_to_activated_target() {
    let graph = Graph::builder("test")
        .node(GraphNode::new("source").with_action(GraphNodeAction::EmitMessages(vec![message("go")])))
        .node(GraphNode::new("target").with_action(GraphNodeAction::PassthroughInput))
        .start_node("source")
        .edge(GraphEdge::new("source_to_target", "source", "target").with_activation_condition(ActivationCondition::MessageHasText))
        .build()
        .unwrap();

    let result = GraphRunner::new().run(&graph, GraphRunInput::default()).unwrap();

    assert_eq!(result.state.node_execution_count("target"), 1);
    assert_eq!(result.state.message_count("target"), 1);
    assert_eq!(result.state.messages_for_node("target")[0].message.content, vec![ContentBlock::text("go")]);
}

#[test]
fn runner_reports_budget_exceeded() {
    let graph = Graph::builder("test")
        .node(GraphNode::new("start"))
        .start_node("start")
        .budget(GraphStateBudget { max_total_node_executions: Some(0), max_node_executions: Some(1), max_no_progress_ticks: None })
        .build()
        .unwrap();

    let result = GraphRunner::new().run(&graph, GraphRunInput::default()).unwrap();

    assert_eq!(result.status, GraphRunStatus::BudgetExceeded);
    assert!(result.error.is_some());
}

#[test]
fn runner_cancels_when_stop_is_requested() {
    let graph = Graph::builder("test")
        .node(GraphNode::new("start").terminal(true))
        .start_node("start")
        .build()
        .unwrap();
    let input = GraphRunInput { run_id: Some(42), initial_messages: Vec::new(), stop_requested: true };

    let result = GraphRunner::new().run(&graph, input).unwrap();

    assert_eq!(result.status, GraphRunStatus::Cancelled);
    assert_eq!(result.run_id, 42);
    assert_eq!(result.state.total_node_executions(), 0);
}

#[test]
fn node_execution_budget_blocks_over_limit() {
    let mut state = GraphState::new(
        7,
        GraphStateBudget { max_total_node_executions: Some(1), max_node_executions: Some(1), max_no_progress_ticks: None },
    );

    state.record_node_execution("a").unwrap();

    let err = state.record_node_execution("a").unwrap_err();
    assert!(matches!(err, AgentCoreError::Fatal(_)));
}

#[test]
fn builds_default_react_template() {
    let graph = default_react_graph().unwrap();

    assert_eq!(graph.name(), DEFAULT_REACT_GRAPH);
    assert!(graph.node("agent").is_some());
    assert_eq!(graph.finish_node(), Some("final"));
    assert_eq!(graph.edges().len(), 4);
}

#[test]
fn single_node_graph_refuses_blank_name() {
    assert!(single_node_graph(" ", "only").is_err());
    let graph = single_node_graph("solo", "only").unwrap();
    assert_eq!(graph.name(), "solo");
}

#[test]
fn message_json_writes_the_id_hyphenated_in_lower_case() {
    let mut m = RunMessage::assistant_text("hi").unwrap();
    m.id = 0x0123456789ABCDEF0FEDCBA987654321u128;
    let j = agent_core::graph_query::message_to_json(&m);
    assert_eq!(j.get("id").and_then(|v| v.as_str()), Some("01234567-89ab-cdef-0fed-cba987654321"));
}

#[test]
fn graph_public_api_contract() {
    let source_message = RunMessage::assistant(vec![ContentBlock::text("go")]).unwrap();
    let source = GraphNode::new("source")
        .with_label("Source")
        .with_action(GraphNodeAction::EmitMessages(vec![source_message.clone()]));
    assert_eq!(source.id(), "source");
    assert_eq!(source.label(), Some("Source"));
    assert!(matches!(source.action(), GraphNodeAction::EmitMessages(_)));
    assert!(!source.is_terminal());

    let (node_result, emitted) = GraphNode::new("manual").execute(NodeExecutionInput::default()).unwrap();
    assert_eq!(node_result.node_id, "manual");
    assert!(emitted.is_empty());

    let edge = GraphEdge::new("source_to_target", "source", "target")
        .with_inherit_policy(ContextInheritPolicy::Full)
        .with_activation_condition(ActivationCondition::MessageHasText)
        .with_priority(10);
    assert_eq!(edge.id(), "source_to_target");
    assert_eq!(edge.source_node_id(), "source");
    assert_eq!(edge.target_node_id(), "target");
    assert!(matches!(edge.inherit_policy(), ContextInheritPolicy::Full));
    assert!(matches!(edge.activation_condition(), ActivationCondition::MessageHasText));
    assert_eq!(edge.priority(), 10);

    let mut state = GraphState::new(agent_core::sys::new_id(), GraphStateBudget::unlimited());
    let record = state.append_message("source", source_message.clone());
    state.record_node_execution("source").unwrap();
    assert!(matches!(
        edge.evaluate(&source_message, record.version, &state.view_of()).unwrap(),
        EdgeDecision::Activate { .. }
    ));

    let conditions = vec![
        ActivationCondition::OnAnyMessage,
        ActivationCondition::Always,
        ActivationCondition::Never,
        ActivationCondition::MessageRoleIs { role: agent_core::message::MessageRole::Assistant },
        ActivationCondition::MessageHasText,
        ActivationCondition::MessageHasToolCall,
        ActivationCondition::MessageHasToolResult { is_error: None },
        ActivationCondition::SourceVersionAtLeast { version: 1 },
        ActivationCondition::SourceMessageCountAtLeast { count: 1 },
    ];
    for condition in conditions {
        let _ = condition.matches("source", &source_message, record.version, &state.view_of());
    }

    let graph = Graph::builder("graph_contract")
        .node(source)
        .node(GraphNode::new("target").with_action(GraphNodeAction::PassthroughInput))
        .start_node("source")
        .end_node("target")
        .edge(edge)
        .budget(GraphStateBudget {
            max_total_node_executions: Some(10),
            max_node_executions: Some(5),
            max_no_progress_ticks: Some(2),
        })
        .build()
        .unwrap();
    assert_eq!(graph.name(), "graph_contract");
    assert!(graph.node("source").is_some());
    assert_eq!(graph.nodes().len(), 2);
    assert_eq!(graph.edges().len(), 1);
    assert_eq!(graph.start_node_ids(), &vec!["source".to_string()]);
    assert!(graph.is_end_node("target"));
    assert_eq!(graph.outgoing_edges("source").len(), 1);

    let run_id = agent_core::sys::new_id();
    let result = GraphRunner::new()
        .run(
            &graph,
            GraphRunInput {
                run_id: Some(run_id),
                initial_messages: vec![RunMessage::user(vec![ContentBlock::text("input")]).unwrap()],
                stop_requested: false,
            },
        )
        .unwrap();
    assert_eq!(result.run_id, run_id);
    assert_eq!(result.status, GraphRunStatus::Completed);
    assert_eq!(GraphRunStatus::Completed.as_str(), "completed");
    assert!(result.error.is_none());
    assert!(result.state.total_node_executions() >= 1);
    assert!(!result.messages.is_empty());
    assert!(result
        .events
        .iter()
        .any(|event| matches!(event, agent_core::event::CoreEvent::GraphStarted { .. })));

    let mut direct_state = GraphState::new(agent_core::sys::new_id(), GraphStateBudget::default());
    let fired = agent_core::graph_state::FiredEdgeRecord::new("e", "source", 1, "target");
    assert!(direct_state.mark_edge_fired(fired.clone()));
    assert!(direct_state.has_edge_fired(&fired));
    assert_eq!(direct_state.fired_edges().len(), 1);
    assert_eq!(direct_state.view_of().run_id(), direct_state.run_id());
    direct_state.request_stop();
    assert!(direct_state.is_stop_requested());

    assert_eq!(default_react_graph().unwrap().name(), "default_react");
    let single = single_node_graph("single", "only").unwrap();
    assert!(single.node("only").is_some());
    assert_eq!(single.finish_node(), Some("only"));
}
