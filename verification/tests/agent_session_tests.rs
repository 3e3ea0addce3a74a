use agent_core::agent::{Agent, AgentFactory, AgentRunInput, AgentRunStatus, AgentServices};
use agent_core::definition::{AgentDefinitionBuilder, ToolVisibility};
use agent_core::error::{AgentCoreError, AgentCoreResult};
use agent_core::event::CoreEvent;
use agent_core::graph::Graph;
use agent_core::graph_node::GraphNode;
use agent_core::graph_runner::GraphRunStatus;
use agent_core::message::{ContentBlock, MessageStatus, RunMessage};
use agent_core::session::{
    load_tree, plan_active_branch_compaction, tree_from_entries, replay_active_branch, CompactionPlan, InMemorySessionStore, SessionEntry,
    SessionEntryKind, SessionStore, SessionTree,
};
use agent_core::turn_loop::{
    TurnContextPolicy, TurnEventBatch, TurnEventHandler, TurnGenInput, TurnGenInputResult, TurnGraphPreparer, TurnInputGenerator,
    TurnLoop, TurnLoopState, TurnPrepareGraphInput,
};
use std::sync::atomic::{AtomicUsize, Ordering};
use std::sync::Arc;

fn test_agent() -> Agent {
    let definition = AgentDefinitionBuilder::new().name("coder").system_prompt("prompt").build().unwrap();
    Agent::new(Arc::new(definition), AgentServices::default())
}

fn terminal_graph(name: &str) -> Graph {
    Graph::builder(name).node(GraphNode::new("final").terminal(true)).start_node("final").end_node("final").build().unwrap()
}

#[test]
fn builds_minimal_definition() {
    let definition = AgentDefinitionBuilder::new()
        .name("coder")
        .system_prompt("You write code.")
        .tool_visibility("search", ToolVisibility::Searchable)
        .build()
        .unwrap();

    assert_eq!(definition.name(), "coder");
    assert_eq!(definition.system_prompt(), "You write code.");
    assert_eq!(definition.visibility_of("search"), Some(ToolVisibility::Searchable));
}

#[test]
fn rejects_empty_definition() {
    let err = AgentDefinitionBuilder::new().build().unwrap_err();
    assert!(matches!(err, AgentCoreError::InvalidConfig(_)));
}

#[test]
fn rejects_empty_name() {
    let definition = AgentDefinitionBuilder::new().system_prompt("prompt").build().unwrap_err();
    assert!(matches!(definition, AgentCoreError::InvalidConfig(_)));
}

#[test]
fn creates_agent_from_valid_definition() {
    let definition = AgentDefinitionBuilder::new().name("coder").system_prompt("prompt").build().unwrap();
    let agent = AgentFactory::default().create(definition).unwrap();
    assert_eq!(agent.definition().name(), "coder");
}

#[test]
fn cancellation_token_tracks_agent_cancel() {
    let agent = test_agent();
    let token = agent.cancellation_token();

    assert!(!token.is_cancelled());
    agent.cancel();
    assert!(token.is_cancelled());
}

#[test]
fn run_delegates_to_graph_runner() {
    let agent = test_agent();
    let message = RunMessage::user(vec![ContentBlock::text("hello")]).unwrap();

    let graph = Graph::builder("test")
        .node(GraphNode::new("final").with_action(agent_core::graph_node::GraphNodeAction::PassthroughInput).terminal(true))
        .start_node("final")
        .end_node("final")
        .build()
        .unwrap();
    let result = agent.run(AgentRunInput::new(graph).with_initial_messages(vec![message])).unwrap();

    assert_eq!(result.status, AgentRunStatus::Completed);
    assert_eq!(result.messages.len(), 1);
    assert!(result.events.iter().any(|event| matches!(event, CoreEvent::AgentStarted { .. })));
    assert!(matches!(result.events.last(), Some(CoreEvent::AgentEnded { status, .. }) if status == "completed"));
}

#[test]
fn cancelled_agent_runs_nothing() {
    let agent = test_agent();
    agent.cancel();
    let result = agent.run(AgentRunInput::new(terminal_graph("test"))).unwrap();
    assert_eq!(result.status, AgentRunStatus::Cancelled);
    assert_eq!(AgentRunStatus::Cancelled.as_str(), "cancelled");
}

#[test]
fn message_entry_wraps_finalized_run_message() {
    let message = RunMessage::user(vec![ContentBlock::text("hi")]).unwrap();
    let entry = SessionEntry::message(None, message.clone()).unwrap();
    assert_eq!(entry.as_message(), Some(&message));
}

#[test]
fn streaming_message_is_not_committed() {
    let message = RunMessage::streaming(agent_core::message::MessageRole::Assistant);
    assert!(matches!(SessionEntry::message(None, message), Err(AgentCoreError::InvalidInput(_))));
}

#[test]
fn appends_entries_as_tree_and_replays_branch_order() {
    let mut tree = SessionTree::new();
    let root = tree.append(SessionEntry::header(1)).unwrap();
    let child = tree
        .append(SessionEntry::message(Some(root), RunMessage::user(vec![ContentBlock::text("hello")]).unwrap()).unwrap())
        .unwrap();

    let branch = tree.branch_to(child).unwrap();
    assert_eq!(branch.len(), 2);
    assert_eq!(branch[0].id, root);
    assert_eq!(branch[1].id, child);
    assert_eq!(tree.children_of(root), vec![child]);
    assert_eq!(tree.roots(), vec![root]);
}

#[test]
fn rejects_missing_parent() {
    let mut tree = SessionTree::new();
    let entry = SessionEntry::message(Some(99), RunMessage::user(vec![ContentBlock::text("hello")]).unwrap()).unwrap();
    let result = tree.append(entry);
    assert!(matches!(result, Err(AgentCoreError::NotFound(_))));
}

#[test]
fn rejects_duplicate_entry_id() {
    let mut tree = SessionTree::new();
    let entry = SessionEntry::header(1);
    let copy = entry.dup();
    tree.append(entry).unwrap();
    assert!(matches!(tree.append(copy), Err(AgentCoreError::InvalidInput(_))));
    assert_eq!(tree.len(), 1);
}

#[test]
fn replay_collects_messages_on_active_branch() {
    let mut tree = SessionTree::new();
    let root_id = tree.append(SessionEntry::header(1)).unwrap();
    tree.append(SessionEntry::message(Some(root_id), RunMessage::user(vec![ContentBlock::text("hello")]).unwrap()).unwrap()).unwrap();

    let snapshot = replay_active_branch(&tree).unwrap();
    assert_eq!(snapshot.messages.len(), 1);
}

#[test]
fn replay_uses_compaction_as_message_boundary() {
    let mut tree = SessionTree::new();
    let root_id = tree.append(SessionEntry::header(1)).unwrap();
    let first_message_id =
        tree.append(SessionEntry::message(Some(root_id), RunMessage::user(vec![ContentBlock::text("old")]).unwrap()).unwrap()).unwrap();
    let compaction_id = tree.append(SessionEntry::compaction(Some(first_message_id), "summary", None)).unwrap();
    tree.append(SessionEntry::message(Some(compaction_id), RunMessage::user(vec![ContentBlock::text("kept")]).unwrap()).unwrap())
        .unwrap();

    let snapshot = replay_active_branch(&tree).unwrap();
    assert_eq!(snapshot.summaries, vec!["summary"]);
    assert_eq!(snapshot.messages.len(), 1);
    assert_eq!(snapshot.messages[0].content, vec![ContentBlock::text("kept")]);
}

#[test]
fn replay_of_empty_tree_is_empty() {
    let snapshot = replay_active_branch(&SessionTree::new()).unwrap();
    assert!(snapshot.is_empty());
    assert!(snapshot.leaf_id.is_none());
}

#[test]
fn compaction_plan_requires_summary() {
    let result = CompactionPlan::new(None, " ", None);
    assert!(matches!(result, Err(AgentCoreError::InvalidInput(_))));
}

#[test]
fn compaction_plan_builds_session_entry() {
    let entry = CompactionPlan::new(None, "summary", None).unwrap().into_entry();
    assert!(matches!(entry.kind, SessionEntryKind::Compaction { .. }));
}

#[test]
fn compaction_of_active_branch_hangs_under_the_leaf() {
    let mut tree = SessionTree::new();
    let root = tree.append(SessionEntry::header(5)).unwrap();
    let plan = plan_active_branch_compaction(&tree, "done so far", None).unwrap();
    assert_eq!(plan.parent_id, Some(root));
}

#[test]
fn in_memory_store_loads_tree_from_append_order() {
    let mut store = InMemorySessionStore::new();
    let root = SessionEntry::header(3);
    let root_id = root.id;
    store.append(root).unwrap();
    let tree = load_tree(&store).unwrap();
    assert_eq!(tree.active_leaf(), Some(root_id));
    assert_eq!(store.len(), 1);
}

#[test]
fn default_gen_input_builds_graph_start_snapshot() {
    let old_user = RunMessage::user_text("old user").unwrap();
    let old_assistant = RunMessage::assistant_text("old assistant").unwrap();
    let new_user = RunMessage::user_text("new user").unwrap();

    let mut turn_loop = TurnLoop::new().with_graph(terminal_graph("final_only"));
    turn_loop.append_messages(vec![old_user.clone(), old_assistant.clone()]).unwrap();
    turn_loop.push(new_user.clone()).unwrap();
    let turn = turn_loop.run_once().unwrap().unwrap();
    assert_eq!(turn.context_messages.len(), 3);

    let mut turn_loop =
        TurnLoop::new().with_graph(terminal_graph("final_only")).with_context_policy(TurnContextPolicy::LatestUserOnly);
    turn_loop.append_messages(vec![old_user.clone(), old_assistant.clone()]).unwrap();
    turn_loop.push(new_user.clone()).unwrap();
    let turn = turn_loop.run_once().unwrap().unwrap();
    assert_eq!(turn.context_messages, vec![new_user.clone()]);

    let mut turn_loop =
        TurnLoop::new().with_graph(terminal_graph("final_only")).with_context_policy(TurnContextPolicy::LastMessages(1));
    turn_loop.append_messages(vec![old_user, old_assistant.clone()]).unwrap();
    turn_loop.push(new_user.clone()).unwrap();
    let turn = turn_loop.run_once().unwrap().unwrap();
    assert_eq!(turn.context_messages, vec![old_assistant, new_user]);
}

struct FirstOnly;

impl TurnInputGenerator for FirstOnly {
    fn generate(&self, input: TurnGenInput) -> AgentCoreResult<TurnGenInputResult> {
        let first = input.pending_items.first().unwrap().clone();
        let remaining = input.pending_items.iter().skip(1).cloned().collect();
        Ok(TurnGenInputResult::new(vec![first.clone()], vec![first.id]).with_remaining(remaining))
    }
}

#[test]
fn custom_gen_input_can_leave_items_for_next_turn() {
    let mut turn_loop = TurnLoop::new().with_graph(terminal_graph("final_only")).with_gen_input(FirstOnly);
    turn_loop.push(RunMessage::user_text("one").unwrap()).unwrap();
    turn_loop.push(RunMessage::user_text("two").unwrap()).unwrap();

    let first = turn_loop.run_once().unwrap().unwrap();
    assert_eq!(first.consumed.len(), 1);
    assert_eq!(turn_loop.pending_len(), 1);
    let second = turn_loop.run_once().unwrap().unwrap();
    assert_eq!(second.consumed.len(), 1);
    assert_eq!(turn_loop.pending_len(), 0);
}

struct FixedGraph;

impl TurnGraphPreparer for FixedGraph {
    fn prepare(&self, input: TurnPrepareGraphInput) -> AgentCoreResult<Graph> {
        assert_eq!(input.consumed.len(), 1);
        Ok(terminal_graph("final_only"))
    }
}

#[test]
fn prepare_graph_can_select_graph_per_turn() {
    let mut turn_loop = TurnLoop::new().with_prepare_graph(FixedGraph);
    turn_loop.push(RunMessage::user_text("go").unwrap()).unwrap();

    let turn = turn_loop.run_once().unwrap().unwrap();
    assert_eq!(turn.graph.status, GraphRunStatus::Completed);
}

struct CountEvents(Arc<AtomicUsize>);

impl TurnEventHandler for CountEvents {
    fn handle(&self, batch: TurnEventBatch) -> AgentCoreResult<()> {
        self.0.fetch_add(batch.events.len(), Ordering::SeqCst);
        Ok(())
    }
}

#[test]
fn on_turn_events_observes_graph_events() {
    let seen = Arc::new(AtomicUsize::new(0));
    let mut turn_loop = TurnLoop::new().with_graph(terminal_graph("final_only")).with_on_turn_events(CountEvents(Arc::clone(&seen)));

    turn_loop.run_message(RunMessage::user_text("go").unwrap()).unwrap();

    assert!(seen.load(Ordering::SeqCst) > 0);
}

#[test]
fn stop_rejects_push_and_records_late_items() {
    let mut turn_loop = TurnLoop::new().with_graph(terminal_graph("final_only"));
    turn_loop.request_stop();

    assert!(!turn_loop.push(RunMessage::user_text("late").unwrap()).unwrap());
    assert_eq!(turn_loop.late_items().len(), 1);
    assert!(turn_loop.run_message(RunMessage::user_text("hello").unwrap()).is_err());
    assert_eq!(turn_loop.take_late_items().len(), 2);
    assert_eq!(turn_loop.state(), TurnLoopState::Stopped);
}

#[test]
fn loop_without_graph_is_refused_and_left_idle() {
    let mut turn_loop = TurnLoop::new();
    turn_loop.push(RunMessage::user_text("go").unwrap()).unwrap();
    assert!(matches!(turn_loop.run_once(), Err(AgentCoreError::InvalidConfig(_))));
    assert_eq!(turn_loop.state(), TurnLoopState::Idle);
}

#[test]
fn appended_messages_are_kept_once() {
    let mut turn_loop = TurnLoop::new();
    let m = RunMessage::user_text("one").unwrap();
    assert_eq!(turn_loop.append_messages(vec![m.clone(), m.clone()]).unwrap(), 1);
    assert_eq!(turn_loop.append_messages(vec![m]).unwrap(), 0);
    assert_eq!(turn_loop.messages().len(), 1);
    let _ = MessageStatus::Finalized;
}

#[test]
fn tree_from_entries_refuses_an_entry_whose_parent_comes_later() {
    let root = SessionEntry::header(9);
    let child = SessionEntry::compaction(Some(root.id), "summary", None);
    let ordered = vec![root.dup(), child.dup()];
    let tree = tree_from_entries(&ordered).unwrap();
    assert_eq!(tree.len(), 2);
    assert_eq!(tree.active_leaf(), Some(child.id));
    let reversed = vec![child, root];
    assert!(matches!(tree_from_entries(&reversed), Err(AgentCoreError::NotFound(_))));
    assert!(tree_from_entries(&[]).unwrap().is_empty());
}

#[test]
fn run_pending_with_nothing_waiting_runs_no_turn() {
    let mut turn_loop = TurnLoop::new();
    assert!(turn_loop.run_pending().unwrap().is_empty());
    assert_eq!(turn_loop.state(), TurnLoopState::Idle);
}

fn contract_definition() -> agent_core::definition::AgentDefinition {
    AgentDefinitionBuilder::new()
        .name("contract-agent")
        .system_prompt("Follow the contract test.")
        .tool_visibility("contract_read", ToolVisibility::Direct)
        .tool_visibility("contract_search", ToolVisibility::Searchable)
        .tool_visibility("contract_hidden", ToolVisibility::Hidden)
        .build()
        .unwrap()
}

fn passthrough_graph() -> Graph {
    Graph::builder("contract_graph")
        .node(
            GraphNode::new("start")
                .with_label("Start")
                .with_action(agent_core::graph_node::GraphNodeAction::PassthroughInput)
                .terminal(true),
        )
        .start_node("start")
        .end_node("start")
        .budget(agent_core::graph_state::GraphStateBudget::unlimited())
        .build()
        .unwrap()
}

#[test]
fn agent_public_api_contract() {
    let definition = contract_definition();
    assert_eq!(definition.name(), "contract-agent");
    assert!(definition.system_prompt().contains("contract"));
    assert_eq!(definition.visibility_of("contract_search"), Some(ToolVisibility::Searchable));
    definition.validate().unwrap();

    let direct_definition = agent_core::definition::AgentDefinition::new("direct-agent", "prompt", Vec::new()).unwrap();
    assert_eq!(direct_definition.name(), "direct-agent");

    let factory = AgentFactory::new(AgentServices::default());
    let agent = factory.create(definition).unwrap();
    assert_eq!(agent.definition().name(), "contract-agent");
    let _services = agent.services();
    let token = agent.cancellation_token();
    assert!(!token.is_cancelled());

    let result = agent
        .run(AgentRunInput::new(passthrough_graph()).with_initial_messages(vec![agent_core::input::text_message("hello").unwrap()]))
        .unwrap();
    assert_eq!(result.agent_id, agent.id());
    assert_eq!(result.status, AgentRunStatus::Completed);
    assert_eq!(AgentRunStatus::Completed.as_str(), "completed");
    assert_eq!(result.graph_name.as_deref(), Some("contract_graph"));
    assert_eq!(result.messages.len(), 1);
    assert!(result.error.is_none());
    assert!(result.events.iter().any(|event| matches!(event, CoreEvent::AgentStarted { .. })));

    let stopped_agent = factory.create(contract_definition()).unwrap();
    let stopped = stopped_agent.run(AgentRunInput::new(passthrough_graph()).with_stop_requested(true)).unwrap();
    assert_eq!(stopped.status, AgentRunStatus::Cancelled);
    assert!(stopped.messages.is_empty());

    agent.cancel();
    assert!(token.is_cancelled());
}

#[test]
fn run_message_executes_graph_and_appends_only_emitted_messages() {
    let graph = Graph::builder("turn_graph")
        .node(GraphNode::new("agent").with_action(agent_core::graph_node::GraphNodeAction::EmitMessages(vec![
            RunMessage::assistant_text("checked the settings").unwrap(),
        ])))
        .node(GraphNode::new("final").terminal(true))
        .start_node("agent")
        .end_node("final")
        .edge(agent_core::graph_edge::GraphEdge::new("agent_to_final", "agent", "final"))
        .build()
        .unwrap();
    let mut turn_loop = TurnLoop::new().with_graph(graph);
    let run = turn_loop.run_message(RunMessage::user_text("inspect settings").unwrap()).unwrap();

    assert_eq!(run.graph.status, GraphRunStatus::Completed);
    assert_eq!(run.consumed.len(), 1);
    assert_eq!(run.context_messages.len(), 1);
    assert_eq!(run.appended_messages.len(), 1);
    assert_eq!(turn_loop.messages().len(), 2);
    assert_eq!(turn_loop.state(), TurnLoopState::Idle);
}

#[derive(Default)]
struct VecSessionStore {
    entries: Vec<SessionEntry>,
}

impl SessionStore for VecSessionStore {
    fn append(&mut self, entry: SessionEntry) -> AgentCoreResult<()> {
        self.entries.push(entry);
        Ok(())
    }

    fn entries(&self) -> &[SessionEntry] {
        &self.entries
    }
}

#[test]
fn session_turn_and_error_public_api_contract() {
    let mut turn_loop = TurnLoop::new();
    assert_eq!(turn_loop.state(), TurnLoopState::Idle);
    let turn_message = agent_core::input::text_message("run turn").unwrap();
    turn_loop.push(turn_message.clone()).unwrap();
    assert_eq!(turn_loop.pending_len(), 1);
    turn_loop.request_stop();
    assert!(turn_loop.stop_requested());
    turn_loop.clear_stop();
    assert!(!turn_loop.stop_requested());

    let session_id = agent_core::sys::new_id();
    let header = SessionEntry::header(session_id);
    let message = RunMessage::user(vec![ContentBlock::text("session message")]).unwrap();
    let message_entry = SessionEntry::message(Some(header.id), message.clone()).unwrap();
    let compaction_entry = SessionEntry::compaction(Some(message_entry.id), "summary", None);
    assert!(matches!(header.kind, SessionEntryKind::Header { .. }));
    assert_eq!(message_entry.as_message(), Some(&message));
    assert!(matches!(compaction_entry.kind, SessionEntryKind::Compaction { .. }));

    let mut store = InMemorySessionStore::new();
    assert!(store.is_empty());
    store.append(header.dup()).unwrap();
    store.append(message_entry.dup()).unwrap();
    assert_eq!(store.len(), 2);
    assert_eq!(store.entries().len(), 2);
    let mut tree = load_tree(&store).unwrap();
    assert_eq!(tree.roots(), vec![header.id]);
    assert_eq!(tree.children_of(header.id), vec![message_entry.id]);
    assert_eq!(tree.active_leaf(), Some(message_entry.id));
    assert_eq!(tree.active_branch().unwrap().len(), 2);
    tree.set_active_leaf(header.id).unwrap();
    assert_eq!(tree.active_leaf(), Some(header.id));
    assert_eq!(tree.get(header.id).unwrap().id, header.id);
    assert_eq!(tree.len(), 2);
    assert!(!tree.is_empty());

    let snapshot = agent_core::session::replay_branch(&load_tree(&store).unwrap(), message_entry.id).unwrap();
    assert!(!snapshot.is_empty());
    assert_eq!(snapshot.leaf_id, Some(message_entry.id));
    assert_eq!(snapshot.messages, vec![message.clone()]);
    let empty_snapshot = replay_active_branch(&SessionTree::new()).unwrap();
    assert!(empty_snapshot.is_empty());
    let explicit_snapshot = agent_core::session::ReplaySnapshot {
        leaf_id: None,
        entries: Vec::new(),
        messages: Vec::new(),
        summaries: Vec::new(),
    };
    assert!(explicit_snapshot.is_empty());

    let plan = CompactionPlan::new(Some(message_entry.id), "compact summary", None).unwrap();
    assert_eq!(plan.summary, "compact summary");
    let active_plan = plan_active_branch_compaction(&load_tree(&store).unwrap(), "active summary", None).unwrap();
    assert_eq!(active_plan.parent_id, Some(message_entry.id));
    assert!(matches!(active_plan.into_entry().kind, SessionEntryKind::Compaction { .. }));

    let mut custom_store = VecSessionStore::default();
    custom_store.append(header).unwrap();
    assert_eq!(load_tree(&custom_store).unwrap().len(), 1);

    let result_alias: AgentCoreResult<()> = Ok(());
    assert!(result_alias.is_ok());
    let errors = vec![
        AgentCoreError::InvalidInput("input".to_string()),
        AgentCoreError::InvalidConfig("config".to_string()),
        AgentCoreError::NotFound("missing".to_string()),
        AgentCoreError::PermissionDenied("denied".to_string()),
        AgentCoreError::Recoverable("retry".to_string()),
        AgentCoreError::Fatal("fatal".to_string()),
    ];
    assert_eq!(errors.len(), 6);
    let serialization_error = AgentCoreError::Serialization(agent_core::json::parse_text("{").unwrap_err());
    assert!(matches!(serialization_error, AgentCoreError::Serialization(_)));
}
