//! Agents: a definition with the services it runs graphs with, a cancellation flag shared
//! with tokens, and the factory that checks definitions before making agents.

use vstd::prelude::*;
use crate::definition::{definition_error, AgentDefinition};
use crate::error::{AgentCoreError, AgentCoreResult};
use crate::event::CoreEvent;
use crate::graph::Graph;
use crate::graph_runner::{no_agent_nodes, run_outcome, GraphRunInput, GraphRunStatus, GraphRunner, RunOutcome, starts_run, ends_run};
use crate::graph_state::GraphStateV;
use crate::message::messages_view;
use crate::message::RunMessage;
use crate::sys::new_id;
use crate::text::owned;

verus! {

/// What an agent runs with.
#[derive(Debug, Clone, Copy)]
pub struct AgentServices {
    pub graph_runner: GraphRunner,
}

impl Default for AgentServices {
    fn default() -> (r: AgentServices) {
        AgentServices { graph_runner: GraphRunner::new() }
    }
}

/// How an agent run ended.
#[derive(Debug, Clone, Copy, PartialEq, Eq, Structural)]
pub enum AgentRunStatus {
    Completed,
    Cancelled,
    Failed,
}

pub open spec fn agent_status_text(s: AgentRunStatus) -> Seq<char> {
    match s {
        AgentRunStatus::Completed => "completed"@,
        AgentRunStatus::Cancelled => "cancelled"@,
        AgentRunStatus::Failed => "failed"@,
    }
}

/// A run's status as an agent reports it: a completed run completed, a cancelled one was
/// cancelled, and any other failed.
pub open spec fn agent_status_of(s: GraphRunStatus) -> AgentRunStatus {
    match s {
        GraphRunStatus::Completed => AgentRunStatus::Completed,
        GraphRunStatus::Cancelled => AgentRunStatus::Cancelled,
        _ => AgentRunStatus::Failed,
    }
}

impl AgentRunStatus {
    pub fn as_str(self) -> (r: &'static str)
        ensures
            r@ == agent_status_text(self),
    {
        match self {
            AgentRunStatus::Completed => "completed",
            AgentRunStatus::Cancelled => "cancelled",
            AgentRunStatus::Failed => "failed",
        }
    }
}

/// What to run an agent with: the graph, its initial messages, a run id and a stop request.
#[derive(Debug)]
pub struct AgentRunInput {
    pub run_id: Option<u128>,
    pub graph: Graph,
    pub initial_messages: Vec<RunMessage>,
    pub stop_requested: bool,
}

impl AgentRunInput {
    pub fn new(graph: Graph) -> (r: AgentRunInput)
        ensures
            r.run_id is None && r.graph == graph && r.initial_messages@.len() == 0 && !r.stop_requested,
    {
        AgentRunInput { run_id: None, graph, initial_messages: Vec::new(), stop_requested: false }
    }

    pub fn with_initial_messages(self, messages: Vec<RunMessage>) -> (r: AgentRunInput)
        ensures
            r.run_id == self.run_id && r.graph == self.graph && r.initial_messages == messages && r.stop_requested == self.stop_requested,
    {
        AgentRunInput { initial_messages: messages, ..self }
    }

    pub fn with_stop_requested(self, stop_requested: bool) -> (r: AgentRunInput)
        ensures
            r.run_id == self.run_id && r.graph == self.graph && r.initial_messages == self.initial_messages && r.stop_requested == stop_requested,
    {
        AgentRunInput { stop_requested, ..self }
    }
}

/// What an agent run gives back.
#[derive(Debug)]
pub struct AgentRunResult {
    pub agent_id: u128,
    pub run_id: u128,
    pub graph_name: Option<String>,
    pub messages: Vec<RunMessage>,
    pub events: Vec<CoreEvent>,
    pub status: AgentRunStatus,
    pub error: Option<String>,
}

/// A handle that tells whether its agent was cancelled.
#[derive(Debug, Clone)]
pub struct AgentCancellationToken {
    inner: std::sync::Arc<std::sync::atomic::AtomicBool>,
}

impl AgentCancellationToken {
    pub fn is_cancelled(&self) -> (r: bool) {
        self.inner.load(std::sync::atomic::Ordering::SeqCst)
    }
}

/// An agent: its id, its definition, its services and its cancellation flag.
#[derive(Debug)]
pub struct Agent {
    id: u128,
    definition: std::sync::Arc<AgentDefinition>,
    services: AgentServices,
    cancellation: std::sync::Arc<std::sync::atomic::AtomicBool>,
}

impl Agent {
    pub closed spec fn id_view(&self) -> u128 {
        self.id
    }

    pub closed spec fn definition_view(&self) -> AgentDefinition {
        *self.definition
    }

    /// A new agent with a fresh id, not cancelled.
    pub fn new(definition: std::sync::Arc<AgentDefinition>, services: AgentServices) -> (r: Agent)
        ensures
            r.definition_view() == *definition,
    {
        Agent { id: new_id(), definition, services, cancellation: std::sync::Arc::new(std::sync::atomic::AtomicBool::new(false)) }
    }

    pub fn id(&self) -> (r: u128)
        ensures
            r == self.id_view(),
    {
        self.id
    }

    pub fn definition(&self) -> (r: &AgentDefinition)
        ensures
            *r == self.definition_view(),
    {
        &self.definition
    }

    pub fn services(&self) -> (r: &AgentServices) {
        &self.services
    }

    /// A token sharing the agent's cancellation flag.
    pub fn cancellation_token(&self) -> (r: AgentCancellationToken) {
        AgentCancellationToken { inner: self.cancellation.clone() }
    }

    /// Cancels the agent: later runs, and every token, see it.
    pub fn cancel(&self) {
        self.cancellation.store(true, std::sync::atomic::Ordering::SeqCst)
    }

    /// Runs the input's graph for the agent. The events are the agent's start, the run's
    /// events and the agent's end with its status; the run is stopped before its first node
    /// when the input asks for it or the agent was cancelled.
    pub fn run(&self, input: AgentRunInput) -> (r: AgentCoreResult<AgentRunResult>)
        ensures
            r matches Err(e) ==> e is InvalidConfig,
            r matches Ok(res) ==> {
                &&& res.agent_id == self.id_view()
                &&& input.run_id matches Some(id) ==> res.run_id == id
                &&& res.graph_name matches Some(n) && n@ == input.graph.view().name
                &&& res.events@.len() >= 4
                &&& res.events@[0] matches CoreEvent::AgentStarted { agent_id, agent_name, graph_name }
                    && agent_id == self.id_view() && agent_name@ == self.definition_view().name_view() && graph_name@ == input.graph.view().name
                &&& starts_run(res.events@.subrange(1, res.events@.len() - 1), res.run_id, input.graph.view().name)
                &&& res.events@.last() matches CoreEvent::AgentEnded { agent_id, agent_name, status }
                    && agent_id == self.id_view() && agent_name@ == self.definition_view().name_view()
                    && status@ == agent_status_text(res.status)
                &&& input.stop_requested ==> res.status == AgentRunStatus::Cancelled && res.messages@.len() == 0
                &&& exists|stop: bool, s: GraphStateV, gs: GraphRunStatus| #![trigger run_outcome(input.graph.view(), messages_view(input.initial_messages@), res.run_id, stop), agent_status_of(gs), s.log]
                    (input.stop_requested ==> stop)
                    && run_outcome(input.graph.view(), messages_view(input.initial_messages@), res.run_id, stop) == (RunOutcome::Ended { status: gs, state: s })
                    && res.status == agent_status_of(gs)
                    && messages_view(res.messages@) == Seq::new(s.log.len(), |i: int| s.log[i].message)
            },
            input.stop_requested || no_agent_nodes(input.graph.view()) ==> r is Ok,
    {
        let graph_name = owned(input.graph.name());
        let cancelled = self.cancellation.load(std::sync::atomic::Ordering::SeqCst);
        let stop_requested = input.stop_requested || cancelled;
        let mut events: Vec<CoreEvent> = Vec::new();
        events.push(CoreEvent::AgentStarted { agent_id: self.id, agent_name: owned(self.definition.name()), graph_name: owned(graph_name.as_str()) });
        let AgentRunInput { run_id, graph, initial_messages, stop_requested: _ } = input;
        let graph_input = GraphRunInput { run_id, initial_messages, stop_requested };
        let result = match self.services.graph_runner.run(&graph, graph_input) {
            Ok(r) => r,
            Err(e) => {
                return Err(e);
            },
        };
        let ghost ge = result.events@;
        let mut graph_events = result.events;
        events.append(&mut graph_events);
        let status = match result.status {
            GraphRunStatus::Completed => AgentRunStatus::Completed,
            GraphRunStatus::Cancelled => AgentRunStatus::Cancelled,
            GraphRunStatus::BudgetExceeded | GraphRunStatus::Failed => AgentRunStatus::Failed,
        };
        events.push(CoreEvent::AgentEnded { agent_id: self.id, agent_name: owned(self.definition.name()), status: owned(status.as_str()) });
        proof {
            assert(events@.subrange(1, events@.len() - 1) =~= ge);
        }
        let ghost gs = result.status;
        let ghost s = result.state.view();
        let res = AgentRunResult {
            agent_id: self.id,
            run_id: result.run_id,
            graph_name: Some(graph_name),
            messages: result.messages,
            events,
            status,
            error: result.error,
        };
        proof {
            assert(res.status == agent_status_of(gs));
            assert(messages_view(res.messages@) == Seq::new(s.log.len(), |i: int| s.log[i].message));
            assert(run_outcome(input.graph.view(), messages_view(input.initial_messages@), res.run_id, stop_requested)
                == (RunOutcome::Ended { status: gs, state: s }));
            assert(input.stop_requested ==> stop_requested);
        }
        Ok(res)
    }
}

/// Makes agents from checked definitions.
#[derive(Debug, Clone, Copy)]
pub struct AgentFactory {
    services: AgentServices,
}

impl Default for AgentFactory {
    fn default() -> (r: AgentFactory) {
        AgentFactory { services: AgentServices::default() }
    }
}

impl AgentFactory {
    pub fn new(services: AgentServices) -> (r: AgentFactory) {
        AgentFactory { services }
    }

    /// An agent for a definition; refused when the definition's name or prompt is blank.
    pub fn create(&self, definition: AgentDefinition) -> (r: AgentCoreResult<Agent>)
        ensures
            definition_error(definition.name_view(), definition.prompt_view()) is Some <==> r is Err,
            r matches Ok(a) ==> a.definition_view() == definition,
    {
        match AgentFactory::validate_definition(&definition) {
            Ok(()) => {},
            Err(e) => {
                return Err(e);
            },
        }
        Ok(Agent::new(std::sync::Arc::new(definition), self.services))
    }

    fn validate_definition(definition: &AgentDefinition) -> (r: AgentCoreResult<()>)
        ensures
            definition_error(definition.name_view(), definition.prompt_view()) is Some <==> r is Err,
    {
        definition.validate()
    }
}

} // verus!
