//! Graph nodes and what executing one emits.

use vstd::prelude::*;
use crate::error::{AgentCoreError, AgentCoreResult};
use crate::message::{dup_messages, messages_view, MessageV, RunMessage, opt_view, dup_opt};
use crate::text::{dup_string, owned};

verus! {

/// What a node does when it runs.
#[derive(Debug, Clone, PartialEq)]
pub enum GraphNodeAction {
    Noop,
    PassthroughInput,
    EmitMessages(Vec<RunMessage>),
    Agent { agent_name: String },
    Custom(String),
}

pub enum ActionV {
    Noop,
    PassthroughInput,
    EmitMessages(Seq<MessageV>),
    Agent(Seq<char>),
    Custom(Seq<char>),
}

impl View for GraphNodeAction {
    type V = ActionV;

    open spec fn view(&self) -> ActionV {
        match self {
            GraphNodeAction::Noop => ActionV::Noop,
            GraphNodeAction::PassthroughInput => ActionV::PassthroughInput,
            GraphNodeAction::EmitMessages(ms) => ActionV::EmitMessages(messages_view(ms@)),
            GraphNodeAction::Agent { agent_name } => ActionV::Agent(agent_name@),
            GraphNodeAction::Custom(s) => ActionV::Custom(s@),
        }
    }
}

impl GraphNodeAction {
    pub fn dup(&self) -> (r: GraphNodeAction)
        ensures
            r@ == self@,
    {
        match self {
            GraphNodeAction::Noop => GraphNodeAction::Noop,
            GraphNodeAction::PassthroughInput => GraphNodeAction::PassthroughInput,
            GraphNodeAction::EmitMessages(ms) => GraphNodeAction::EmitMessages(dup_messages(ms)),
            GraphNodeAction::Agent { agent_name } => GraphNodeAction::Agent { agent_name: dup_string(agent_name) },
            GraphNodeAction::Custom(s) => GraphNodeAction::Custom(dup_string(s)),
        }
    }
}

/// The messages handed to a node when it runs.
#[derive(Debug, Clone, PartialEq)]
pub struct NodeExecutionInput {
    pub input_messages: Vec<RunMessage>,
}

impl Default for NodeExecutionInput {
    fn default() -> (r: NodeExecutionInput)
        ensures
            r.input_messages@.len() == 0,
    {
        NodeExecutionInput { input_messages: Vec::new() }
    }
}

#[derive(Debug, Clone, Copy, PartialEq, Eq, Structural)]
pub enum NodeExecutionStatus {
    Completed,
}

/// The outcome of one node execution.
#[derive(Debug, Clone, PartialEq, Eq)]
pub struct NodeExecutionResult {
    pub node_id: String,
    pub status: NodeExecutionStatus,
    pub emitted_messages: usize,
}

/// The text of the refusal for an agent node, which needs an outside executor.
pub open spec fn agent_node_text(agent_name: Seq<char>) -> Seq<char> {
    "agent node `"@ + agent_name + "` requires an external node executor"@
}

/// The messages an action emits for the given input messages (`None` for an agent node).
pub open spec fn action_emits(action: ActionV, input: Seq<MessageV>) -> Option<Seq<MessageV>> {
    match action {
        ActionV::Noop => Some(Seq::empty()),
        ActionV::Custom(_) => Some(Seq::empty()),
        ActionV::PassthroughInput => Some(input),
        ActionV::EmitMessages(ms) => Some(ms),
        ActionV::Agent(_) => None,
    }
}

/// A node of a graph.
#[derive(Debug, Clone, PartialEq)]
pub struct GraphNode {
    id: String,
    label: Option<String>,
    action: GraphNodeAction,
    terminal: bool,
}

pub struct NodeV {
    pub id: Seq<char>,
    pub label: Option<Seq<char>>,
    pub action: ActionV,
    pub terminal: bool,
}

impl View for GraphNode {
    type V = NodeV;

    closed spec fn view(&self) -> NodeV {
        NodeV { id: self.id@, label: opt_view(self.label), action: self.action@, terminal: self.terminal }
    }
}

impl GraphNode {
    /// A non-terminal node that does nothing.
    pub fn new(id: &str) -> (r: GraphNode)
        ensures
            r@ == (NodeV { id: id@, label: None, action: ActionV::Noop, terminal: false }),
    {
        GraphNode { id: owned(id), label: None, action: GraphNodeAction::Noop, terminal: false }
    }

    pub fn with_label(self, label: &str) -> (r: GraphNode)
        ensures
            r@ == (NodeV { label: Some(label@), ..self@ }),
    {
        let mut n = self;
        n.label = Some(owned(label));
        n
    }

    pub fn with_action(self, action: GraphNodeAction) -> (r: GraphNode)
        ensures
            r@ == (NodeV { action: action@, ..self@ }),
    {
        let mut n = self;
        n.action = action;
        n
    }

    pub fn terminal(self, terminal: bool) -> (r: GraphNode)
        ensures
            r@ == (NodeV { terminal, ..self@ }),
    {
        let mut n = self;
        n.terminal = terminal;
        n
    }

    pub fn id(&self) -> (r: &str)
        ensures
            r@ == self@.id,
    {
        self.id.as_str()
    }

    pub fn label(&self) -> (r: Option<&str>)
        ensures
            match r {
                Some(l) => self@.label == Some(l@),
                None => self@.label is None,
            },
    {
        match &self.label {
            Some(l) => Some(l.as_str()),
            None => None,
        }
    }

    pub fn action(&self) -> (r: &GraphNodeAction)
        ensures
            r@ == self@.action,
    {
        &self.action
    }

    pub fn is_terminal(&self) -> (r: bool)
        ensures
            r == self@.terminal,
    {
        self.terminal
    }

    pub fn dup(&self) -> (r: GraphNode)
        ensures
            r@ == self@,
    {
        GraphNode { id: dup_string(&self.id), label: dup_opt(&self.label), action: self.action.dup(), terminal: self.terminal }
    }

    /// Runs the node's action: returns its result together with the messages it emits, in
    /// emission order. An agent node is refused: it needs an outside executor.
    pub fn execute(&self, input: NodeExecutionInput) -> (r: AgentCoreResult<(NodeExecutionResult, Vec<RunMessage>)>)
        ensures
            match action_emits(self@.action, messages_view(input.input_messages@)) {
                Some(emitted) => r matches Ok((res, out)) && messages_view(out@) == emitted && res.node_id@ == self@.id
                    && res.status == NodeExecutionStatus::Completed && res.emitted_messages == out.len(),
                None => r matches Err(AgentCoreError::InvalidConfig(t)) && self@.action matches ActionV::Agent(name)
                    && t@ == agent_node_text(name),
            },
    {
        let out: Vec<RunMessage> = match &self.action {
            GraphNodeAction::Noop => Vec::new(),
            GraphNodeAction::Custom(_) => Vec::new(),
            GraphNodeAction::PassthroughInput => input.input_messages,
            GraphNodeAction::EmitMessages(ms) => dup_messages(ms),
            GraphNodeAction::Agent { agent_name } => {
                let mut t = owned("agent node `");
                t.append(agent_name.as_str());
                t.append("` requires an external node executor");
                return Err(AgentCoreError::InvalidConfig(t));
            },
        };
        proof {
            if out@.len() == 0 {
                assert(messages_view(out@) =~= Seq::<MessageV>::empty());
            }
        }
        let n = out.len();
        Ok((NodeExecutionResult { node_id: dup_string(&self.id), status: NodeExecutionStatus::Completed, emitted_messages: n }, out))
    }
}

} // verus!
