//! Graph edges: which node an emitted message activates, and under which condition.

use vstd::prelude::*;
use crate::error::AgentCoreResult;
use crate::graph_state::{GraphStateV, GraphStateView};
use crate::message::{BlockV, ContentBlock, MessageRole, MessageV, RunMessage};
use crate::text::{dup_string, owned};

verus! {

/// How much of the source context the activated node inherits.
#[derive(Debug, Clone, Copy, PartialEq, Eq, Structural)]
pub enum ContextInheritPolicy {
    Full,
}

/// When an edge fires for a message emitted by its source node.
#[derive(Debug, Clone, Copy, PartialEq, Eq, Structural)]
pub enum ActivationCondition {
    OnAnyMessage,
    Always,
    Never,
    MessageRoleIs { role: MessageRole },
    MessageHasText,
    MessageHasToolCall,
    MessageHasToolResult { is_error: Option<bool> },
    SourceVersionAtLeast { version: u64 },
    SourceMessageCountAtLeast { count: usize },
}

pub open spec fn has_text_block(m: MessageV) -> bool {
    exists|i: int| 0 <= i < m.content.len() && m.content[i] is Text
}

pub open spec fn has_tool_call_block(m: MessageV) -> bool {
    exists|i: int| 0 <= i < m.content.len() && m.content[i] is ToolCall
}

/// A tool-result block whose error flag matches `is_error` (any flag when `None`).
pub open spec fn result_block_matches(b: BlockV, is_error: Option<bool>) -> bool {
    match b {
        BlockV::ToolResult { is_error: e, .. } => match is_error {
            None => true,
            Some(want) => e == want,
        },
        _ => false,
    }
}

pub open spec fn has_tool_result_block(m: MessageV, is_error: Option<bool>) -> bool {
    exists|i: int| 0 <= i < m.content.len() && result_block_matches(m.content[i], is_error)
}

/// A tool-result condition with a wanted error flag holds exactly when the message has a
/// tool-result block with that flag; without a wanted flag, when it has any tool-result
/// block. So a message whose tool results all succeeded never wakes an error-only edge.
pub proof fn lemma_tool_result_condition(source: Seq<char>, message: MessageV, version: u64, s: GraphStateV, want: Option<bool>)
    ensures
        want matches Some(b) ==> (condition_holds(ActivationCondition::MessageHasToolResult { is_error: want }, source, message, version, s)
            <==> exists|i: int|
            0 <= i < message.content.len() && #[trigger] message.content[i] is ToolResult && message.content[i]->ToolResult_is_error == b),
        want is None ==> (condition_holds(ActivationCondition::MessageHasToolResult { is_error: want }, source, message, version, s)
            <==> exists|i: int| 0 <= i < message.content.len() && #[trigger] message.content[i] is ToolResult),
        (forall|i: int| 0 <= i < message.content.len() && #[trigger] message.content[i] is ToolResult
            ==> !message.content[i]->ToolResult_is_error) ==> !condition_holds(
            ActivationCondition::MessageHasToolResult { is_error: Some(true) },
            source,
            message,
            version,
            s,
        ),
{
    let c = message.content;
    if condition_holds(ActivationCondition::MessageHasToolResult { is_error: Some(true) }, source, message, version, s) {
        let i = choose|i: int| 0 <= i < c.len() && result_block_matches(c[i], Some(true));
        assert(c[i] is ToolResult);
    }
    if want is None {
        if exists|i: int| 0 <= i < c.len() && #[trigger] c[i] is ToolResult {
            let i = choose|i: int| 0 <= i < c.len() && #[trigger] c[i] is ToolResult;
            assert(result_block_matches(c[i], want));
        }
    }
    if let Some(b) = want {
        if exists|i: int| 0 <= i < c.len() && #[trigger] c[i] is ToolResult && c[i]->ToolResult_is_error == b {
            let i = choose|i: int| 0 <= i < c.len() && #[trigger] c[i] is ToolResult && c[i]->ToolResult_is_error == b;
            assert(result_block_matches(c[i], want));
        }
    }
}

/// What each of the other conditions asks of the emitted message: any message wakes
/// OnAnyMessage and Always edges and none wakes a Never edge; MessageRoleIs wants that
/// role; MessageHasText and MessageHasToolCall want a text block or a tool-call block;
/// SourceVersionAtLeast compares the message's version, and SourceMessageCountAtLeast the
/// number of messages the source has emitted.
pub proof fn lemma_condition_meaning(source: Seq<char>, message: MessageV, version: u64, s: GraphStateV)
    ensures
        condition_holds(ActivationCondition::OnAnyMessage, source, message, version, s),
        condition_holds(ActivationCondition::Always, source, message, version, s),
        !condition_holds(ActivationCondition::Never, source, message, version, s),
        forall|role: MessageRole|
            #[trigger] condition_holds(ActivationCondition::MessageRoleIs { role }, source, message, version, s) <==> message.role
                == role,
        condition_holds(ActivationCondition::MessageHasText, source, message, version, s) <==> exists|i: int|
            0 <= i < message.content.len() && #[trigger] message.content[i] is Text,
        condition_holds(ActivationCondition::MessageHasToolCall, source, message, version, s) <==> exists|i: int|
            0 <= i < message.content.len() && #[trigger] message.content[i] is ToolCall,
        forall|min: u64|
            #[trigger] condition_holds(ActivationCondition::SourceVersionAtLeast { version: min }, source, message, version, s)
                <==> version >= min,
        forall|count: usize|
            #[trigger] condition_holds(ActivationCondition::SourceMessageCountAtLeast { count }, source, message, version, s)
                <==> s.message_count(source) >= count,
{
}

/// Whether `c` holds for `message`, the `version`-th message of `source`, in state `s`.
pub open spec fn condition_holds(
    c: ActivationCondition,
    source: Seq<char>,
    message: MessageV,
    version: u64,
    s: GraphStateV,
) -> bool {
    match c {
        ActivationCondition::OnAnyMessage => true,
        ActivationCondition::Always => true,
        ActivationCondition::Never => false,
        ActivationCondition::MessageRoleIs { role } => message.role == role,
        ActivationCondition::MessageHasText => has_text_block(message),
        ActivationCondition::MessageHasToolCall => has_tool_call_block(message),
        ActivationCondition::MessageHasToolResult { is_error } => has_tool_result_block(message, is_error),
        ActivationCondition::SourceVersionAtLeast { version: min } => version >= min,
        ActivationCondition::SourceMessageCountAtLeast { count } => s.message_count(source) >= count,
    }
}

fn any_text_block(content: &Vec<ContentBlock>) -> (r: bool)
    ensures
        r == exists|i: int| 0 <= i < content.len() && content@[i].view() is Text,
{
    let mut i: usize = 0;
    while i < content.len()
        invariant
            i <= content.len(),
            forall|k: int| 0 <= k < i ==> !(content@[k].view() is Text),
        decreases content.len() - i,
    {
        if let ContentBlock::Text { .. } = &content[i] {
            return true;
        }
        i += 1;
    }
    false
}

fn any_tool_call_block(content: &Vec<ContentBlock>) -> (r: bool)
    ensures
        r == exists|i: int| 0 <= i < content.len() && content@[i].view() is ToolCall,
{
    let mut i: usize = 0;
    while i < content.len()
        invariant
            i <= content.len(),
            forall|k: int| 0 <= k < i ==> !(content@[k].view() is ToolCall),
        decreases content.len() - i,
    {
        if let ContentBlock::ToolCall { .. } = &content[i] {
            return true;
        }
        i += 1;
    }
    false
}

fn any_tool_result_block(content: &Vec<ContentBlock>, is_error: Option<bool>) -> (r: bool)
    ensures
        r == exists|i: int| 0 <= i < content.len() && result_block_matches(content@[i].view(), is_error),
{
    let mut i: usize = 0;
    while i < content.len()
        invariant
            i <= content.len(),
            forall|k: int| 0 <= k < i ==> !result_block_matches(content@[k].view(), is_error),
        decreases content.len() - i,
    {
        if let ContentBlock::ToolResult { is_error: e, .. } = &content[i] {
            let hit = match is_error {
                None => true,
                Some(want) => *e == want,
            };
            if hit {
                return true;
            }
        }
        i += 1;
    }
    false
}

impl ActivationCondition {
    pub fn matches(
        &self,
        source_node_id: &str,
        source_message: &RunMessage,
        source_message_version: u64,
        state: &GraphStateView<'_>,
    ) -> (r: bool)
        ensures
            r == condition_holds(*self, source_node_id@, source_message.view(), source_message_version, state.state_view()),
    {
        let ghost m = source_message.view();
        match self {
            ActivationCondition::OnAnyMessage => true,
            ActivationCondition::Always => true,
            ActivationCondition::Never => false,
            ActivationCondition::MessageRoleIs { role } => source_message.role == *role,
            ActivationCondition::MessageHasText => {
                let r = any_text_block(&source_message.content);
                proof {
                    if r {
                        let i = choose|i: int| 0 <= i < source_message.content.len() && source_message.content@[i].view() is Text;
                        assert(m.content[i] is Text);
                    }
                }
                r
            },
            ActivationCondition::MessageHasToolCall => {
                let r = any_tool_call_block(&source_message.content);
                proof {
                    if r {
                        let i = choose|i: int| 0 <= i < source_message.content.len() && source_message.content@[i].view() is ToolCall;
                        assert(m.content[i] is ToolCall);
                    }
                }
                r
            },
            ActivationCondition::MessageHasToolResult { is_error } => {
                let r = any_tool_result_block(&source_message.content, *is_error);
                proof {
                    if r {
                        let i = choose|i: int| 0 <= i < source_message.content.len() && result_block_matches(source_message.content@[i].view(), *is_error);
                        assert(result_block_matches(m.content[i], *is_error));
                    }
                }
                r
            },
            ActivationCondition::SourceVersionAtLeast { version } => source_message_version >= *version,
            ActivationCondition::SourceMessageCountAtLeast { count } => state.message_count(source_node_id) >= *count,
        }
    }
}

/// What evaluating an edge decided.
#[derive(Debug, Clone, PartialEq, Eq)]
pub enum EdgeDecision {
    Sleep,
    Activate { target_node_id: String, inherit_policy: ContextInheritPolicy },
}

pub enum DecisionV {
    Sleep,
    Activate { target_node_id: Seq<char>, inherit_policy: ContextInheritPolicy },
}

impl EdgeDecision {
    pub open spec fn view(&self) -> DecisionV {
        match self {
            EdgeDecision::Sleep => DecisionV::Sleep,
            EdgeDecision::Activate { target_node_id, inherit_policy } => DecisionV::Activate {
                target_node_id: target_node_id@,
                inherit_policy: *inherit_policy,
            },
        }
    }
}

/// A directed edge between two nodes.
#[derive(Debug, PartialEq, Clone)]
pub struct GraphEdge {
    id: String,
    source_node_id: String,
    target_node_id: String,
    inherit_policy: ContextInheritPolicy,
    activation_condition: ActivationCondition,
    priority: i32,
}

pub struct EdgeV {
    pub id: Seq<char>,
    pub source_node_id: Seq<char>,
    pub target_node_id: Seq<char>,
    pub inherit_policy: ContextInheritPolicy,
    pub activation_condition: ActivationCondition,
    pub priority: i32,
}

impl GraphEdge {
    pub closed spec fn view(&self) -> EdgeV {
        EdgeV {
            id: self.id@,
            source_node_id: self.source_node_id@,
            target_node_id: self.target_node_id@,
            inherit_policy: self.inherit_policy,
            activation_condition: self.activation_condition,
            priority: self.priority,
        }
    }

    /// An edge that fires on any message, with full context and priority 0.
    pub fn new(id: &str, source_node_id: &str, target_node_id: &str) -> (r: GraphEdge)
        ensures
            r.view() == (EdgeV {
                id: id@,
                source_node_id: source_node_id@,
                target_node_id: target_node_id@,
                inherit_policy: ContextInheritPolicy::Full,
                activation_condition: ActivationCondition::OnAnyMessage,
                priority: 0,
            }),
    {
        GraphEdge {
            id: owned(id),
            source_node_id: owned(source_node_id),
            target_node_id: owned(target_node_id),
            inherit_policy: ContextInheritPolicy::Full,
            activation_condition: ActivationCondition::OnAnyMessage,
            priority: 0,
        }
    }

    pub fn with_inherit_policy(self, inherit_policy: ContextInheritPolicy) -> (r: GraphEdge)
        ensures
            r.view() == (EdgeV { inherit_policy, ..self.view() }),
    {
        let mut e = self;
        e.inherit_policy = inherit_policy;
        e
    }

    pub fn with_activation_condition(self, activation_condition: ActivationCondition) -> (r: GraphEdge)
        ensures
            r.view() == (EdgeV { activation_condition, ..self.view() }),
    {
        let mut e = self;
        e.activation_condition = activation_condition;
        e
    }

    pub fn with_priority(self, priority: i32) -> (r: GraphEdge)
        ensures
            r.view() == (EdgeV { priority, ..self.view() }),
    {
        let mut e = self;
        e.priority = priority;
        e
    }

    pub fn id(&self) -> (r: &str)
        ensures
            r@ == self.view().id,
    {
        self.id.as_str()
    }

    pub fn source_node_id(&self) -> (r: &str)
        ensures
            r@ == self.view().source_node_id,
    {
        self.source_node_id.as_str()
    }

    pub fn target_node_id(&self) -> (r: &str)
        ensures
            r@ == self.view().target_node_id,
    {
        self.target_node_id.as_str()
    }

    pub fn inherit_policy(&self) -> (r: &ContextInheritPolicy)
        ensures
            *r == self.view().inherit_policy,
    {
        &self.inherit_policy
    }

    pub fn activation_condition(&self) -> (r: &ActivationCondition)
        ensures
            *r == self.view().activation_condition,
    {
        &self.activation_condition
    }

    pub fn priority(&self) -> (r: i32)
        ensures
            r == self.view().priority,
    {
        self.priority
    }

    pub fn dup(&self) -> (r: GraphEdge)
        ensures
            r.view() == self.view(),
    {
        GraphEdge {
            id: dup_string(&self.id),
            source_node_id: dup_string(&self.source_node_id),
            target_node_id: dup_string(&self.target_node_id),
            inherit_policy: self.inherit_policy,
            activation_condition: self.activation_condition,
            priority: self.priority,
        }
    }

    /// Activates the target when the condition holds for the message; sleeps otherwise.
    pub fn evaluate(
        &self,
        source_message: &RunMessage,
        source_message_version: u64,
        state: &GraphStateView<'_>,
    ) -> (r: AgentCoreResult<EdgeDecision>)
        ensures
            r is Ok,
            r matches Ok(d) && d.view() == (if condition_holds(
                self.view().activation_condition,
                self.view().source_node_id,
                source_message.view(),
                source_message_version,
                state.state_view(),
            ) {
                DecisionV::Activate { target_node_id: self.view().target_node_id, inherit_policy: self.view().inherit_policy }
            } else {
                DecisionV::Sleep
            }),
    {
        if self.activation_condition.matches(self.source_node_id.as_str(), source_message, source_message_version, state) {
            Ok(EdgeDecision::Activate { target_node_id: dup_string(&self.target_node_id), inherit_policy: self.inherit_policy })
        } else {
            Ok(EdgeDecision::Sleep)
        }
    }
}

} // verus!
