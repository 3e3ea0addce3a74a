//! Runs a [`Graph`]: executes runnable nodes in queue order, records what they emit, and
//! activates outgoing edges at most once per source message version.

use vstd::prelude::*;
use crate::error::{AgentCoreError, AgentCoreResult, error_prefix, error_detail};
use crate::event::CoreEvent;
use crate::graph::{edges_view, has_node, Graph, GraphV};
use crate::graph_edge::{EdgeDecision, EdgeV, GraphEdge};
use crate::graph_node::{GraphNode, NodeExecutionInput};
use crate::graph_state::{
    count_of, lemma_count_of_le, record_nodes, records_view, FiredEdgeRecord, FiredV, GraphState, GraphStateV, NodeMessageRecord, RecordV,
    total_budget_text, node_budget_text,
};
use crate::message::{messages_view, MessageV, RunMessage};
use crate::sys::new_id;
use crate::text::{dup_string, owned};

verus! {

/// What to run a graph with.
#[derive(Debug, Clone, PartialEq)]
pub struct GraphRunInput {
    /// The run's id; a fresh one when `None`.
    pub run_id: Option<u128>,
    /// Handed to every start node.
    pub initial_messages: Vec<RunMessage>,
    /// Cancels the run before its first node.
    pub stop_requested: bool,
}

impl Default for GraphRunInput {
    fn default() -> (r: GraphRunInput)
        ensures
            r.run_id is None,
            r.initial_messages@.len() == 0,
            !r.stop_requested,
    {
        GraphRunInput { run_id: None, initial_messages: Vec::new(), stop_requested: false }
    }
}

#[derive(Debug, Clone, Copy, PartialEq, Eq, Structural)]
pub enum GraphRunStatus {
    Completed,
    Cancelled,
    BudgetExceeded,
    Failed,
}

pub open spec fn run_status_text(s: GraphRunStatus) -> Seq<char> {
    match s {
        GraphRunStatus::Completed => "completed"@,
        GraphRunStatus::Cancelled => "cancelled"@,
        GraphRunStatus::BudgetExceeded => "budget_exceeded"@,
        GraphRunStatus::Failed => "failed"@,
    }
}

impl GraphRunStatus {
    pub fn as_str(self) -> (r: &'static str)
        ensures
            r@ == run_status_text(self),
    {
        match self {
            GraphRunStatus::Completed => "completed",
            GraphRunStatus::Cancelled => "cancelled",
            GraphRunStatus::BudgetExceeded => "budget_exceeded",
            GraphRunStatus::Failed => "failed",
        }
    }
}

/// The outcome of a run.
#[derive(Debug)]
pub struct GraphRunResult {
    pub run_id: u128,
    pub status: GraphRunStatus,
    /// Every emitted message, in emission order.
    pub messages: Vec<RunMessage>,
    pub events: Vec<CoreEvent>,
    pub state: GraphState,
    pub error: Option<String>,
}

/// Runs graphs.
#[derive(Debug, Clone, Copy, Default)]
pub struct GraphRunner;

/// A node waiting to run, with the messages it will be handed.
struct RunnableNode {
    node_id: String,
    input_messages: Vec<RunMessage>,
}

/// The record of the edge `e` firing from the message `rec`.
pub open spec fn fired_of(e: EdgeV, rec: RecordV) -> FiredV {
    FiredV { edge_id: e.id, source_node_id: rec.node_id, source_message_version: rec.version, target_node_id: e.target_node_id }
}

/// The edge `e` fires from the message `rec` in the state `s`: it has not fired from it
/// before, and its condition holds.
pub open spec fn fires(e: EdgeV, rec: RecordV, s: GraphStateV) -> bool {
    !s.has_fired(fired_of(e, rec)) && crate::graph_edge::condition_holds(
        e.activation_condition,
        e.source_node_id,
        rec.message,
        rec.version,
        s,
    )
}

/// The state after offering the message `rec` to `edges` in order: each edge that fires is
/// recorded as fired.
pub open spec fn fire_edges(edges: Seq<EdgeV>, rec: RecordV, s: GraphStateV) -> GraphStateV
    decreases edges.len(),
{
    if edges.len() == 0 {
        s
    } else {
        let s1 = fire_edges(edges.drop_last(), rec, s);
        if fires(edges.last(), rec, s1) {
            GraphStateV { fired: s1.fired.push(fired_of(edges.last(), rec)), ..s1 }
        } else {
            s1
        }
    }
}

/// The messages a node has emitted, in log order.
pub open spec fn node_inputs(log: Seq<RecordV>, node: Seq<char>) -> Seq<MessageV> {
    let f = log.filter(|r: RecordV| r.node_id == node);
    Seq::new(f.len(), |i: int| f[i].message)
}

/// One runnable node was queued for each edge fired from `s0` to `s`, in order: the edge's
/// target, handed the messages `node` has emitted.
spec fn queued_for_fired(q0: Seq<RunnableNode>, q: Seq<RunnableNode>, s0: GraphStateV, s: GraphStateV, node: Seq<char>) -> bool {
    &&& s0.fired.is_prefix_of(s.fired)
    &&& q0.is_prefix_of(q)
    &&& q.len() - q0.len() == s.fired.len() - s0.fired.len()
    &&& forall|k: int| q0.len() <= k < q.len() ==> {
        &&& (#[trigger] q[k]).node_id@ == s.fired[s0.fired.len() + k - q0.len()].target_node_id
        &&& messages_view(q[k].input_messages@) == node_inputs(s0.log, node)
    }
}

proof fn lemma_queued_push(
    q0: Seq<RunnableNode>,
    q1: Seq<RunnableNode>,
    q2: Seq<RunnableNode>,
    s0: GraphStateV,
    s1: GraphStateV,
    s2: GraphStateV,
    node: Seq<char>,
    f: FiredV,
)
    requires
        queued_for_fired(q0, q1, s0, s1, node),
        s2.fired == s1.fired.push(f),
        q2.len() == q1.len() + 1,
        q2.subrange(0, q1.len() as int) == q1,
        q2.last().node_id@ == f.target_node_id,
        messages_view(q2.last().input_messages@) == node_inputs(s0.log, node),
    ensures
        queued_for_fired(q0, q2, s0, s2, node),
{
    assert(s2.fired.subrange(0, s0.fired.len() as int) =~= s1.fired.subrange(0, s0.fired.len() as int));
    assert(q2.subrange(0, q0.len() as int) =~= q1.subrange(0, q0.len() as int));
    assert forall|k: int| q0.len() <= k < q2.len() implies {
        &&& (#[trigger] q2[k]).node_id@ == s2.fired[s0.fired.len() + k - q0.len()].target_node_id
        &&& messages_view(q2[k].input_messages@) == node_inputs(s0.log, node)
    } by {
        if k < q1.len() {
            assert(q2[k] == q1[k]);
            assert(s2.fired[s0.fired.len() + k - q0.len()] == s1.fired[s0.fired.len() + k - q0.len()]);
        }
    }
}

/// A queued node as the run sees it: its id and the messages it will be handed.
pub type QueuedV = (Seq<char>, Seq<MessageV>);

spec fn queue_view(q: Seq<RunnableNode>) -> Seq<QueuedV> {
    Seq::new(q.len(), |k: int| (q[k].node_id@, messages_view(q[k].input_messages@)))
}

/// The runnable nodes queued for the edges fired from `s0` to `s`: each fired edge's target,
/// handed the messages `node` has emitted.
pub open spec fn queued_targets(s0: GraphStateV, s: GraphStateV, node: Seq<char>) -> Seq<QueuedV> {
    Seq::new(
        (s.fired.len() - s0.fired.len()) as nat,
        |k: int| (s.fired[s0.fired.len() + k].target_node_id, node_inputs(s0.log, node)),
    )
}

/// The record a message emitted by `node` gets: the node's next version, and the node as
/// its source when it names none.
pub open spec fn emitted_record(s: GraphStateV, node: Seq<char>, m: MessageV) -> RecordV {
    RecordV {
        node_id: node,
        version: (s.message_count(node) + 1) as u64,
        message: if m.source_node_id is None { MessageV { source_node_id: Some(node), ..m } } else { m },
    }
}

/// Recording one emitted message and offering it to the node's outgoing edges.
pub open spec fn emit_one(g: GraphV, node: Seq<char>, m: MessageV, q: Seq<QueuedV>, s: GraphStateV) -> (Seq<QueuedV>, GraphStateV) {
    let rec = emitted_record(s, node, m);
    let s1 = GraphStateV { log: s.log.push(rec), ..s };
    let s2 = fire_edges(g.outgoing(node), rec, s1);
    (q + queued_targets(s1, s2, node), s2)
}

/// Recording the emitted messages in order; `false` when the message log is full first.
pub open spec fn emit_all(g: GraphV, node: Seq<char>, ms: Seq<MessageV>, q: Seq<QueuedV>, s: GraphStateV) -> (Seq<QueuedV>, GraphStateV, bool)
    decreases ms.len(),
{
    if ms.len() == 0 {
        (q, s, true)
    } else if s.log.len() >= usize::MAX - 1 {
        (q, s, false)
    } else {
        let (q1, s1) = emit_one(g, node, ms[0], q, s);
        emit_all(g, node, ms.drop_first(), q1, s1)
    }
}

/// The budget refuses one more execution of `node`.
pub open spec fn execution_refused(s: GraphStateV, node: Seq<char>) -> bool {
    ||| (s.budget.max_total_node_executions matches Some(cap) && s.executions.len() + 1 > cap)
    ||| (s.budget.max_node_executions matches Some(cap) && s.execution_count(node) + 1 > cap)
}

/// How a run ends: with a status and a state, or refused (an agent node was reached).
pub enum RunOutcome {
    Ended { status: GraphRunStatus, state: GraphStateV },
    Refused,
}

/// The run from the queue position `head` on: the node there runs (unless the queue is
/// done, a stop was requested, or the budget refuses it), its messages are recorded and
/// offered to its edges, and the run completes after a terminal or end node.
pub open spec fn run_from(g: GraphV, q: Seq<QueuedV>, head: int, s: GraphStateV, fuel: nat) -> RunOutcome
    decreases fuel,
{
    if fuel == 0 {
        RunOutcome::Ended { status: GraphRunStatus::Failed, state: s }
    } else if head < 0 || head >= q.len() {
        RunOutcome::Ended { status: GraphRunStatus::Completed, state: s }
    } else if s.stop_requested {
        RunOutcome::Ended { status: GraphRunStatus::Cancelled, state: s }
    } else {
        let id = q[head].0;
        match crate::assoc::assoc_get(g.nodes, id) {
            None => RunOutcome::Ended { status: GraphRunStatus::Failed, state: s },
            Some(n) => if s.executions.len() >= usize::MAX - 1 || execution_refused(s, id) {
                RunOutcome::Ended { status: GraphRunStatus::BudgetExceeded, state: s }
            } else {
                let s1 = GraphStateV { executions: s.executions.push(id), ..s };
                match crate::graph_node::action_emits(n.action, q[head].1) {
                    None => RunOutcome::Refused,
                    Some(emitted) => {
                        let (q2, s2, ok) = emit_all(g, id, emitted, q, s1);
                        if !ok {
                            RunOutcome::Ended { status: GraphRunStatus::BudgetExceeded, state: s2 }
                        } else if n.terminal || g.end_node_ids.contains(id) {
                            RunOutcome::Ended { status: GraphRunStatus::Completed, state: s2 }
                        } else {
                            run_from(g, q2, head + 1, s2, (fuel - 1) as nat)
                        }
                    },
                }
            },
        }
    }
}

/// The start queue: every start node, in order, handed the initial messages.
pub open spec fn start_queue(g: GraphV, initial: Seq<MessageV>) -> Seq<QueuedV> {
    Seq::new(g.start_node_ids.len(), |k: int| (g.start_node_ids[k], initial))
}

/// The state a run starts in.
pub open spec fn start_state(g: GraphV, run_id: u128, stop: bool) -> GraphStateV {
    GraphStateV { run_id, budget: g.budget, log: Seq::empty(), fired: Seq::empty(), executions: Seq::empty(), stop_requested: stop }
}

/// The outcome of running `g` with the initial messages under the run id given.
pub open spec fn run_outcome(g: GraphV, initial: Seq<MessageV>, run_id: u128, stop: bool) -> RunOutcome {
    run_from(g, start_queue(g, initial), 0, start_state(g, run_id, stop), usize::MAX as nat)
}

/// No node of the graph needs an outside agent.
pub open spec fn no_agent_nodes(g: GraphV) -> bool {
    forall|i: int| 0 <= i < g.nodes.len() ==> !((#[trigger] g.nodes[i]).1.action is Agent)
}

/// The run is not stopped and its total budget is zero.
pub open spec fn zero_budget_run(g: GraphV, stop: bool) -> bool {
    !stop && g.budget.max_total_node_executions == Some(0usize)
}

/// The run is not stopped, and its first start node is terminal (or an end node), emits
/// nothing from the initial messages, and is admitted by the budget.
pub open spec fn terminal_start_run(g: GraphV, initial: Seq<MessageV>, stop: bool) -> bool {
    let id = g.start_node_ids[0];
    let n = crate::assoc::assoc_get(g.nodes, id)->0;
    &&& !stop
    &&& n.terminal || g.end_node_ids.contains(id)
    &&& crate::graph_node::action_emits(n.action, initial) == Some(Seq::<MessageV>::empty())
    &&& !execution_refused(start_state(g, 0, false), id)
}

/// A run whose total budget is zero ends over budget before any node runs.
pub proof fn lemma_run_zero_budget(g: GraphV, initial: Seq<MessageV>, run_id: u128)
    requires
        g.wf(),
        g.budget.max_total_node_executions == Some(0usize),
    ensures
        run_outcome(g, initial, run_id, false) == (RunOutcome::Ended {
            status: GraphRunStatus::BudgetExceeded,
            state: start_state(g, run_id, false),
        }),
{
    let q = start_queue(g, initial);
    assert(has_node(g.nodes, g.start_node_ids[0]));
    assert(q[0].0 == g.start_node_ids[0]);
    assert(execution_refused(start_state(g, run_id, false), g.start_node_ids[0]));
}

/// A run whose first start node is terminal (or an end node), emits nothing and is admitted
/// by the budget completes after running that node alone.
pub proof fn lemma_run_terminal_start(g: GraphV, initial: Seq<MessageV>, run_id: u128)
    requires
        g.wf(),
        ({
            let id = g.start_node_ids[0];
            let n = crate::assoc::assoc_get(g.nodes, id)->0;
            &&& n.terminal || g.end_node_ids.contains(id)
            &&& crate::graph_node::action_emits(n.action, initial) == Some(Seq::<MessageV>::empty())
            &&& !execution_refused(start_state(g, run_id, false), id)
        }),
    ensures
        run_outcome(g, initial, run_id, false) == (RunOutcome::Ended {
            status: GraphRunStatus::Completed,
            state: GraphStateV { executions: seq![g.start_node_ids[0]], ..start_state(g, run_id, false) },
        }),
{
    let q = start_queue(g, initial);
    let id = g.start_node_ids[0];
    let s0 = start_state(g, run_id, false);
    assert(has_node(g.nodes, id));
    assert(q[0].0 == id && q[0].1 == initial);
    let s1 = GraphStateV { executions: s0.executions.push(id), ..s0 };
    assert(s0.executions.push(id) =~= seq![id]);
    assert(emit_all(g, id, Seq::<MessageV>::empty(), q, s1) == (q, s1, true));
}

proof fn lemma_queued_targets(q0: Seq<RunnableNode>, q: Seq<RunnableNode>, s0: GraphStateV, s: GraphStateV, node: Seq<char>)
    requires
        queued_for_fired(q0, q, s0, s, node),
    ensures
        queue_view(q) == queue_view(q0) + queued_targets(s0, s, node),
{
    assert forall|k: int| 0 <= k < q.len() implies queue_view(q)[k] == (queue_view(q0) + queued_targets(s0, s, node))[k] by {
        if k < q0.len() {
            assert(q.subrange(0, q0.len() as int)[k] == q[k]);
        }
    }
    assert(queue_view(q) =~= queue_view(q0) + queued_targets(s0, s, node));
}

/// A fired-edge record names an edge of the graph.
pub open spec fn edge_matches(e: EdgeV, f: FiredV) -> bool {
    &&& e.id == f.edge_id
    &&& e.source_node_id == f.source_node_id
    &&& e.target_node_id == f.target_node_id
}

/// A fired record names a graph edge and a message version its source has emitted.
pub open spec fn fired_valid(g: GraphV, s: GraphStateV, f: FiredV) -> bool {
    &&& exists|j: int| 0 <= j < g.edges.len() && edge_matches(#[trigger] g.edges[j], f)
    &&& 1 <= f.source_message_version <= s.message_count(f.source_node_id)
}

/// What a run keeps true of its state: the state is well formed, under the graph's budget,
/// and speaks only of the graph's nodes and edges.
pub open spec fn run_consistent(g: GraphV, s: GraphStateV) -> bool {
    &&& s.wf()
    &&& s.budget == g.budget
    &&& forall|i: int| 0 <= i < s.executions.len() ==> has_node(g.nodes, #[trigger] s.executions[i])
    &&& forall|i: int| 0 <= i < s.log.len() ==> has_node(g.nodes, (#[trigger] s.log[i]).node_id)
    &&& forall|i: int| 0 <= i < s.fired.len() ==> fired_valid(g, s, #[trigger] s.fired[i])
}

spec fn queue_ok(g: GraphV, q: Seq<RunnableNode>, from: int) -> bool {
    forall|k: int| from <= k < q.len() ==> has_node(g.nodes, (#[trigger] q[k]).node_id@)
}

proof fn lemma_count_push(s: Seq<Seq<char>>, x: Seq<char>, n: Seq<char>)
    ensures
        count_of(s.push(x), n) == count_of(s, n) + if x == n { 1nat } else { 0nat },
{
    assert(s.push(x).drop_last() =~= s);
}

/// The events a run reports for graph `name` begin with its start.
pub open spec fn starts_run(events: Seq<CoreEvent>, run_id: u128, name: Seq<char>) -> bool {
    &&& events.len() >= 1
    &&& events[0] matches CoreEvent::GraphStarted { run_id: id, graph_name } && id == run_id && graph_name@ == name
}

/// The last event ends the run with the given status.
pub open spec fn ends_run(events: Seq<CoreEvent>, run_id: u128, name: Seq<char>, status: GraphRunStatus) -> bool {
    &&& events.len() >= 2
    &&& events.last() matches CoreEvent::GraphEnded { run_id: id, graph_name, status: st } && id == run_id
        && graph_name@ == name && st@ == run_status_text(status)
}

impl GraphRunner {
    pub fn new() -> (r: GraphRunner)
        ensures
            r == GraphRunner,
    {
        GraphRunner
    }

    /// Runs `graph` from its start nodes, each handed the initial messages.
    ///
    /// Nodes run in queue order. Each message a node emits gets the node's next version and
    /// is offered to the node's outgoing edges in edge order; an edge that has not fired for
    /// that message version and whose condition holds fires once and queues its target with
    /// every message of the source so far. The run completes when the queue empties or a
    /// terminal or end node has run; it is cancelled when a stop was requested; it stops with
    /// `BudgetExceeded` when a node execution would exceed the budget. An agent node is an
    /// error.
    pub fn run(&self, graph: &Graph, input: GraphRunInput) -> (r: AgentCoreResult<GraphRunResult>)
        ensures
            r matches Err(e) ==> e is InvalidConfig,
            r matches Ok(res) ==> {
                let s = res.state.view();
                let g = graph.view();
                &&& input.run_id matches Some(id) ==> res.run_id == id
                &&& s.run_id == res.run_id
                &&& run_consistent(g, s)
                &&& messages_view(res.messages@) == Seq::new(s.log.len(), |i: int| s.log[i].message)
                &&& starts_run(res.events@, res.run_id, g.name)
                &&& ends_run(res.events@, res.run_id, g.name, res.status)
                &&& res.status != GraphRunStatus::Failed
                &&& (res.status == GraphRunStatus::Cancelled <==> input.stop_requested)
                &&& s.stop_requested == input.stop_requested
                &&& (input.stop_requested ==> s.executions.len() == 0 && s.log.len() == 0 && s.fired.len() == 0)
                &&& (res.status == GraphRunStatus::BudgetExceeded <==> res.error is Some)
                &&& (!input.stop_requested && res.status != GraphRunStatus::BudgetExceeded ==> s.executions.len() >= 1
                    && s.executions[0] == g.start_node_ids[0])
                &&& run_outcome(g, messages_view(input.initial_messages@), res.run_id, input.stop_requested)
                    == RunOutcome::Ended { status: res.status, state: s }
                &&& (input.stop_requested ==> res.events@.len() == 2)
            },
            r is Err ==> exists|id: u128| (input.run_id matches Some(x) ==> id == x)
                && #[trigger] run_outcome(graph.view(), messages_view(input.initial_messages@), id, input.stop_requested) is Refused,
            no_agent_nodes(graph.view()) ==> r is Ok,
            input.stop_requested ==> (r matches Ok(res) && res.status == GraphRunStatus::Cancelled && res.messages@.len() == 0
                && res.state.view().executions.len() == 0),
            zero_budget_run(graph.view(), input.stop_requested) ==> (r matches Ok(res)
                && res.status == GraphRunStatus::BudgetExceeded && res.state.view().executions.len() == 0 && res.messages@.len() == 0),
            terminal_start_run(graph.view(), messages_view(input.initial_messages@), input.stop_requested) ==> (r matches Ok(res) && res.status == GraphRunStatus::Completed
                && res.state.view().executions == seq![graph.view().start_node_ids[0]] && res.messages@.len() == 0),
    {
        graph.check_wf();
        let ghost g = graph.view();
        let run_id = match input.run_id {
            Some(id) => id,
            None => new_id(),
        };
        let mut state = GraphState::new(run_id, *graph.budget());
        let mut events: Vec<CoreEvent> = Vec::new();
        events.push(CoreEvent::GraphStarted { run_id, graph_name: owned(graph.name()) });
        let mut queue: Vec<RunnableNode> = Vec::new();
        let starts = graph.start_node_ids();
        let mut i: usize = 0;
        while i < starts.len()
            invariant
                i <= starts.len(),
                g == graph.view(),
                g.wf(),
                crate::assoc::strings_view(starts@) == g.start_node_ids,
                queue.len() == i,
                forall|k: int| 0 <= k < i ==> (#[trigger] queue@[k]).node_id@ == g.start_node_ids[k]
                    && messages_view(queue@[k].input_messages@) == messages_view(input.initial_messages@),
            decreases starts.len() - i,
        {
            let msgs = crate::message::dup_messages(&input.initial_messages);
            queue.push(RunnableNode { node_id: dup_string(&starts[i]), input_messages: msgs });
            i += 1;
        }
        if input.stop_requested {
            state.request_stop();
        }
        let mut head: usize = 0;
        let ghost iv = messages_view(input.initial_messages@);
        let ghost target = run_outcome(g, iv, run_id, input.stop_requested);
        proof {
            assert(record_nodes(state.view().log) =~= Seq::<Seq<char>>::empty());
            assert(queue_view(queue@) =~= start_queue(g, iv));
            assert(state.view() == start_state(g, run_id, input.stop_requested));
            if zero_budget_run(g, input.stop_requested) {
                lemma_run_zero_budget(g, iv, run_id);
            }
            if input.stop_requested {
                assert(target == RunOutcome::Ended { status: GraphRunStatus::Cancelled, state: start_state(g, run_id, true) });
            }
            if terminal_start_run(g, iv, input.stop_requested) {
                let id0 = g.start_node_ids[0];
                assert(execution_refused(start_state(g, run_id, false), id0) == execution_refused(start_state(g, 0, false), id0));
                lemma_run_terminal_start(g, iv, run_id);
            }
        }
        loop
            invariant
                g == graph.view(),
                g.wf(),
                head <= queue.len(),
                queue.len() >= g.start_node_ids.len(),
                queue_ok(g, queue@, head as int),
                forall|k: int| 0 <= k < g.start_node_ids.len() ==> (#[trigger] queue@[k]).node_id@ == g.start_node_ids[k],
                run_consistent(g, state.view()),
                state.view().run_id == run_id,
                input.run_id matches Some(id) ==> run_id == id,
                state.view().stop_requested == input.stop_requested,
                input.stop_requested ==> head == 0 && state.view().executions.len() == 0 && state.view().log.len() == 0
                    && state.view().fired.len() == 0,
                head > 0 ==> state.view().executions.len() >= 1 && state.view().executions[0] == g.start_node_ids[0],
                head == 0 ==> state.view().executions.len() == 0,
                starts_run(events@, run_id, g.name),
                iv == messages_view(input.initial_messages@),
                target == run_outcome(g, iv, run_id, input.stop_requested),
                input.stop_requested ==> target == (RunOutcome::Ended {
                    status: GraphRunStatus::Cancelled, state: start_state(g, run_id, true) }),
                zero_budget_run(g, input.stop_requested) ==> target == (RunOutcome::Ended {
                    status: GraphRunStatus::BudgetExceeded, state: start_state(g, run_id, false) }),
                terminal_start_run(g, iv, input.stop_requested) ==> target == (RunOutcome::Ended {
                    status: GraphRunStatus::Completed,
                    state: GraphStateV { executions: seq![g.start_node_ids[0]], ..start_state(g, run_id, false) } }),
                state.view().executions.len() <= usize::MAX - 1,
                run_from(g, queue_view(queue@), head as int, state.view(), (usize::MAX - state.view().executions.len()) as nat) == target,
                input.stop_requested ==> events@.len() == 1,
            decreases usize::MAX - state.view().executions.len(),
        {
            let ghost qs = queue_view(queue@);
            let ghost s_top = state.view();
            let ghost fuel0 = (usize::MAX - s_top.executions.len()) as nat;
            if head >= queue.len() {
                let res = Self::finish(graph, GraphRunStatus::Completed, state, events, None);
                return Ok(res);
            }
            if state.is_stop_requested() {
                let res = Self::finish(graph, GraphRunStatus::Cancelled, state, events, None);
                return Ok(res);
            }
            let node_id = dup_string(&queue[head].node_id);
            let input_messages = crate::message::dup_messages(&queue[head].input_messages);
            head += 1;
            let node = match graph.node(node_id.as_str()) {
                Some(n) => n,
                None => {
                    let mut t = owned("graph node not found: ");
                    t.append(node_id.as_str());
                    proof {
                        assert(has_node(g.nodes, queue@[head - 1].node_id@));
                    }
                    let res = Self::finish(graph, GraphRunStatus::Failed, state, events, Some(t));
                    return Ok(res);
                },
            };
            if state.total_node_executions() >= usize::MAX - 1 {
                let res = Self::finish(graph, GraphRunStatus::BudgetExceeded, state, events, Some(owned("graph execution count limit reached")));
                return Ok(res);
            }
            proof {
                crate::assoc::lemma_assoc_get_index(g.nodes, node_id@);
                let j = choose|j: int| 0 <= j < g.nodes.len() && g.nodes[j].0 == node_id@ && g.nodes[j].1 == node@
                    && forall|k: int| 0 <= k < j ==> g.nodes[k].0 != node_id@;
                assert(g.nodes[j].0 == g.nodes[j].1.id);
                assert(node@.id == node_id@);
            }
            let ghost before = state.view();
            let ghost te = node@.terminal || g.end_node_ids.contains(node_id@);
            match state.record_node_execution(node.id()) {
                Ok(()) => {},
                Err(e) => {
                    proof {
                        assert(execution_refused(before, node_id@));
                        assert(target == RunOutcome::Ended { status: GraphRunStatus::BudgetExceeded, state: state.view() });
                    }
                    let text = e.describe();
                    let res = Self::finish(graph, GraphRunStatus::BudgetExceeded, state, events, Some(text));
                    return Ok(res);
                },
            }
            proof {
                let s = state.view();
                assert(s.executions == before.executions.push(node_id@));
                assert forall|k: int| 0 <= k < s.executions.len() implies has_node(g.nodes, #[trigger] s.executions[k]) by {
                    if k < before.executions.len() {
                        assert(s.executions[k] == before.executions[k]);
                    }
                }
                if head == 1 {
                    assert(s.executions[0] == node_id@);
                } else {
                    assert(s.executions[0] == before.executions[0]);
                }
            }
            events.push(CoreEvent::NodeStarted { run_id, node_id: dup_string(&node_id) });
            let ghost s1 = state.view();
            let ghost fuel1 = (usize::MAX - s1.executions.len()) as nat;
            proof {
                assert(qs[head - 1].1 == messages_view(input_messages@));
                assert(s1 == GraphStateV { executions: before.executions.push(node_id@), ..before });
                if no_agent_nodes(g) {
                    let j = choose|j: int| 0 <= j < g.nodes.len() && g.nodes[j].0 == node_id@ && g.nodes[j].1 == node@;
                    assert(!(g.nodes[j].1.action is Agent));
                }
            }
            let (node_result, emitted) = match node.execute(NodeExecutionInput { input_messages }) {
                Ok(x) => x,
                Err(e) => {
                    proof {
                        assert(target is Refused);
                    }
                    return Err(e);
                },
            };
            let ghost ev = messages_view(emitted@);
            proof {
                assert(ev.skip(0) =~= ev);
                assert(target == ({
                    let e = emit_all(g, node_id@, ev, qs, s1);
                    if !e.2 {
                        RunOutcome::Ended { status: GraphRunStatus::BudgetExceeded, state: e.1 }
                    } else if te {
                        RunOutcome::Ended { status: GraphRunStatus::Completed, state: e.1 }
                    } else {
                        run_from(g, e.0, head as int, e.1, fuel1)
                    }
                }));
            }
            let mut m: usize = 0;
            while m < emitted.len()
                invariant
                    g == graph.view(),
                    g.wf(),
                    head <= queue.len(),
                    queue.len() >= g.start_node_ids.len(),
                    queue_ok(g, queue@, head as int),
                    forall|k: int| 0 <= k < g.start_node_ids.len() ==> (#[trigger] queue@[k]).node_id@ == g.start_node_ids[k],
                    run_consistent(g, state.view()),
                    state.view().run_id == run_id,
                    input.run_id matches Some(id) ==> run_id == id,
                    state.view().stop_requested == input.stop_requested,
                    !input.stop_requested,
                    head > 0,
                    state.view().executions.len() >= 1 && state.view().executions[0] == g.start_node_ids[0],
                    state.view().executions.len() == before.executions.len() + 1,
                    has_node(g.nodes, node_id@),
                    starts_run(events@, run_id, g.name),
                    m <= emitted.len(),
                    ev == messages_view(emitted@),
                    iv == messages_view(input.initial_messages@),
                    target == run_outcome(g, iv, run_id, input.stop_requested),
                    input.stop_requested ==> target == (RunOutcome::Ended {
                        status: GraphRunStatus::Cancelled, state: start_state(g, run_id, true) }),
                    zero_budget_run(g, input.stop_requested) ==> target == (RunOutcome::Ended {
                        status: GraphRunStatus::BudgetExceeded, state: start_state(g, run_id, false) }),
                    terminal_start_run(g, iv, input.stop_requested) ==> target == (RunOutcome::Ended {
                        status: GraphRunStatus::Completed,
                        state: GraphStateV { executions: seq![g.start_node_ids[0]], ..start_state(g, run_id, false) } }),
                    state.view().executions == s1.executions,
                    fuel1 == (usize::MAX - state.view().executions.len()) as nat,
                    s1.executions.len() <= usize::MAX - 1,
                    target == ({
                        let e = emit_all(g, node_id@, ev.skip(m as int), queue_view(queue@), state.view());
                        if !e.2 {
                            RunOutcome::Ended { status: GraphRunStatus::BudgetExceeded, state: e.1 }
                        } else if te {
                            RunOutcome::Ended { status: GraphRunStatus::Completed, state: e.1 }
                        } else {
                            run_from(g, e.0, head as int, e.1, fuel1)
                        }
                    }),
                decreases emitted.len() - m,
            {
                if state.log_len() >= usize::MAX - 1 {
                    proof {
                        assert(ev.skip(m as int).len() > 0);
                        assert(target == RunOutcome::Ended { status: GraphRunStatus::BudgetExceeded, state: state.view() });
                    }
                    let res = Self::finish(graph, GraphRunStatus::BudgetExceeded, state, events, Some(owned("graph message log limit reached")));
                    return Ok(res);
                }
                let ghost s0 = state.view();
                let ghost qa = queue_view(queue@);
                proof {
                    lemma_count_of_le(record_nodes(s0.log), node_id@);
                    assert(ev.skip(m as int)[0] == ev[m as int]);
                    assert(ev.skip(m as int).drop_first() =~= ev.skip(m + 1));
                }
                let record = state.append_message(node_id.as_str(), emitted[m].dup());
                proof {
                    let s1 = state.view();
                    assert(s1.log == s0.log.push(record.view()));
                    assert(record_nodes(s1.log) =~= record_nodes(s0.log).push(node_id@));
                    assert forall|n: Seq<char>| s1.message_count(n) >= s0.message_count(n) by {
                        lemma_count_push(record_nodes(s0.log), node_id@, n);
                    }
                    lemma_count_push(record_nodes(s0.log), node_id@, node_id@);
                    assert forall|k: int| 0 <= k < s1.log.len() implies has_node(g.nodes, (#[trigger] s1.log[k]).node_id) by {
                        if k < s0.log.len() {
                            assert(s1.log[k] == s0.log[k]);
                        }
                    }
                    assert forall|k: int| 0 <= k < s1.fired.len() implies fired_valid(g, s1, #[trigger] s1.fired[k]) by {
                        assert(fired_valid(g, s0, s0.fired[k]));
                    }
                }
                events.push(CoreEvent::MessageEmitted {
                    run_id,
                    node_id: dup_string(&record.node_id),
                    message_id: record.message.id,
                });
                let ghost sa = state.view();
                let ghost q_before = queue@;
                Self::process_node_message(graph, &mut state, &record, &mut queue);
                proof {
                    assert(record.view() == emitted_record(s0, node_id@, ev[m as int]));
                    lemma_queued_targets(q_before, queue@, sa, state.view(), node_id@);
                    assert(queue_view(q_before) == qa);
                    assert(emit_one(g, node_id@, ev[m as int], qa, s0) == (queue_view(queue@), state.view()));
                }
                m += 1;
            }
            events.push(CoreEvent::NodeEnded { run_id, node_id: dup_string(&node_id), emitted_messages: node_result.emitted_messages });
            proof {
                assert(ev.skip(m as int).len() == 0);
            }
            if node.is_terminal() || graph.is_end_node(node.id()) {
                let res = Self::finish(graph, GraphRunStatus::Completed, state, events, None);
                proof {
                    if terminal_start_run(g, iv, input.stop_requested) {
                        assert(target == RunOutcome::Ended { status: GraphRunStatus::Completed, state: res.state.view() });
                        assert(res.state.view().log.len() == 0);
                        assert(messages_view(res.messages@).len() == 0);
                    }
                }
                return Ok(res);
            }
        }
    }

    /// Offers one emitted message to the outgoing edges of its node.
    fn process_node_message(graph: &Graph, state: &mut GraphState, record: &NodeMessageRecord, queue: &mut Vec<RunnableNode>)
        requires
            graph.view().wf(),
            run_consistent(graph.view(), old(state).view()),
            has_node(graph.view().nodes, record.node_id@),
            1 <= record.version <= old(state).view().message_count(record.node_id@),
        ensures
            run_consistent(graph.view(), final(state).view()),
            final(state).view() == (GraphStateV { fired: final(state).view().fired, ..old(state).view() }),
            final(queue).len() >= old(queue).len(),
            forall|k: int| 0 <= k < old(queue).len() ==> (#[trigger] final(queue)@[k]).node_id@ == old(queue)@[k].node_id@,
            forall|k: int| old(queue).len() <= k < final(queue).len() ==> has_node(graph.view().nodes, (#[trigger] final(queue)@[k]).node_id@),
            final(state).view() == fire_edges(graph.view().outgoing(record.node_id@), record.view(), old(state).view()),
            queued_for_fired(old(queue)@, final(queue)@, old(state).view(), final(state).view(), record.node_id@),
    {
        let ghost g = graph.view();
        let ghost s0 = state.view();
        let ghost q0 = queue@;
        let ghost rv = record.view();
        let edges = graph.outgoing_edges(record.node_id.as_str());
        let mut i: usize = 0;
        while i < edges.len()
            invariant
                g == graph.view(),
                g.wf(),
                edges_view(edges@) == g.outgoing(record.node_id@),
                run_consistent(g, state.view()),
                state.view() == (GraphStateV { fired: state.view().fired, ..s0 }),
                has_node(g.nodes, record.node_id@),
                1 <= record.version <= s0.message_count(record.node_id@),
                queue.len() >= q0.len(),
                forall|k: int| 0 <= k < q0.len() ==> (#[trigger] queue@[k]).node_id@ == q0[k].node_id@,
                forall|k: int| q0.len() <= k < queue.len() ==> has_node(g.nodes, (#[trigger] queue@[k]).node_id@),
                i <= edges.len(),
                rv == record.view(),
                state.view() == fire_edges(edges_view(edges@).subrange(0, i as int), rv, s0),
                queued_for_fired(q0, queue@, s0, state.view(), record.node_id@),
            decreases edges.len() - i,
        {
            let edge = &edges[i];
            let ghost s_i = state.view();
            let ghost q_i = queue@;
            proof {
                let sub = edges_view(edges@).subrange(0, i + 1);
                assert(sub.drop_last() =~= edges_view(edges@).subrange(0, i as int));
                assert(sub.last() == edge.view());
            }
            proof {
                let ev = edges_view(edges@)[i as int];
                assert(ev == edge.view());
                assert(g.outgoing(record.node_id@).contains(ev));
                g.edges.lemma_filter_contains_rev(|e: EdgeV| e.source_node_id == record.node_id@, ev);
                g.edges.lemma_filter_pred(|e: EdgeV| e.source_node_id == record.node_id@, i as int);
            }
            let fired = FiredEdgeRecord::new(edge.id(), record.node_id.as_str(), record.version, edge.target_node_id());
            if !state.has_edge_fired(&fired) {
                let decision = {
                    let view = state.view_of();
                    edge.evaluate(&record.message, record.version, &view)
                };
                if let Ok(EdgeDecision::Activate { target_node_id, .. }) = decision {
                    let ghost fv = fired.view();
                    let ghost before = state.view();
                    if state.mark_edge_fired(fired) {
                        proof {
                            let s1 = state.view();
                            let ev = edge.view();
                            let j = choose|j: int| 0 <= j < g.edges.len() && g.edges[j] == ev;
                            assert(edge_matches(g.edges[j], fv));
                            assert forall|k: int| 0 <= k < s1.fired.len() implies fired_valid(g, s1, #[trigger] s1.fired[k]) by {
                                if k < before.fired.len() {
                                    assert(s1.fired[k] == before.fired[k]);
                                    assert(fired_valid(g, before, before.fired[k]));
                                } else {
                                    assert(s1.fired[k] == fv);
                                }
                            }
                            assert(has_node(g.nodes, ev.target_node_id));
                        }
                        let records = state.messages_for_node(record.node_id.as_str());
                        let mut inputs: Vec<RunMessage> = Vec::new();
                        let mut k: usize = 0;
                        while k < records.len()
                            invariant
                                k <= records.len(),
                                inputs@.len() == k,
                                forall|q: int| 0 <= q < k ==> (#[trigger] inputs@[q]).view() == records@[q].view().message,
                            decreases records.len() - k,
                        {
                            inputs.push(records[k].message.dup());
                            k += 1;
                        }
                        proof {
                            let f = state.view().log.filter(|r: RecordV| r.node_id == record.node_id@);
                            assert(records_view(records@) == f);
                            assert(state.view().log == s0.log);
                            assert forall|q: int| 0 <= q < inputs@.len() implies messages_view(inputs@)[q] == node_inputs(s0.log, record.node_id@)[q] by {
                                assert(records_view(records@)[q] == records@[q].view());
                            }
                            assert(messages_view(inputs@) =~= node_inputs(s0.log, record.node_id@));
                        }
                        queue.push(RunnableNode { node_id: target_node_id, input_messages: inputs });
                        proof {
                            assert(queue@.subrange(0, q_i.len() as int) =~= q_i);
                            lemma_queued_push(q0, q_i, queue@, s0, s_i, state.view(), record.node_id@, fv);
                        }
                    }
                }
            }
            i += 1;
        }
        proof {
            assert(edges_view(edges@).subrange(0, edges@.len() as int) =~= edges_view(edges@));
        }
    }

    /// Ends a run: reports the end event and collects the messages.
    fn finish(graph: &Graph, status: GraphRunStatus, state: GraphState, events: Vec<CoreEvent>, error: Option<String>) -> (r:
        GraphRunResult)
        ensures
            r.run_id == state.view().run_id,
            r.status == status,
            r.state.view() == state.view(),
            r.error == error,
            messages_view(r.messages@) == Seq::new(state.view().log.len(), |i: int| state.view().log[i].message),
            r.messages@.len() == state.view().log.len(),
            r.events@.len() == events@.len() + 1,
            r.events@.drop_last() == events@,
            events@.len() >= 1 ==> r.events@[0] == events@[0],
            r.events@.last() matches CoreEvent::GraphEnded { run_id: id, graph_name, status: st } && id == state.view().run_id
                && graph_name@ == graph.view().name && st@ == run_status_text(status),
    {
        let mut events = events;
        let ghost before = events@;
        events.push(CoreEvent::GraphEnded { run_id: state.run_id(), graph_name: owned(graph.name()), status: owned(status.as_str()) });
        let messages = state.all_messages();
        proof {
            assert(messages_view(messages@).len() == messages@.len());
        }
        GraphRunResult { run_id: state.run_id(), status, messages, events, state, error }
    }
}

} // verus!
