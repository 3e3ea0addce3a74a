//! The state of one graph run: emitted messages with per-node versions, fired edges, node
//! execution counts and the execution budget.

use vstd::prelude::*;
use crate::error::{AgentCoreError, AgentCoreResult};
use crate::message::{dup_messages, messages_view, MessageV, RunMessage, opt_view};
use crate::text::{decimal, dup_string, owned, str_eq, to_decimal};

verus! {

/// Limits on node executions; `None` is unlimited.
#[derive(Debug, Clone, Copy, PartialEq, Eq, Structural)]
pub struct GraphStateBudget {
    pub max_total_node_executions: Option<usize>,
    pub max_node_executions: Option<usize>,
    pub max_no_progress_ticks: Option<usize>,
}

impl GraphStateBudget {
    pub fn unlimited() -> (r: GraphStateBudget)
        ensures
            r.max_total_node_executions is None && r.max_node_executions is None && r.max_no_progress_ticks is None,
    {
        GraphStateBudget { max_total_node_executions: None, max_node_executions: None, max_no_progress_ticks: None }
    }
}

impl Default for GraphStateBudget {
    fn default() -> (r: GraphStateBudget)
        ensures
            r == (GraphStateBudget {
                max_total_node_executions: Some(100),
                max_node_executions: Some(20),
                max_no_progress_ticks: Some(10),
            }),
    {
        GraphStateBudget { max_total_node_executions: Some(100), max_node_executions: Some(20), max_no_progress_ticks: Some(10) }
    }
}

/// A message emitted by a node, with its per-node version (1 for the node's first message).
#[derive(Debug, PartialEq, Clone)]
pub struct NodeMessageRecord {
    pub node_id: String,
    pub version: u64,
    pub message: RunMessage,
}

pub struct RecordV {
    pub node_id: Seq<char>,
    pub version: u64,
    pub message: MessageV,
}

impl NodeMessageRecord {
    pub open spec fn view(&self) -> RecordV {
        RecordV { node_id: self.node_id@, version: self.version, message: self.message.view() }
    }

    pub fn dup(&self) -> (r: NodeMessageRecord)
        ensures
            r.view() == self.view(),
    {
        NodeMessageRecord { node_id: dup_string(&self.node_id), version: self.version, message: self.message.dup() }
    }
}

/// That `edge_id` fired from the `source_message_version`-th message of the source node.
#[derive(Debug, PartialEq, Clone)]
pub struct FiredEdgeRecord {
    pub edge_id: String,
    pub source_node_id: String,
    pub source_message_version: u64,
    pub target_node_id: String,
}

pub struct FiredV {
    pub edge_id: Seq<char>,
    pub source_node_id: Seq<char>,
    pub source_message_version: u64,
    pub target_node_id: Seq<char>,
}

impl FiredEdgeRecord {
    pub open spec fn view(&self) -> FiredV {
        FiredV {
            edge_id: self.edge_id@,
            source_node_id: self.source_node_id@,
            source_message_version: self.source_message_version,
            target_node_id: self.target_node_id@,
        }
    }

    pub fn new(edge_id: &str, source_node_id: &str, source_message_version: u64, target_node_id: &str) -> (r: FiredEdgeRecord)
        ensures
            r.view() == (FiredV {
                edge_id: edge_id@,
                source_node_id: source_node_id@,
                source_message_version,
                target_node_id: target_node_id@,
            }),
    {
        FiredEdgeRecord {
            edge_id: owned(edge_id),
            source_node_id: owned(source_node_id),
            source_message_version,
            target_node_id: owned(target_node_id),
        }
    }

    pub fn same_as(&self, other: &FiredEdgeRecord) -> (r: bool)
        ensures
            r == (self.view() == other.view()),
    {
        str_eq(self.edge_id.as_str(), other.edge_id.as_str()) && str_eq(self.source_node_id.as_str(), other.source_node_id.as_str())
            && self.source_message_version == other.source_message_version && str_eq(
            self.target_node_id.as_str(),
            other.target_node_id.as_str(),
        )
    }
}

/// Number of entries of `s` equal to `x`.
pub open spec fn count_of(s: Seq<Seq<char>>, x: Seq<char>) -> nat
    decreases s.len(),
{
    if s.len() == 0 {
        0
    } else {
        count_of(s.drop_last(), x) + if s.last() == x { 1nat } else { 0nat }
    }
}

pub proof fn lemma_count_of_le(s: Seq<Seq<char>>, x: Seq<char>)
    ensures
        count_of(s, x) <= s.len(),
    decreases s.len(),
{
    if s.len() > 0 {
        lemma_count_of_le(s.drop_last(), x);
    }
}

pub open spec fn record_nodes(log: Seq<RecordV>) -> Seq<Seq<char>> {
    Seq::new(log.len(), |i: int| log[i].node_id)
}

pub open spec fn records_view(v: Seq<NodeMessageRecord>) -> Seq<RecordV> {
    Seq::new(v.len(), |i: int| v[i].view())
}

pub open spec fn node_ids_view(v: Seq<String>) -> Seq<Seq<char>> {
    Seq::new(v.len(), |i: int| v[i]@)
}

pub open spec fn fired_view(v: Seq<FiredEdgeRecord>) -> Seq<FiredV> {
    Seq::new(v.len(), |i: int| v[i].view())
}

/// The mathematical value of a [`GraphState`].
pub struct GraphStateV {
    pub run_id: u128,
    pub budget: GraphStateBudget,
    /// Every emitted message, in emission order.
    pub log: Seq<RecordV>,
    pub fired: Seq<FiredV>,
    /// The node executed at each execution, in order.
    pub executions: Seq<Seq<char>>,
    pub stop_requested: bool,
}

impl GraphStateV {
    pub open spec fn message_count(self, node: Seq<char>) -> nat {
        count_of(record_nodes(self.log), node)
    }

    pub open spec fn execution_count(self, node: Seq<char>) -> nat {
        count_of(self.executions, node)
    }

    pub open spec fn has_fired(self, f: FiredV) -> bool {
        self.fired.contains(f)
    }

    /// Versions count each node's messages from 1, fired records are distinct, and the
    /// budget holds.
    pub open spec fn wf(self) -> bool {
        &&& forall|i: int| 0 <= i < self.log.len() ==> (#[trigger] self.log[i]).version == count_of(
            record_nodes(self.log.subrange(0, i + 1)),
            self.log[i].node_id,
        )
        &&& forall|i: int, j: int| 0 <= i < j < self.fired.len() ==> #[trigger] self.fired[i] != #[trigger] self.fired[j]
        &&& self.within_budget()
    }

    pub open spec fn within_budget(self) -> bool {
        &&& (self.budget.max_total_node_executions matches Some(m) ==> self.executions.len() <= m)
        &&& (self.budget.max_node_executions matches Some(m) ==> forall|n: Seq<char>| #[trigger] count_of(self.executions, n) <= m)
    }
}

/// The state of one run.
#[derive(Debug)]
pub struct GraphState {
    run_id: u128,
    budget: GraphStateBudget,
    message_log: Vec<NodeMessageRecord>,
    fired_edges: Vec<FiredEdgeRecord>,
    executions: Vec<String>,
    stop_requested: bool,
}

/// The text of a total-budget refusal.
pub open spec fn total_budget_text(next: nat, max: nat) -> Seq<char> {
    "graph total node execution budget exceeded: "@ + decimal(next) + " > "@ + decimal(max)
}

/// The text of a per-node budget refusal.
pub open spec fn node_budget_text(node: Seq<char>, next: nat, max: nat) -> Seq<char> {
    "graph node execution budget exceeded for "@ + node + ": "@ + decimal(next) + " > "@ + decimal(max)
}

impl GraphState {
    pub closed spec fn view(&self) -> GraphStateV {
        GraphStateV {
            run_id: self.run_id,
            budget: self.budget,
            log: records_view(self.message_log@),
            fired: fired_view(self.fired_edges@),
            executions: node_ids_view(self.executions@),
            stop_requested: self.stop_requested,
        }
    }

    pub fn new(run_id: u128, budget: GraphStateBudget) -> (r: GraphState)
        ensures
            r.view() == (GraphStateV {
                run_id,
                budget,
                log: Seq::empty(),
                fired: Seq::empty(),
                executions: Seq::empty(),
                stop_requested: false,
            }),
            r.view().wf(),
    {
        let r = GraphState {
            run_id,
            budget,
            message_log: Vec::new(),
            fired_edges: Vec::new(),
            executions: Vec::new(),
            stop_requested: false,
        };
        proof {
            assert(records_view(r.message_log@) =~= Seq::empty());
            assert(fired_view(r.fired_edges@) =~= Seq::empty());
            assert(node_ids_view(r.executions@) =~= Seq::empty());
        }
        r
    }

    pub fn run_id(&self) -> (r: u128)
        ensures
            r == self.view().run_id,
    {
        self.run_id
    }

    pub fn budget(&self) -> (r: &GraphStateBudget)
        ensures
            *r == self.view().budget,
    {
        &self.budget
    }

    pub fn view_of(&self) -> (r: GraphStateView<'_>)
        ensures
            r.state_view() == self.view(),
    {
        GraphStateView { state: self }
    }

    pub fn log_len(&self) -> (r: usize)
        ensures
            r == self.view().log.len(),
    {
        self.message_log.len()
    }

    /// Records a message emitted by `node_id`; the message takes the node as its source when
    /// it has none, and gets the node's next version.
    pub fn append_message(&mut self, node_id: &str, message: RunMessage) -> (r: NodeMessageRecord)
        requires
            old(self).view().wf(),
            old(self).view().log.len() < usize::MAX,
        ensures
            final(self).view().wf(),
            r.node_id@ == node_id@,
            r.version == old(self).view().message_count(node_id@) + 1,
            r.message.view() == (if message.source_node_id is None {
                MessageV { source_node_id: Some(node_id@), ..message.view() }
            } else {
                message.view()
            }),
            final(self).view() == (GraphStateV { log: old(self).view().log.push(r.view()), ..old(self).view() }),
    {
        let mut message = message;
        message.set_source_node_id_if_empty(node_id);
        let count = self.message_count(node_id);
        proof {
            lemma_count_of_le(record_nodes(records_view(self.message_log@)), node_id@);
        }
        let version = count as u64 + 1;
        let record = NodeMessageRecord { node_id: owned(node_id), version, message };
        let out = record.dup();
        let ghost old_log = records_view(self.message_log@);
        self.message_log.push(record);
        proof {
            let log = records_view(self.message_log@);
            assert(log =~= old_log.push(out.view()));
            assert(record_nodes(log).drop_last() =~= record_nodes(old_log));
            assert forall|i: int| 0 <= i < log.len() implies (#[trigger] log[i]).version == count_of(
                record_nodes(log.subrange(0, i + 1)),
                log[i].node_id,
            ) by {
                if i < old_log.len() {
                    assert(log.subrange(0, i + 1) =~= old_log.subrange(0, i + 1));
                } else {
                    assert(log.subrange(0, i + 1) =~= log);
                }
            }
        }
        out
    }

    /// Counts one more execution of `node_id`; refused, leaving the state as it was, when the
    /// total or per-node budget would be exceeded.
    pub fn record_node_execution(&mut self, node_id: &str) -> (r: AgentCoreResult<()>)
        requires
            old(self).view().wf(),
            old(self).view().executions.len() < usize::MAX,
        ensures
            final(self).view().wf(),
            ({
                let s = old(self).view();
                let next_total = s.executions.len() + 1;
                let next_node = s.execution_count(node_id@) + 1;
                let total_cap = s.budget.max_total_node_executions;
                let node_cap = s.budget.max_node_executions;
                if total_cap is Some && next_total > total_cap->0 {
                    &&& r matches Err(AgentCoreError::Fatal(t)) && t@ == total_budget_text(next_total, total_cap->0 as nat)
                    &&& final(self).view() == s
                } else if node_cap is Some && next_node > node_cap->0 {
                    &&& r matches Err(AgentCoreError::Fatal(t)) && t@ == node_budget_text(node_id@, next_node, node_cap->0 as nat)
                    &&& final(self).view() == s
                } else {
                    &&& r is Ok
                    &&& final(self).view() == (GraphStateV { executions: s.executions.push(node_id@), ..s })
                }
            }),
    {
        let next_total = self.executions.len() + 1;
        if let Some(max) = self.budget.max_total_node_executions {
            if next_total > max {
                let mut t = owned("graph total node execution budget exceeded: ");
                t.append(to_decimal(next_total as u64).as_str());
                t.append(" > ");
                t.append(to_decimal(max as u64).as_str());
                return Err(AgentCoreError::Fatal(t));
            }
        }
        let count = self.node_execution_count(node_id);
        proof {
            lemma_count_of_le(node_ids_view(self.executions@), node_id@);
        }
        let next_node = count + 1;
        if let Some(max) = self.budget.max_node_executions {
            if next_node > max {
                let mut t = owned("graph node execution budget exceeded for ");
                t.append(node_id);
                t.append(": ");
                t.append(to_decimal(next_node as u64).as_str());
                t.append(" > ");
                t.append(to_decimal(max as u64).as_str());
                return Err(AgentCoreError::Fatal(t));
            }
        }
        let ghost old_ex = node_ids_view(self.executions@);
        self.executions.push(owned(node_id));
        proof {
            let ex = node_ids_view(self.executions@);
            assert(ex =~= old_ex.push(node_id@));
            assert(ex.drop_last() =~= old_ex);
            let s = old(self).view();
            if let Some(m) = s.budget.max_node_executions {
                assert forall|n: Seq<char>| #[trigger] count_of(ex, n) <= m by {
                    assert(count_of(old_ex, n) <= m);
                }
            }
        }
        Ok(())
    }

    pub fn total_node_executions(&self) -> (r: usize)
        ensures
            r == self.view().executions.len(),
    {
        self.executions.len()
    }

    pub fn node_execution_count(&self, node_id: &str) -> (r: usize)
        ensures
            r == self.view().execution_count(node_id@),
    {
        let mut count: usize = 0;
        let mut i: usize = 0;
        while i < self.executions.len()
            invariant
                i <= self.executions.len(),
                count == count_of(node_ids_view(self.executions@).subrange(0, i as int), node_id@),
                count <= i,
            decreases self.executions.len() - i,
        {
            let ghost v = node_ids_view(self.executions@);
            proof {
                assert(v.subrange(0, i + 1).drop_last() =~= v.subrange(0, i as int));
            }
            if str_eq(self.executions[i].as_str(), node_id) {
                count += 1;
            }
            i += 1;
        }
        proof {
            assert(node_ids_view(self.executions@).subrange(0, i as int) =~= node_ids_view(self.executions@));
        }
        count
    }

    pub fn message_count(&self, node_id: &str) -> (r: usize)
        ensures
            r == self.view().message_count(node_id@),
    {
        let mut count: usize = 0;
        let mut i: usize = 0;
        while i < self.message_log.len()
            invariant
                i <= self.message_log.len(),
                count == count_of(record_nodes(records_view(self.message_log@)).subrange(0, i as int), node_id@),
                count <= i,
            decreases self.message_log.len() - i,
        {
            let ghost v = record_nodes(records_view(self.message_log@));
            proof {
                assert(v.subrange(0, i + 1).drop_last() =~= v.subrange(0, i as int));
            }
            if str_eq(self.message_log[i].node_id.as_str(), node_id) {
                count += 1;
            }
            i += 1;
        }
        proof {
            assert(record_nodes(records_view(self.message_log@)).subrange(0, i as int) =~= record_nodes(records_view(self.message_log@)));
        }
        count
    }

    /// The version of the node's latest message (0 before its first).
    pub fn message_version(&self, node_id: &str) -> (r: u64)
        ensures
            r == self.view().message_count(node_id@),
    {
        let c = self.message_count(node_id);
        proof {
            lemma_count_of_le(record_nodes(records_view(self.message_log@)), node_id@);
        }
        c as u64
    }

    /// The node's messages, in emission order.
    pub fn messages_for_node(&self, node_id: &str) -> (r: Vec<NodeMessageRecord>)
        ensures
            records_view(r@) == self.view().log.filter(|rec: RecordV| rec.node_id == node_id@),
    {
        let mut out: Vec<NodeMessageRecord> = Vec::new();
        let mut i: usize = 0;
        let ghost log = records_view(self.message_log@);
        while i < self.message_log.len()
            invariant
                i <= self.message_log.len(),
                log == records_view(self.message_log@),
                records_view(out@) == log.subrange(0, i as int).filter(|rec: RecordV| rec.node_id == node_id@),
            decreases self.message_log.len() - i,
        {
            proof {
                assert(log.subrange(0, i + 1).drop_last() =~= log.subrange(0, i as int));
                reveal_with_fuel(Seq::<RecordV>::filter, 1);
            }
            if str_eq(self.message_log[i].node_id.as_str(), node_id) {
                let ghost prev = records_view(out@);
                let rec = self.message_log[i].dup();
                out.push(rec);
                proof {
                    assert(records_view(out@) =~= prev.push(rec.view()));
                }
            }
            i += 1;
        }
        proof {
            assert(log.subrange(0, i as int) =~= log);
        }
        out
    }

    /// Every message, in emission order.
    pub fn all_messages(&self) -> (r: Vec<RunMessage>)
        ensures
            messages_view(r@) == Seq::new(self.view().log.len(), |i: int| self.view().log[i].message),
    {
        let mut out: Vec<RunMessage> = Vec::new();
        let mut i: usize = 0;
        while i < self.message_log.len()
            invariant
                i <= self.message_log.len(),
                out.len() == i,
                forall|k: int| 0 <= k < i ==> (#[trigger] out@[k]).view() == self.message_log@[k].message.view(),
            decreases self.message_log.len() - i,
        {
            out.push(self.message_log[i].message.dup());
            i += 1;
        }
        assert(messages_view(out@) =~= Seq::new(self.view().log.len(), |i: int| self.view().log[i].message));
        out
    }

    pub fn has_edge_fired(&self, record: &FiredEdgeRecord) -> (r: bool)
        ensures
            r == self.view().has_fired(record.view()),
    {
        let mut i: usize = 0;
        while i < self.fired_edges.len()
            invariant
                i <= self.fired_edges.len(),
                forall|k: int| 0 <= k < i ==> fired_view(self.fired_edges@)[k] != record.view(),
            decreases self.fired_edges.len() - i,
        {
            if self.fired_edges[i].same_as(record) {
                assert(fired_view(self.fired_edges@)[i as int] == record.view());
                return true;
            }
            i += 1;
        }
        false
    }

    /// Marks an edge record fired; false when it had fired already.
    pub fn mark_edge_fired(&mut self, record: FiredEdgeRecord) -> (r: bool)
        requires
            old(self).view().wf(),
        ensures
            final(self).view().wf(),
            r == !old(self).view().has_fired(record.view()),
            r ==> final(self).view() == (GraphStateV { fired: old(self).view().fired.push(record.view()), ..old(self).view() }),
            !r ==> final(self).view() == old(self).view(),
    {
        if self.has_edge_fired(&record) {
            return false;
        }
        let ghost old_f = fired_view(self.fired_edges@);
        let ghost rv = record.view();
        self.fired_edges.push(record);
        proof {
            assert(fired_view(self.fired_edges@) =~= old_f.push(rv));
        }
        true
    }

    pub fn fired_edges(&self) -> (r: &Vec<FiredEdgeRecord>)
        ensures
            fired_view(r@) == self.view().fired,
    {
        &self.fired_edges
    }

    pub fn request_stop(&mut self)
        ensures
            final(self).view() == (GraphStateV { stop_requested: true, ..old(self).view() }),
    {
        self.stop_requested = true;
    }

    pub fn is_stop_requested(&self) -> (r: bool)
        ensures
            r == self.view().stop_requested,
    {
        self.stop_requested
    }
}

/// A read-only window onto a [`GraphState`], handed to activation conditions.
pub struct GraphStateView<'a> {
    state: &'a GraphState,
}

impl<'a> GraphStateView<'a> {
    pub closed spec fn state_view(&self) -> GraphStateV {
        self.state.view()
    }

    pub fn run_id(&self) -> (r: u128)
        ensures
            r == self.state_view().run_id,
    {
        self.state.run_id()
    }

    pub fn message_count(&self, node_id: &str) -> (r: usize)
        ensures
            r == self.state_view().message_count(node_id@),
    {
        self.state.message_count(node_id)
    }

    pub fn message_version(&self, node_id: &str) -> (r: u64)
        ensures
            r == self.state_view().message_count(node_id@),
    {
        self.state.message_version(node_id)
    }

    pub fn total_node_executions(&self) -> (r: usize)
        ensures
            r == self.state_view().executions.len(),
    {
        self.state.total_node_executions()
    }

    pub fn node_execution_count(&self, node_id: &str) -> (r: usize)
        ensures
            r == self.state_view().execution_count(node_id@),
    {
        self.state.node_execution_count(node_id)
    }

    pub fn has_edge_fired(&self, record: &FiredEdgeRecord) -> (r: bool)
        ensures
            r == self.state_view().has_fired(record.view()),
    {
        self.state.has_edge_fired(record)
    }
}

} // verus!
